//! The tape machine: one run over a byte buffer from a start position, for a
//! bounded number of steps.
use vstd::prelude::*;

verus! {

/// `<`: moves cursor 0 back by one.
pub const OP_LEFT: u8 = 60;
/// `>`: also moves cursor 0 back by one. Whether it was meant to move forward is an
/// open question; the machine keeps the backward move.
pub const OP_RIGHT: u8 = 62;
/// `{`: moves cursor 1 back by one.
pub const OP_HEAD1_LEFT: u8 = 123;
/// `}`: moves cursor 1 forward by one.
pub const OP_HEAD1_RIGHT: u8 = 125;
/// `-`: decrements the cell under cursor 0.
pub const OP_DEC: u8 = 45;
/// `+`: increments the cell under cursor 0.
pub const OP_INC: u8 = 43;
/// `.`: copies the cell under cursor 0 to the cell under cursor 1.
pub const OP_COPY_0_TO_1: u8 = 46;
/// `,`: copies the cell under cursor 1 to the cell under cursor 0.
pub const OP_COPY_1_TO_0: u8 = 44;
/// `[`: jumps forward past its matching `]` when the cell under cursor 0 is zero.
pub const OP_LOOP_OPEN: u8 = 91;
/// `]`: jumps back to its matching `[` when the cell under cursor 0 is nonzero.
pub const OP_LOOP_CLOSE: u8 = 93;
/// Distance from the start position at which cursor 1 begins.
pub const HEAD1_OFFSET: usize = 16;

/// How a run of the machine ended.
#[derive(Debug, Clone, Copy, PartialEq, Eq, Structural)]
pub enum ProgramStatus {
    /// The step budget ran out.
    TimedOut,
    /// A bracket found no partner in its one-directional scan.
    UnmatchedBranch,
}

/// Whether the machine reacts to this byte at all.
pub open spec fn is_opcode(c: u8) -> bool {
    c == OP_LEFT || c == OP_RIGHT || c == OP_HEAD1_LEFT || c == OP_HEAD1_RIGHT || c == OP_DEC
        || c == OP_INC || c == OP_COPY_0_TO_1 || c == OP_COPY_1_TO_0 || c == OP_LOOP_OPEN
        || c == OP_LOOP_CLOSE
}

/// The next position on a circular tape of length `n`.
pub open spec fn succ(i: int, n: int) -> int {
    if i + 1 == n { 0 } else { i + 1 }
}

/// The previous position on a circular tape of length `n`.
pub open spec fn pred(i: int, n: int) -> int {
    if i == 0 { n - 1 } else { i - 1 }
}

/// Depth change of a byte during a forward bracket scan.
pub open spec fn forward_delta(c: u8) -> int {
    if c == OP_LOOP_OPEN { 1 } else if c == OP_LOOP_CLOSE { -1 } else { 0 }
}

/// Depth change of a byte during a backward bracket scan.
pub open spec fn backward_delta(c: u8) -> int {
    if c == OP_LOOP_CLOSE { 1 } else if c == OP_LOOP_OPEN { -1 } else { 0 }
}

/// Scans forward from `j` to the end of `t` (no wrap-around), with depth `d`
/// before `j`; the first position at which the depth comes back to zero.
pub open spec fn scan_forward(t: Seq<u8>, j: int, d: int) -> Option<int>
    decreases t.len() - j,
{
    if j < 0 || j >= t.len() {
        None
    } else if d + forward_delta(t[j]) == 0 {
        Some(j)
    } else {
        scan_forward(t, j + 1, d + forward_delta(t[j]))
    }
}

/// Scans backward from `j` to the start of `t` (no wrap-around), with depth `d`
/// before `j`; the first position at which the depth comes back to zero.
pub open spec fn scan_backward(t: Seq<u8>, j: int, d: int) -> Option<int>
    decreases j + 1,
{
    if j < 0 || j >= t.len() {
        None
    } else if d + backward_delta(t[j]) == 0 {
        Some(j)
    } else {
        scan_backward(t, j - 1, d + backward_delta(t[j]))
    }
}

/// The machine's state: tape, instruction pointer and the two cursors.
pub struct MachineState {
    pub tape: Seq<u8>,
    pub ip: int,
    pub head0: int,
    pub head1: int,
}

/// A state whose positions all address the tape.
pub open spec fn valid_state(s: MachineState) -> bool {
    &&& 0 < s.tape.len()
    &&& 0 <= s.ip < s.tape.len()
    &&& 0 <= s.head0 < s.tape.len()
    &&& 0 <= s.head1 < s.tape.len()
}

/// The state after dispatching on the byte under the instruction pointer, before the instruction pointer moves
/// on; `None` when a bracket scan fails.
pub open spec fn dispatch(s: MachineState) -> Option<MachineState> {
    let t = s.tape;
    let n = t.len() as int;
    let c = t[s.ip];
    if c == OP_LEFT || c == OP_RIGHT {
        Some(MachineState { head0: pred(s.head0, n), ..s })
    } else if c == OP_HEAD1_LEFT {
        Some(MachineState { head1: pred(s.head1, n), ..s })
    } else if c == OP_HEAD1_RIGHT {
        Some(MachineState { head1: succ(s.head1, n), ..s })
    } else if c == OP_DEC {
        Some(MachineState { tape: t.update(s.head0, (if t[s.head0] == 0 { 255 } else { t[s.head0] - 1 }) as u8), ..s })
    } else if c == OP_INC {
        Some(MachineState { tape: t.update(s.head0, (if t[s.head0] == 255 { 0 } else { t[s.head0] + 1 }) as u8), ..s })
    } else if c == OP_COPY_0_TO_1 {
        Some(MachineState { tape: t.update(s.head1, t[s.head0]), ..s })
    } else if c == OP_COPY_1_TO_0 {
        Some(MachineState { tape: t.update(s.head0, t[s.head1]), ..s })
    } else if c == OP_LOOP_OPEN && t[s.head0] == 0 {
        match scan_forward(t, s.ip, 0) {
            Some(j) => Some(MachineState { ip: j, ..s }),
            None => None,
        }
    } else if c == OP_LOOP_CLOSE && t[s.head0] != 0 {
        match scan_backward(t, s.ip, 0) {
            Some(j) => Some(MachineState { ip: j, ..s }),
            None => None,
        }
    } else {
        Some(s)
    }
}

/// One step: dispatch, then the instruction pointer moves on by one.
pub open spec fn step(s: MachineState) -> Option<MachineState> {
    match dispatch(s) {
        Some(d) => Some(MachineState { ip: succ(d.ip, d.tape.len() as int), ..d }),
        None => None,
    }
}

/// The tape and outcome after running from `s` with `fuel` steps left.
pub open spec fn run(s: MachineState, fuel: nat) -> (Seq<u8>, ProgramStatus)
    decreases fuel,
{
    if fuel == 0 {
        (s.tape, ProgramStatus::TimedOut)
    } else {
        match step(s) {
            Some(next) => run(next, (fuel - 1) as nat),
            None => (s.tape, ProgramStatus::UnmatchedBranch),
        }
    }
}

/// The state in which a run from `start` begins.
pub open spec fn initial_state(tape: Seq<u8>, start: int) -> MachineState {
    MachineState { tape, ip: start, head0: start, head1: (start + HEAD1_OFFSET) % (tape.len() as int) }
}

/// The tape and outcome of a run over `tape` from `start` with `budget` steps.
pub open spec fn execution(tape: Seq<u8>, start: int, budget: nat) -> (Seq<u8>, ProgramStatus) {
    run(initial_state(tape, start), budget)
}

/// The partner of the `[` at `ip`: the first position from `ip` to the end of
/// the tape at which the bracket depth comes back to zero.
fn find_forward(tape: &Vec<u8>, ip: usize) -> (r: Option<usize>)
    requires
        ip < tape@.len(),
        tape@[ip as int] == OP_LOOP_OPEN,
    ensures
        r matches Some(j) ==> ip < j < tape@.len() && scan_forward(tape@, ip as int, 0) == Some(
            j as int,
        ),
        r is None ==> scan_forward(tape@, ip as int, 0) is None,
{
    let n = tape.len();
    let mut j: usize = ip + 1;
    let mut depth: usize = 1;
    assert(scan_forward(tape@, ip as int, 0) == scan_forward(tape@, ip + 1, 1));
    while j < n
        invariant
            n == tape@.len(),
            ip < j <= n,
            1 <= depth <= j - ip,
            scan_forward(tape@, ip as int, 0) == scan_forward(tape@, j as int, depth as int),
        decreases n - j,
    {
        let c = tape[j];
        if c == OP_LOOP_OPEN {
            depth = depth + 1;
        } else if c == OP_LOOP_CLOSE {
            depth = depth - 1;
        }
        if depth == 0 {
            return Some(j);
        }
        j = j + 1;
    }
    None
}

/// The partner of the `]` at `ip`: the first position from `ip` back to the
/// start of the tape at which the bracket depth comes back to zero.
fn find_backward(tape: &Vec<u8>, ip: usize) -> (r: Option<usize>)
    requires
        ip < tape@.len(),
        tape@[ip as int] == OP_LOOP_CLOSE,
    ensures
        r matches Some(j) ==> j < ip && scan_backward(tape@, ip as int, 0) == Some(j as int),
        r is None ==> scan_backward(tape@, ip as int, 0) is None,
{
    let n = tape.len();
    let mut j: usize = ip;
    let mut depth: usize = 1;
    assert(scan_backward(tape@, ip as int, 0) == scan_backward(tape@, ip - 1, 1));
    while j > 0
        invariant
            n == tape@.len(),
            ip < n,
            j <= ip,
            1 <= depth <= ip - j + 1,
            scan_backward(tape@, ip as int, 0) == scan_backward(tape@, j - 1, depth as int),
        decreases j,
    {
        let p = j - 1;
        let c = tape[p];
        if c == OP_LOOP_CLOSE {
            depth = depth + 1;
        } else if c == OP_LOOP_OPEN {
            depth = depth - 1;
        }
        if depth == 0 {
            return Some(p);
        }
        j = p;
    }
    None
}

/// Runs the machine over `tape` from `ip` for at most `max_instructions`
/// steps, changing the tape in place, and reports how the run ended.
pub fn execute(tape: &mut Vec<u8>, ip: usize, max_instructions: usize) -> (r: ProgramStatus)
    requires
        ip < old(tape)@.len(),
    ensures
        (final(tape)@, r) == execution(old(tape)@, ip as int, max_instructions as nat),
{
    let n = tape.len();
    let mut pc: usize = ip;
    let mut head0: usize = pc;
    let shift: usize = HEAD1_OFFSET % n;
    let mut head1: usize = if pc >= n - shift { pc - (n - shift) } else { pc + shift };
    proof {
        let (hi, ni, si, ii) = (head1 as int, n as int, shift as int, pc as int);
        assert(hi == (ii + HEAD1_OFFSET) % ni) by (nonlinear_arith)
            requires
                si == (HEAD1_OFFSET as int) % ni,
                hi == (if ii >= ni - si { ii - (ni - si) } else { ii + si }),
                0 <= ii < ni,
        ;
    }
    let ghost goal = execution(tape@, ip as int, max_instructions as nat);
    let mut i: usize = 0;
    while i < max_instructions
        invariant
            n == tape@.len(),
            pc < n,
            head0 < n,
            head1 < n,
            i <= max_instructions,
            goal == execution(old(tape)@, ip as int, max_instructions as nat),
            goal == run(
                MachineState { tape: tape@, ip: pc as int, head0: head0 as int, head1: head1 as int },
                (max_instructions - i) as nat,
            ),
        decreases max_instructions - i,
    {
        let ghost s = MachineState { tape: tape@, ip: pc as int, head0: head0 as int, head1: head1 as int };
        let c = tape[pc];
        if c == OP_LEFT || c == OP_RIGHT {
            head0 = if head0 == 0 { n - 1 } else { head0 - 1 };
        } else if c == OP_HEAD1_LEFT {
            head1 = if head1 == 0 { n - 1 } else { head1 - 1 };
        } else if c == OP_HEAD1_RIGHT {
            head1 = if head1 + 1 == n { 0 } else { head1 + 1 };
        } else if c == OP_DEC {
            let v = tape[head0].wrapping_sub(1);
            tape.set(head0, v);
        } else if c == OP_INC {
            let v = tape[head0].wrapping_add(1);
            tape.set(head0, v);
        } else if c == OP_COPY_0_TO_1 {
            let v = tape[head0];
            tape.set(head1, v);
        } else if c == OP_COPY_1_TO_0 {
            let v = tape[head1];
            tape.set(head0, v);
        } else if c == OP_LOOP_OPEN {
            if tape[head0] == 0 {
                match find_forward(tape, pc) {
                    Some(j) => {
                        pc = j;
                    },
                    None => {
                        assert(step(s) is None);
                        return ProgramStatus::UnmatchedBranch;
                    },
                }
            }
        } else if c == OP_LOOP_CLOSE {
            if tape[head0] != 0 {
                match find_backward(tape, pc) {
                    Some(j) => {
                        pc = j;
                    },
                    None => {
                        assert(step(s) is None);
                        return ProgramStatus::UnmatchedBranch;
                    },
                }
            }
        }
        assert(dispatch(s) == Some(
            MachineState { tape: tape@, ip: pc as int, head0: head0 as int, head1: head1 as int },
        ));
        pc = if pc + 1 == n { 0 } else { pc + 1 };
        i = i + 1;
    }
    ProgramStatus::TimedOut
}

/// A run with no steps to spend times out and leaves the tape as it was.
pub proof fn lemma_zero_budget(tape: Seq<u8>, start: int)
    ensures
        execution(tape, start, 0) == (tape, ProgramStatus::TimedOut),
{
}

/// On a tape that holds no opcode, every run of `k` steps spends all of them,
/// times out, and leaves the tape as it was.
pub proof fn lemma_no_op_tape(s: MachineState, k: nat)
    requires
        valid_state(s),
        forall|i: int| 0 <= i < s.tape.len() ==> !is_opcode(#[trigger] s.tape[i]),
    ensures
        run(s, k) == (s.tape, ProgramStatus::TimedOut),
    decreases k,
{
    if k > 0 {
        let next = MachineState { ip: succ(s.ip, s.tape.len() as int), ..s };
        assert(!is_opcode(s.tape[s.ip]));
        assert(step(s) == Some(next));
        lemma_no_op_tape(next, (k - 1) as nat);
    }
}

/// A forward scan that starts inside an open bracket and meets no `]` runs off
/// the end of the tape.
proof fn lemma_scan_forward_fails(t: Seq<u8>, j: int, d: int)
    requires
        0 <= j,
        d >= 1,
        forall|i: int| j <= i < t.len() ==> #[trigger] t[i] != OP_LOOP_CLOSE,
    ensures
        scan_forward(t, j, d) is None,
    decreases t.len() - j,
{
    if j < t.len() {
        lemma_scan_forward_fails(t, j + 1, d + forward_delta(t[j]));
    }
}

/// A backward scan that starts inside a close bracket and meets no `[` runs
/// off the start of the tape.
proof fn lemma_scan_backward_fails(t: Seq<u8>, j: int, d: int)
    requires
        j < t.len(),
        d >= 1,
        forall|i: int| 0 <= i <= j ==> #[trigger] t[i] != OP_LOOP_OPEN,
    ensures
        scan_backward(t, j, d) is None,
    decreases j + 1,
{
    if j >= 0 {
        lemma_scan_backward_fails(t, j - 1, d + backward_delta(t[j]));
    }
}

/// A `[` under the instruction pointer, with cursor 0 on a zero byte and no `]`
/// after it, ends the run at once with an unmatched branch, whatever the
/// budget.
pub proof fn lemma_lone_open_bracket(s: MachineState, fuel: nat)
    requires
        valid_state(s),
        s.tape[s.ip] == OP_LOOP_OPEN,
        s.tape[s.head0] == 0,
        forall|i: int| s.ip < i < s.tape.len() ==> #[trigger] s.tape[i] != OP_LOOP_CLOSE,
        fuel > 0,
    ensures
        run(s, fuel) == (s.tape, ProgramStatus::UnmatchedBranch),
{
    lemma_scan_forward_fails(s.tape, s.ip + 1, 1);
    assert(scan_forward(s.tape, s.ip, 0) == scan_forward(s.tape, s.ip + 1, 1));
}

/// A `]` under the instruction pointer, with cursor 0 on a nonzero byte and no
/// `[` before it, ends the run at once with an unmatched branch, whatever the
/// budget.
pub proof fn lemma_lone_close_bracket(s: MachineState, fuel: nat)
    requires
        valid_state(s),
        s.tape[s.ip] == OP_LOOP_CLOSE,
        s.tape[s.head0] != 0,
        forall|i: int| 0 <= i < s.ip ==> #[trigger] s.tape[i] != OP_LOOP_OPEN,
        fuel > 0,
    ensures
        run(s, fuel) == (s.tape, ProgramStatus::UnmatchedBranch),
{
    lemma_scan_backward_fails(s.tape, s.ip - 1, 1);
    assert(scan_backward(s.tape, s.ip, 0) == scan_backward(s.tape, s.ip - 1, 1));
}

/// The machine has no hidden state: the same tape, start position and budget
/// give the same tape and outcome.
pub proof fn lemma_execution_deterministic(
    tape1: Seq<u8>,
    tape2: Seq<u8>,
    start1: int,
    start2: int,
    budget1: nat,
    budget2: nat,
)
    requires
        tape1 == tape2,
        start1 == start2,
        budget1 == budget2,
    ensures
        execution(tape1, start1, budget1) == execution(tape2, start2, budget2),
{
}

/// A successful forward scan stops at or after where it started.
proof fn lemma_scan_forward_range(t: Seq<u8>, j: int, d: int)
    ensures
        scan_forward(t, j, d) matches Some(k) ==> j <= k < t.len(),
    decreases t.len() - j,
{
    if 0 <= j < t.len() && d + forward_delta(t[j]) != 0 {
        lemma_scan_forward_range(t, j + 1, d + forward_delta(t[j]));
    }
}

/// A successful backward scan stops at or before where it started.
proof fn lemma_scan_backward_range(t: Seq<u8>, j: int, d: int)
    ensures
        scan_backward(t, j, d) matches Some(k) ==> 0 <= k <= j,
    decreases j + 1,
{
    if 0 <= j < t.len() && d + backward_delta(t[j]) != 0 {
        lemma_scan_backward_range(t, j - 1, d + backward_delta(t[j]));
    }
}

/// A step from a valid state leads to a valid state on a tape of the same
/// length.
pub proof fn lemma_step_valid(s: MachineState)
    requires
        valid_state(s),
    ensures
        step(s) matches Some(next) ==> valid_state(next) && next.tape.len() == s.tape.len(),
{
    lemma_scan_forward_range(s.tape, s.ip, 0);
    lemma_scan_backward_range(s.tape, s.ip, 0);
}

/// A run never changes the length of its tape.
pub proof fn lemma_run_keeps_length(s: MachineState, fuel: nat)
    requires
        valid_state(s),
    ensures
        run(s, fuel).0.len() == s.tape.len(),
    decreases fuel,
{
    if fuel > 0 {
        lemma_step_valid(s);
        if let Some(next) = step(s) {
            lemma_run_keeps_length(next, (fuel - 1) as nat);
        }
    }
}

} // verus!
