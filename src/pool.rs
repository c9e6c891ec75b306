//! The pool of programs and the reactions that rewrite it.
use crate::interpreter::execute;
use crate::interpreter::execution;
use crate::interpreter::initial_state;
use crate::interpreter::lemma_run_keeps_length;
use crate::interpreter::valid_state;
use crate::interpreter::ProgramStatus;
use crate::rng::entropy_rng;
use crate::rng::fill_random;
use crate::rng::random_below;
use crate::rng::seeded_rng;
use crate::stats::count_unique_tokens;
use crate::stats::distinct_tokens;
use crate::stats::programs_view;
use crate::stats::token_histogram;
use crate::stats::uniform_length;
use crate::stats::is_histogram_of;
use crate::stats::rows_view;
use crate::stats::TuringFoamStats;
use crate::stats::MAX_PROGRAM_LEN;
use rand::rngs::StdRng;
use vstd::prelude::*;

verus! {

/// Length of each program by default.
pub const PROGRAM_LEN: usize = 64;

/// Steps each reaction may take by default.
pub const STEP_BUDGET: usize = 10000;

/// A fixed-size pool of fixed-length byte programs. A program's slot index is
/// its identity; reactions rewrite slots and never add or remove one.
pub struct TuringFoam {
    programs: Vec<Vec<u8>>,
    program_len: usize,
    rng: StdRng,
}

/// The pool after one reaction between slots `a` and `b` from `start`: the two
/// programs are run as one tape, whose halves go back to `a` and then to `b`.
pub open spec fn reaction(
    progs: Seq<Seq<u8>>,
    len: nat,
    a: int,
    b: int,
    start: int,
    budget: nat,
) -> (Seq<Seq<u8>>, ProgramStatus) {
    let (tape, status) = execution(progs[a] + progs[b], start, budget);
    (
        progs.update(a, tape.subrange(0, len as int)).update(b, tape.subrange(len as int, 2 * len as int)),
        status,
    )
}

/// Slots and a start position that a reaction may draw.
pub open spec fn valid_draw(d: (int, int, int), count: nat, len: nat) -> bool {
    0 <= d.0 < count && 0 <= d.1 < count && 0 <= d.2 < len
}

/// The pool and the tallies of timed-out and unmatched-branch outcomes after
/// one reaction for each draw, in order.
pub open spec fn batch(progs: Seq<Seq<u8>>, len: nat, budget: nat, draws: Seq<(int, int, int)>) -> (
    Seq<Seq<u8>>,
    nat,
    nat,
)
    decreases draws.len(),
{
    if draws.len() == 0 {
        (progs, 0, 0)
    } else {
        let (p, timed_out, unmatched) = batch(progs, len, budget, draws.drop_last());
        let d = draws.last();
        let (next, status) = reaction(p, len, d.0, d.1, d.2, budget);
        match status {
            ProgramStatus::TimedOut => (next, timed_out + 1, unmatched),
            ProgramStatus::UnmatchedBranch => (next, timed_out, unmatched + 1),
        }
    }
}

/// A reaction keeps the number of slots and the length of every program.
pub proof fn lemma_reaction_keeps_shape(
    progs: Seq<Seq<u8>>,
    len: nat,
    a: int,
    b: int,
    start: int,
    budget: nat,
)
    requires
        uniform_length(progs, len),
        0 <= a < progs.len(),
        0 <= b < progs.len(),
        0 <= start < 2 * len,
    ensures
        reaction(progs, len, a, b, start, budget).0.len() == progs.len(),
        uniform_length(reaction(progs, len, a, b, start, budget).0, len),
{
    let tape = progs[a] + progs[b];
    assert(valid_state(initial_state(tape, start)));
    lemma_run_keeps_length(initial_state(tape, start), budget);
}

/// Any number of reactions keeps the number of slots and the length of every
/// program.
pub proof fn lemma_batch_keeps_shape(
    progs: Seq<Seq<u8>>,
    len: nat,
    budget: nat,
    draws: Seq<(int, int, int)>,
)
    requires
        uniform_length(progs, len),
        forall|i: int| 0 <= i < draws.len() ==> valid_draw(#[trigger] draws[i], progs.len(), len),
    ensures
        batch(progs, len, budget, draws).0.len() == progs.len(),
        uniform_length(batch(progs, len, budget, draws).0, len),
    decreases draws.len(),
{
    if draws.len() > 0 {
        let rest = draws.drop_last();
        assert forall|i: int| 0 <= i < rest.len() implies valid_draw(
            #[trigger] rest[i],
            progs.len(),
            len,
        ) by {
            assert(rest[i] == draws[i]);
        }
        lemma_batch_keeps_shape(progs, len, budget, rest);
        let p = batch(progs, len, budget, rest).0;
        let d = draws.last();
        assert(valid_draw(draws[draws.len() - 1], progs.len(), len));
        lemma_reaction_keeps_shape(p, len, d.0, d.1, d.2, budget);
    }
}

/// Every byte of every program stays within 0 to 255.
pub proof fn lemma_bytes_in_range(progs: Seq<Seq<u8>>)
    ensures
        forall|i: int, j: int|
            0 <= i < progs.len() && 0 <= j < progs[i].len() ==> 0 <= #[trigger] progs[i][j] <= 255,
{
}

/// The bytes of `x` followed by those of `y`.
fn concat(x: &Vec<u8>, y: &Vec<u8>) -> (r: Vec<u8>)
    ensures
        r@ == x@ + y@,
{
    let mut r: Vec<u8> = Vec::new();
    let mut i: usize = 0;
    while i < x.len()
        invariant
            i <= x@.len(),
            r@ == x@.subrange(0, i as int),
        decreases x@.len() - i,
    {
        r.push(x[i]);
        i = i + 1;
        assert(r@ =~= x@.subrange(0, i as int));
    }
    let mut j: usize = 0;
    while j < y.len()
        invariant
            j <= y@.len(),
            r@ == x@ + y@.subrange(0, j as int),
        decreases y@.len() - j,
    {
        r.push(y[j]);
        j = j + 1;
        assert(r@ =~= x@ + y@.subrange(0, j as int));
    }
    assert(y@.subrange(0, j as int) =~= y@);
    r
}

impl View for TuringFoam {
    type V = Seq<Seq<u8>>;

    /// The programs, slot by slot.
    closed spec fn view(&self) -> Seq<Seq<u8>> {
        programs_view(self.programs@)
    }
}

impl TuringFoam {
    /// The length shared by all programs.
    pub closed spec fn length(&self) -> nat {
        self.program_len as nat
    }

    /// Programs all of one nonzero length, short enough that a reaction's
    /// tape and the histogram can be indexed and counted.
    pub open spec fn wf(&self) -> bool {
        &&& 0 < self.length() <= MAX_PROGRAM_LEN
        &&& uniform_length(self@, self.length())
    }

    /// `num_programs` random programs of `program_len` bytes, drawn from `rng`.
    fn random_programs(rng: &mut StdRng, num_programs: usize, program_len: usize) -> (r: Vec<
        Vec<u8>,
    >)
        ensures
            r@.len() == num_programs,
            uniform_length(programs_view(r@), program_len as nat),
    {
        let mut programs: Vec<Vec<u8>> = Vec::new();
        let mut i: usize = 0;
        while i < num_programs
            invariant
                i <= num_programs,
                programs@.len() == i,
                forall|k: int| 0 <= k < i ==> (#[trigger] programs@[k])@.len() == program_len,
            decreases num_programs - i,
        {
            let mut program: Vec<u8> = vec![0u8; program_len];
            fill_random(rng, &mut program);
            programs.push(program);
            i = i + 1;
        }
        assert forall|k: int| 0 <= k < programs@.len() implies (
        #[trigger] programs_view(programs@)[k]).len() == program_len by {
            assert(programs_view(programs@)[k] == programs@[k]@);
        }
        programs
    }

    /// A pool of `num_programs` random programs of the default length, with a
    /// generator seeded by the operating system.
    pub fn new(num_programs: usize) -> (r: Self)
        ensures
            r.wf(),
            r@.len() == num_programs,
            r.length() == PROGRAM_LEN,
    {
        let mut rng = entropy_rng();
        let programs = Self::random_programs(&mut rng, num_programs, PROGRAM_LEN);
        TuringFoam { programs, program_len: PROGRAM_LEN, rng }
    }

    /// A pool of `num_programs` random programs of `program_len` bytes whose
    /// contents and later draws are fixed by `seed`.
    pub fn with_seed(num_programs: usize, program_len: usize, seed: u64) -> (r: Self)
        requires
            0 < program_len <= MAX_PROGRAM_LEN,
        ensures
            r.wf(),
            r@.len() == num_programs,
            r.length() == program_len,
    {
        let mut rng = seeded_rng(seed);
        let programs = Self::random_programs(&mut rng, num_programs, program_len);
        TuringFoam { programs, program_len, rng }
    }

    /// A pool holding the given programs, with a generator fixed by `seed`;
    /// `None` unless there is at least one program and all have one length
    /// that a pool admits.
    pub fn from_programs(programs: Vec<Vec<u8>>, seed: u64) -> (r: Option<Self>)
        ensures
            r is Some <==> programs@.len() > 0 && 0 < programs@[0]@.len() <= MAX_PROGRAM_LEN
                && uniform_length(programs_view(programs@), programs@[0]@.len()),
            r matches Some(foam) ==> foam.wf() && foam@ == programs_view(programs@)
                && foam.length() == programs@[0]@.len(),
    {
        if programs.len() == 0 {
            return None;
        }
        let program_len = programs[0].len();
        if program_len == 0 || program_len > MAX_PROGRAM_LEN {
            return None;
        }
        let ghost pv = programs_view(programs@);
        let mut i: usize = 0;
        while i < programs.len()
            invariant
                i <= programs@.len(),
                pv == programs_view(programs@),
                program_len == programs@[0]@.len(),
                forall|k: int| 0 <= k < i ==> (#[trigger] pv[k]).len() == program_len,
            decreases programs@.len() - i,
        {
            if programs[i].len() != program_len {
                assert(pv[i as int] == programs@[i as int]@);
                return None;
            }
            i = i + 1;
        }
        Some(TuringFoam { programs, program_len, rng: seeded_rng(seed) })
    }

    /// Number of slots.
    pub fn num_programs(&self) -> (r: usize)
        ensures
            r == self@.len(),
    {
        self.programs.len()
    }

    /// Length of every program.
    pub fn program_len(&self) -> (r: usize)
        ensures
            r == self.length(),
    {
        self.program_len
    }

    /// A copy of the program in slot `index`.
    pub fn program(&self, index: usize) -> (r: Vec<u8>)
        requires
            index < self@.len(),
        ensures
            r@ == self@[index as int],
    {
        let src = &self.programs[index];
        let mut r: Vec<u8> = Vec::new();
        let mut i: usize = 0;
        while i < src.len()
            invariant
                i <= src@.len(),
                r@ == src@.subrange(0, i as int),
            decreases src@.len() - i,
        {
            r.push(src[i]);
            i = i + 1;
            assert(r@ =~= src@.subrange(0, i as int));
        }
        assert(src@.subrange(0, i as int) =~= src@);
        r
    }

    /// One reaction: runs the programs in slots `a` and `b` as one tape from
    /// `start` for at most `step_budget` steps, writes the tape's first half
    /// back to `a` and then its second half to `b`, and reports how the run
    /// ended. `a` and `b` may be the same slot.
    pub fn react_pair(&mut self, a: usize, b: usize, start: usize, step_budget: usize) -> (r:
        ProgramStatus)
        requires
            old(self).wf(),
            a < old(self)@.len(),
            b < old(self)@.len(),
            start < 2 * old(self).length(),
        ensures
            final(self).wf(),
            final(self).length() == old(self).length(),
            (final(self)@, r) == reaction(
                old(self)@,
                old(self).length(),
                a as int,
                b as int,
                start as int,
                step_budget as nat,
            ),
    {
        let ghost progs = self@;
        let ghost len = self.length();
        proof {
            lemma_reaction_keeps_shape(progs, len, a as int, b as int, start as int, step_budget as nat);
            assert(progs[a as int] == self.programs@[a as int]@);
            assert(progs[b as int] == self.programs@[b as int]@);
        }
        let mut tape = concat(&self.programs[a], &self.programs[b]);
        let status = execute(&mut tape, start, step_budget);
        proof {
            let init = initial_state(progs[a as int] + progs[b as int], start as int);
            assert(valid_state(init));
            lemma_run_keeps_length(init, step_budget as nat);
        }
        let second = tape.split_off(self.program_len);
        self.programs.set(a, tape);
        self.programs.set(b, second);
        proof {
            let next = reaction(progs, len, a as int, b as int, start as int, step_budget as nat).0;
            assert(self@ =~= next);
        }
        status
    }

    /// A batch of `num_reactions` reactions, each between two slots drawn
    /// uniformly with replacement, from a start position drawn uniformly within
    /// the first program, with `step_budget` steps; then the statistics pass.
    pub fn react_with_budget(&mut self, num_reactions: usize, step_budget: usize) -> (r:
        TuringFoamStats)
        requires
            old(self).wf(),
            old(self)@.len() > 0,
        ensures
            final(self).wf(),
            final(self)@.len() == old(self)@.len(),
            final(self).length() == old(self).length(),
            exists|draws: Seq<(int, int, int)>|
                {
                    &&& draws.len() == num_reactions
                    &&& forall|i: int|
                        0 <= i < draws.len() ==> valid_draw(
                            #[trigger] draws[i],
                            old(self)@.len(),
                            old(self).length(),
                        )
                    &&& batch(old(self)@, old(self).length(), step_budget as nat, draws) == (
                        final(self)@,
                        r.num_timed_out as nat,
                        r.num_unmatched_branch as nat,
                    )
                },
            r.num_timed_out + r.num_unmatched_branch == num_reactions,
            r.num_unique_tokens == distinct_tokens(final(self)@, final(self).length()),
    {
        let num_programs = self.programs.len();
        let program_len = self.program_len;
        let ghost draws: Seq<(int, int, int)> = Seq::empty();
        let mut num_timed_out: usize = 0;
        let mut num_unmatched_branch: usize = 0;
        let mut k: usize = 0;
        while k < num_reactions
            invariant
                self.wf(),
                self@.len() == num_programs == old(self)@.len(),
                self.length() == program_len == old(self).length(),
                0 < num_programs,
                k <= num_reactions,
                draws.len() == k,
                forall|i: int|
                    0 <= i < draws.len() ==> valid_draw(
                        #[trigger] draws[i],
                        num_programs as nat,
                        program_len as nat,
                    ),
                batch(old(self)@, program_len as nat, step_budget as nat, draws) == (
                    self@,
                    num_timed_out as nat,
                    num_unmatched_branch as nat,
                ),
                num_timed_out + num_unmatched_branch == k,
            decreases num_reactions - k,
        {
            let a = random_below(&mut self.rng, num_programs);
            let b = random_below(&mut self.rng, num_programs);
            let start = random_below(&mut self.rng, program_len);
            let status = self.react_pair(a, b, start, step_budget);
            let ghost prev = draws;
            proof {
                draws = draws.push((a as int, b as int, start as int));
                assert(draws.drop_last() =~= prev);
            }
            match status {
                ProgramStatus::TimedOut => {
                    num_timed_out = num_timed_out + 1;
                },
                ProgramStatus::UnmatchedBranch => {
                    num_unmatched_branch = num_unmatched_branch + 1;
                },
            }
            k = k + 1;
        }
        let num_unique_tokens = self.num_unique_tokens();
        TuringFoamStats { num_unique_tokens, num_timed_out, num_unmatched_branch }
    }

    /// A batch of `num_reactions` reactions with the default step budget;
    /// see `react_with_budget`.
    pub fn react(&mut self, num_reactions: usize) -> (r: TuringFoamStats)
        requires
            old(self).wf(),
            old(self)@.len() > 0,
        ensures
            final(self).wf(),
            final(self)@.len() == old(self)@.len(),
            final(self).length() == old(self).length(),
            exists|draws: Seq<(int, int, int)>|
                {
                    &&& draws.len() == num_reactions
                    &&& forall|i: int|
                        0 <= i < draws.len() ==> valid_draw(
                            #[trigger] draws[i],
                            old(self)@.len(),
                            old(self).length(),
                        )
                    &&& batch(old(self)@, old(self).length(), STEP_BUDGET as nat, draws) == (
                        final(self)@,
                        r.num_timed_out as nat,
                        r.num_unmatched_branch as nat,
                    )
                },
            r.num_timed_out + r.num_unmatched_branch == num_reactions,
            r.num_unique_tokens == distinct_tokens(final(self)@, final(self).length()),
    {
        self.react_with_budget(num_reactions, STEP_BUDGET)
    }

    /// The histogram of (position, byte) pairs over the pool.
    pub fn token_histogram(&self) -> (r: Vec<Vec<usize>>)
        requires
            self.wf(),
        ensures
            is_histogram_of(rows_view(r@), self@, self.length()),
    {
        token_histogram(&self.programs, self.program_len)
    }

    /// The number of distinct (position, byte) pairs in the pool.
    pub fn num_unique_tokens(&self) -> (r: usize)
        requires
            self.wf(),
        ensures
            r == distinct_tokens(self@, self.length()),
    {
        count_unique_tokens(&self.programs, self.program_len)
    }
}

} // verus!
