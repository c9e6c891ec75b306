//! The statistics pass: a histogram of (position, byte) pairs over the pool.
use vstd::prelude::*;

verus! {

/// Number of distinct byte values.
pub const NUM_BYTE_VALUES: usize = 256;

/// The longest program for which every (position, byte) pair can be counted
/// in a `usize`.
pub const MAX_PROGRAM_LEN: usize = usize::MAX / 256;

/// What a batch of reactions reports.
#[derive(Debug, Clone, Copy, PartialEq, Eq)]
pub struct TuringFoamStats {
    /// Distinct (position, byte) pairs in the pool after the batch.
    pub num_unique_tokens: usize,
    /// Reactions that spent their whole step budget.
    pub num_timed_out: usize,
    /// Reactions that ended on a bracket without a partner.
    pub num_unmatched_branch: usize,
}

/// The byte sequences held by a vector of programs.
pub open spec fn programs_view(v: Seq<Vec<u8>>) -> Seq<Seq<u8>> {
    v.map_values(|p: Vec<u8>| p@)
}

/// All programs have length `len`.
pub open spec fn uniform_length(progs: Seq<Seq<u8>>, len: nat) -> bool {
    forall|i: int| 0 <= i < progs.len() ==> (#[trigger] progs[i]).len() == len
}

/// How many programs hold byte `b` at position `pos`.
pub open spec fn token_count(progs: Seq<Seq<u8>>, pos: int, b: u8) -> nat
    decreases progs.len(),
{
    if progs.len() == 0 {
        0
    } else {
        token_count(progs.drop_last(), pos, b) + if progs.last()[pos] == b {
            1nat
        } else {
            0nat
        }
    }
}

/// How many of the bytes below `k` occur at position `pos`.
pub open spec fn column_distinct(progs: Seq<Seq<u8>>, pos: int, k: nat) -> nat
    decreases k,
{
    if k == 0 {
        0
    } else {
        column_distinct(progs, pos, (k - 1) as nat) + if token_count(progs, pos, (k - 1) as u8) > 0 {
            1nat
        } else {
            0nat
        }
    }
}

/// The sum of the counts of the bytes below `k` at position `pos`.
pub open spec fn column_total(progs: Seq<Seq<u8>>, pos: int, k: nat) -> nat
    decreases k,
{
    if k == 0 {
        0
    } else {
        column_total(progs, pos, (k - 1) as nat) + token_count(progs, pos, (k - 1) as u8)
    }
}

/// Distinct (position, byte) pairs over the positions below `len`.
pub open spec fn distinct_tokens(progs: Seq<Seq<u8>>, len: nat) -> nat
    decreases len,
{
    if len == 0 {
        0
    } else {
        distinct_tokens(progs, (len - 1) as nat) + column_distinct(progs, len - 1, 256)
    }
}

/// The sum of all histogram counts over the positions below `len`.
pub open spec fn histogram_total(progs: Seq<Seq<u8>>, len: nat) -> nat
    decreases len,
{
    if len == 0 {
        0
    } else {
        histogram_total(progs, (len - 1) as nat) + column_total(progs, len - 1, 256)
    }
}

/// A histogram row by row: entry `[pos][b]` counts byte `b` at position `pos`.
pub open spec fn is_histogram_of(h: Seq<Seq<usize>>, progs: Seq<Seq<u8>>, len: nat) -> bool {
    &&& h.len() == len
    &&& forall|pos: int| 0 <= pos < len ==> (#[trigger] h[pos]).len() == NUM_BYTE_VALUES
    &&& forall|pos: int, b: int|
        0 <= pos < len && 0 <= b < NUM_BYTE_VALUES ==> #[trigger] h[pos][b] == token_count(
            progs,
            pos,
            b as u8,
        )
}

/// A count never exceeds the number of programs.
proof fn lemma_token_count_bound(progs: Seq<Seq<u8>>, pos: int, b: u8)
    ensures
        token_count(progs, pos, b) <= progs.len(),
    decreases progs.len(),
{
    if progs.len() > 0 {
        lemma_token_count_bound(progs.drop_last(), pos, b);
    }
}

/// Counts the bytes at position `pos` over all programs.
fn column_counts(programs: &Vec<Vec<u8>>, pos: usize) -> (r: Vec<usize>)
    requires
        forall|i: int| 0 <= i < programs@.len() ==> pos < (#[trigger] programs@[i])@.len(),
    ensures
        r@.len() == NUM_BYTE_VALUES,
        forall|b: int|
            0 <= b < NUM_BYTE_VALUES ==> #[trigger] r@[b] == token_count(
                programs_view(programs@),
                pos as int,
                b as u8,
            ),
{
    let ghost pv = programs_view(programs@);
    let mut counts: Vec<usize> = vec![0usize; NUM_BYTE_VALUES];
    let mut p: usize = 0;
    while p < programs.len()
        invariant
            p <= programs@.len(),
            pv == programs_view(programs@),
            forall|i: int| 0 <= i < programs@.len() ==> pos < (#[trigger] programs@[i])@.len(),
            counts@.len() == NUM_BYTE_VALUES,
            forall|b: int|
                0 <= b < NUM_BYTE_VALUES ==> #[trigger] counts@[b] == token_count(
                    pv.subrange(0, p as int),
                    pos as int,
                    b as u8,
                ),
        decreases programs@.len() - p,
    {
        let ghost prev = pv.subrange(0, p as int);
        let ghost next = pv.subrange(0, p + 1);
        assert(next.drop_last() =~= prev);
        assert(next.last() == programs@[p as int]@);
        let v = programs[p][pos];
        proof {
            lemma_token_count_bound(prev, pos as int, v);
        }
        let c = counts[v as usize];
        counts.set(v as usize, c + 1);
        p = p + 1;
        assert forall|b: int| 0 <= b < NUM_BYTE_VALUES implies #[trigger] counts@[b]
            == token_count(next, pos as int, b as u8) by {
            assert(token_count(next, pos as int, b as u8) == token_count(prev, pos as int, b as u8)
                + if next.last()[pos as int] == b as u8 {
                1nat
            } else {
                0nat
            });
        }
    }
    assert(pv.subrange(0, p as int) =~= pv);
    counts
}

/// The row-by-row contents of a histogram.
pub open spec fn rows_view(h: Seq<Vec<usize>>) -> Seq<Seq<usize>> {
    h.map_values(|row: Vec<usize>| row@)
}

/// Builds the histogram of (position, byte) pairs over the positions below
/// `program_len`: entry `[pos][b]` counts the programs that hold `b` at `pos`.
pub fn token_histogram(programs: &Vec<Vec<u8>>, program_len: usize) -> (r: Vec<Vec<usize>>)
    requires
        uniform_length(programs_view(programs@), program_len as nat),
    ensures
        is_histogram_of(rows_view(r@), programs_view(programs@), program_len as nat),
{
    let ghost pv = programs_view(programs@);
    let mut hist: Vec<Vec<usize>> = Vec::new();
    let mut pos: usize = 0;
    while pos < program_len
        invariant
            pos <= program_len,
            pv == programs_view(programs@),
            uniform_length(pv, program_len as nat),
            hist@.len() == pos,
            forall|q: int| 0 <= q < pos ==> (#[trigger] hist@[q])@.len() == NUM_BYTE_VALUES,
            forall|q: int, b: int|
                0 <= q < pos && 0 <= b < NUM_BYTE_VALUES ==> #[trigger] hist@[q]@[b]
                    == token_count(pv, q, b as u8),
        decreases program_len - pos,
    {
        assert forall|i: int| 0 <= i < programs@.len() implies pos < (
        #[trigger] programs@[i])@.len() by {
            assert(pv[i] == programs@[i]@);
        }
        let counts = column_counts(programs, pos);
        hist.push(counts);
        pos = pos + 1;
    }
    hist
}

/// Column `pos` holds at most `k` distinct bytes below `k`, and at most as many
/// as its counts add up to.
proof fn lemma_column_distinct_bounds(progs: Seq<Seq<u8>>, pos: int, k: nat)
    ensures
        column_distinct(progs, pos, k) <= k,
        column_distinct(progs, pos, k) <= column_total(progs, pos, k),
    decreases k,
{
    if k > 0 {
        lemma_column_distinct_bounds(progs, pos, (k - 1) as nat);
    }
}

/// Counts the distinct (position, byte) pairs over the positions below
/// `program_len`.
pub fn count_unique_tokens(programs: &Vec<Vec<u8>>, program_len: usize) -> (r: usize)
    requires
        uniform_length(programs_view(programs@), program_len as nat),
        program_len <= MAX_PROGRAM_LEN,
    ensures
        r == distinct_tokens(programs_view(programs@), program_len as nat),
{
    let ghost pv = programs_view(programs@);
    let mut total: usize = 0;
    let mut pos: usize = 0;
    while pos < program_len
        invariant
            pos <= program_len <= MAX_PROGRAM_LEN,
            pv == programs_view(programs@),
            uniform_length(pv, program_len as nat),
            total == distinct_tokens(pv, pos as nat),
            total <= NUM_BYTE_VALUES * pos,
        decreases program_len - pos,
    {
        assert forall|i: int| 0 <= i < programs@.len() implies pos < (
        #[trigger] programs@[i])@.len() by {
            assert(pv[i] == programs@[i]@);
        }
        let counts = column_counts(programs, pos);
        let mut column: usize = 0;
        let mut b: usize = 0;
        while b < NUM_BYTE_VALUES
            invariant
                b <= NUM_BYTE_VALUES,
                counts@.len() == NUM_BYTE_VALUES,
                forall|c: int|
                    0 <= c < NUM_BYTE_VALUES ==> #[trigger] counts@[c] == token_count(
                        pv,
                        pos as int,
                        c as u8,
                    ),
                column == column_distinct(pv, pos as int, b as nat),
                column <= b,
            decreases NUM_BYTE_VALUES - b,
        {
            if counts[b] > 0 {
                column = column + 1;
            }
            b = b + 1;
        }
        proof {
            lemma_column_distinct_bounds(pv, pos as int, 256);
            assert(total + column <= NUM_BYTE_VALUES * (pos + 1)) by (nonlinear_arith)
                requires
                    total <= NUM_BYTE_VALUES * pos,
                    column <= NUM_BYTE_VALUES,
            ;
            assert(NUM_BYTE_VALUES * (pos + 1) <= usize::MAX) by (nonlinear_arith)
                requires
                    pos < program_len <= MAX_PROGRAM_LEN,
            ;
        }
        total = total + column;
        pos = pos + 1;
    }
    total
}

/// Splitting off the last program: the counts of the bytes below `k` at `pos`
/// drop by one exactly when that program's byte there is below `k`.
proof fn lemma_column_total_split(progs: Seq<Seq<u8>>, pos: int, k: nat)
    requires
        progs.len() > 0,
        k <= 256,
    ensures
        column_total(progs, pos, k) == column_total(progs.drop_last(), pos, k) + if (
        progs.last()[pos] as nat) < k {
            1nat
        } else {
            0nat
        },
    decreases k,
{
    if k > 0 {
        lemma_column_total_split(progs, pos, (k - 1) as nat);
        assert(((k - 1) as u8) as nat == k - 1);
    }
}

/// Every program adds exactly one to the counts at each position.
proof fn lemma_column_total(progs: Seq<Seq<u8>>, pos: int)
    ensures
        column_total(progs, pos, 256) == progs.len(),
    decreases progs.len(),
{
    if progs.len() == 0 {
        lemma_column_total_empty(progs, pos, 256);
    } else {
        lemma_column_total_split(progs, pos, 256);
        lemma_column_total(progs.drop_last(), pos);
    }
}

/// With no programs every count is zero.
proof fn lemma_column_total_empty(progs: Seq<Seq<u8>>, pos: int, k: nat)
    requires
        progs.len() == 0,
    ensures
        column_total(progs, pos, k) == 0,
    decreases k,
{
    if k > 0 {
        lemma_column_total_empty(progs, pos, (k - 1) as nat);
    }
}

/// After a statistics pass over a pool of programs of length `len`, the
/// histogram's counts add up to the pool's size times `len`, and the number of
/// distinct (position, byte) pairs is at most that product and at most 256
/// times `len`.
pub proof fn lemma_histogram_totals(progs: Seq<Seq<u8>>, len: nat)
    requires
        uniform_length(progs, len),
    ensures
        histogram_total(progs, len) == progs.len() * len,
        distinct_tokens(progs, len) <= progs.len() * len,
        distinct_tokens(progs, len) <= 256 * len,
{
    lemma_histogram_totals_below(progs, len);
}

/// The totals over the positions below `len`, for programs of any lengths.
proof fn lemma_histogram_totals_below(progs: Seq<Seq<u8>>, len: nat)
    ensures
        histogram_total(progs, len) == progs.len() * len,
        distinct_tokens(progs, len) <= progs.len() * len,
        distinct_tokens(progs, len) <= 256 * len,
    decreases len,
{
    if len > 0 {
        let l = (len - 1) as nat;
        lemma_histogram_totals_below(progs, l);
        lemma_column_total(progs, l as int);
        lemma_column_distinct_bounds(progs, l as int, 256);
        assert(progs.len() * l + progs.len() == progs.len() * len) by (nonlinear_arith)
            requires
                l + 1 == len,
        ;
    }
}

} // verus!
