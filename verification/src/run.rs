//! The free-space search, stated once for frames and pages alike: the lowest
//! run of a given length inside a set of integers.

use vstd::prelude::*;

verus! {

/// Every index in `[start, start + n)` belongs to `avail`.
pub open spec fn is_run(avail: Set<int>, start: int, n: int) -> bool {
    forall|i: int| start <= i < start + n ==> avail.contains(i)
}

/// `start` begins a run of `n` available indices that lies inside `[lo, hi)`.
pub open spec fn fits(avail: Set<int>, lo: int, hi: int, n: int, start: int) -> bool {
    lo <= start && start + n <= hi && is_run(avail, start, n)
}

/// `start` begins the lowest run of `n` available indices inside `[lo, hi)`.
pub open spec fn is_first_run(avail: Set<int>, lo: int, hi: int, n: int, start: int) -> bool {
    &&& fits(avail, lo, hi, n, start)
    &&& forall|s: int| lo <= s < start ==> !#[trigger] is_run(avail, s, n)
}

/// The start of the lowest run of `n` available indices inside `[lo, hi)`,
/// or `None` where no run of that length fits.
pub open spec fn first_run(avail: Set<int>, lo: int, hi: int, n: int) -> Option<int> {
    if exists|s: int| #[trigger] fits(avail, lo, hi, n, s) {
        Some(choose|s: int| #[trigger] is_first_run(avail, lo, hi, n, s))
    } else {
        None
    }
}

/// Below any run that fits there is a lowest one.
proof fn lemma_lowest_exists(avail: Set<int>, lo: int, hi: int, n: int, start: int)
    requires
        fits(avail, lo, hi, n, start),
    ensures
        exists|s: int| #[trigger] is_first_run(avail, lo, hi, n, s),
    decreases start - lo,
{
    if exists|s: int| lo <= s < start && is_run(avail, s, n) {
        let lower = choose|s: int| lo <= s < start && is_run(avail, s, n);
        lemma_lowest_exists(avail, lo, hi, n, lower);
    } else {
        assert(is_first_run(avail, lo, hi, n, start));
    }
}

/// There is at most one lowest run.
pub proof fn lemma_first_run_unique(avail: Set<int>, lo: int, hi: int, n: int, a: int, b: int)
    requires
        is_first_run(avail, lo, hi, n, a),
        is_first_run(avail, lo, hi, n, b),
    ensures
        a == b,
{
}

/// A start that begins the lowest run is what the search yields.
pub proof fn lemma_first_run_is(avail: Set<int>, lo: int, hi: int, n: int, start: int)
    requires
        is_first_run(avail, lo, hi, n, start),
    ensures
        first_run(avail, lo, hi, n) == Some(start),
{
    assert(fits(avail, lo, hi, n, start));
    let chosen = choose|s: int| #[trigger] is_first_run(avail, lo, hi, n, s);
    lemma_first_run_unique(avail, lo, hi, n, chosen, start);
}

/// Where no start below `bound` begins a run, and a run that starts at
/// `bound` or later does not fit, the search yields nothing.
pub proof fn lemma_first_run_none(avail: Set<int>, lo: int, hi: int, n: int, bound: int)
    requires
        forall|s: int| lo <= s < bound ==> !#[trigger] is_run(avail, s, n),
        bound + n > hi,
    ensures
        first_run(avail, lo, hi, n) is None,
{
    assert forall|s: int| !#[trigger] fits(avail, lo, hi, n, s) by {
        if fits(avail, lo, hi, n, s) {
            assert(s < bound);
            assert(!is_run(avail, s, n));
        }
    }
}

/// What the search yields begins the lowest run, and it yields nothing only
/// where no run fits.
pub proof fn lemma_first_run_sound(avail: Set<int>, lo: int, hi: int, n: int)
    ensures
        match first_run(avail, lo, hi, n) {
            Some(start) => is_first_run(avail, lo, hi, n, start),
            None => forall|s: int| !#[trigger] fits(avail, lo, hi, n, s),
        },
{
    if exists|s: int| #[trigger] fits(avail, lo, hi, n, s) {
        let start = choose|s: int| #[trigger] fits(avail, lo, hi, n, s);
        lemma_lowest_exists(avail, lo, hi, n, start);
    }
}

} // verus!
