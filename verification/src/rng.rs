//! Random mine placement: one trusted draw from the system's random number
//! generator, and a verified selection of distinct cell indices built on it.

use vstd::prelude::*;

verus! {

/// Relies on rand::random_range over `0..bound`: the draw is uniform over
/// the range and always lies strictly below `bound`; the call panics only
/// on an empty range, which the precondition rules out.
#[verifier::external_body]
fn random_below(bound: usize) -> (r: usize)
    requires
        0 < bound,
    ensures
        r < bound,
{
    rand::random_range(0..bound)
}

/// Chooses `mine_count` distinct cell indices below `total`, uniformly at
/// random: every index not yet chosen stays a candidate for later draws.
pub fn pick_mines(total: usize, mine_count: usize) -> (mines: Vec<usize>)
    requires
        mine_count <= total,
    ensures
        mines@.len() == mine_count,
        mines@.no_duplicates(),
        forall|t: int| 0 <= t < mines@.len() ==> mines@[t] < total,
{
    let mut candidates: Vec<usize> = Vec::new();
    let mut i: usize = 0;
    while i < total
        invariant
            i <= total,
            candidates@.len() == i,
            forall|t: int| 0 <= t < i ==> candidates@[t] == t,
        decreases total - i,
    {
        candidates.push(i);
        i = i + 1;
    }
    let mut mines: Vec<usize> = Vec::new();
    let mut k: usize = 0;
    while k < mine_count
        invariant
            k <= mine_count,
            mine_count <= total,
            mines@.len() == k,
            candidates@.len() == total - k,
            candidates@.no_duplicates(),
            mines@.no_duplicates(),
            forall|t: int| 0 <= t < candidates@.len() ==> candidates@[t] < total,
            forall|t: int| 0 <= t < mines@.len() ==> mines@[t] < total,
            forall|a: int, b: int|
                0 <= a < mines@.len() && 0 <= b < candidates@.len() ==> #[trigger] mines@[a] != #[trigger] candidates@[b],
        decreases mine_count - k,
    {
        let ghost old_candidates = candidates@;
        let ghost old_mines = mines@;
        let j = random_below(candidates.len());
        let m = candidates.swap_remove(j);
        proof {
            assert(forall|t: int|
                0 <= t < candidates@.len() ==> candidates@[t] == (if t == j {
                    old_candidates.last()
                } else {
                    old_candidates[t]
                }));
        }
        mines.push(m);
        k = k + 1;
    }
    mines
}

} // verus!
