//! Counting cells that satisfy a predicate, and the counting lemmas the
//! engine's invariants rest on.

use vstd::prelude::*;
use crate::cells::{Cell, CellInteraction};

verus! {

/// The number of cells in `s` that satisfy `f`.
pub open spec fn count_if(s: Seq<Cell>, f: spec_fn(Cell) -> bool) -> int
    decreases s.len(),
{
    if s.len() == 0 {
        0
    } else {
        count_if(s.drop_last(), f) + if f(s.last()) {
            1int
        } else {
            0int
        }
    }
}

/// Whether a cell conceals a mine.
pub open spec fn is_mine(c: Cell) -> bool {
    c.kind is Mine
}

/// Whether a cell does not conceal a mine.
pub open spec fn is_safe(c: Cell) -> bool {
    !(c.kind is Mine)
}

/// Whether a cell is still untouched.
pub open spec fn is_untouched(c: Cell) -> bool {
    c.interaction is Untouched
}

/// Whether a cell has been cleared.
pub open spec fn is_cleared(c: Cell) -> bool {
    c.interaction is Cleared
}

/// Whether a cell is flagged.
pub open spec fn is_flagged(c: Cell) -> bool {
    c.interaction is Flagged
}

/// The number of mine cells in `s`.
pub open spec fn count_mines(s: Seq<Cell>) -> int {
    count_if(s, |c: Cell| is_mine(c))
}

/// The number of untouched cells in `s`.
pub open spec fn count_untouched(s: Seq<Cell>) -> int {
    count_if(s, |c: Cell| is_untouched(c))
}

/// The number of cleared cells in `s`.
pub open spec fn count_cleared(s: Seq<Cell>) -> int {
    count_if(s, |c: Cell| is_cleared(c))
}

/// The number of flagged cells in `s`.
pub open spec fn count_flagged(s: Seq<Cell>) -> int {
    count_if(s, |c: Cell| is_flagged(c))
}

/// A count lies between 0 and the sequence's length.
pub proof fn lemma_count_if_bounds(s: Seq<Cell>, f: spec_fn(Cell) -> bool)
    ensures
        0 <= count_if(s, f) <= s.len(),
    decreases s.len(),
{
    if s.len() > 0 {
        lemma_count_if_bounds(s.drop_last(), f);
    }
}

/// Replacing one cell adjusts the count by the difference of the old and
/// new cells' contributions.
pub proof fn lemma_count_if_update(s: Seq<Cell>, f: spec_fn(Cell) -> bool, i: int, v: Cell)
    requires
        0 <= i < s.len(),
    ensures
        count_if(s.update(i, v), f) == count_if(s, f) - (if f(s[i]) {
            1int
        } else {
            0int
        }) + if f(v) {
            1int
        } else {
            0int
        },
    decreases s.len(),
{
    if i == s.len() - 1 {
        assert(s.update(i, v).drop_last() =~= s.drop_last());
        assert(s.update(i, v).last() == v);
    } else {
        lemma_count_if_update(s.drop_last(), f, i, v);
        assert(s.update(i, v).drop_last() =~= s.drop_last().update(i, v));
        assert(s.update(i, v).last() == s.last());
    }
}

/// A sequence with no cell satisfying `f` has count zero.
pub proof fn lemma_count_if_zero(s: Seq<Cell>, f: spec_fn(Cell) -> bool)
    requires
        forall|i: int| 0 <= i < s.len() ==> !f(#[trigger] s[i]),
    ensures
        count_if(s, f) == 0,
    decreases s.len(),
{
    if s.len() > 0 {
        assert(forall|i: int| 0 <= i < s.drop_last().len() ==> !f(#[trigger] s.drop_last()[i]));
        lemma_count_if_zero(s.drop_last(), f);
    }
}

/// A sequence with a cell satisfying `f` has a positive count.
pub proof fn lemma_count_if_pos(s: Seq<Cell>, f: spec_fn(Cell) -> bool, i: int)
    requires
        0 <= i < s.len(),
        f(s[i]),
    ensures
        count_if(s, f) >= 1,
    decreases s.len(),
{
    if i == s.len() - 1 {
        lemma_count_if_bounds(s.drop_last(), f);
    } else {
        assert(s.drop_last()[i] == s[i]);
        lemma_count_if_pos(s.drop_last(), f, i);
    }
}

/// Two boards whose cells satisfy `f` at exactly the same positions have
/// the same count.
pub proof fn lemma_count_if_pointwise(s1: Seq<Cell>, s2: Seq<Cell>, f: spec_fn(Cell) -> bool)
    requires
        s1.len() == s2.len(),
        forall|i: int| 0 <= i < s1.len() ==> (f(#[trigger] s1[i]) <==> f(#[trigger] s2[i])),
    ensures
        count_if(s1, f) == count_if(s2, f),
    decreases s1.len(),
{
    if s1.len() > 0 {
        assert(forall|i: int|
            0 <= i < s1.drop_last().len() ==> (f(#[trigger] s1.drop_last()[i]) <==> f(
                #[trigger] s2.drop_last()[i],
            )));
        lemma_count_if_pointwise(s1.drop_last(), s2.drop_last(), f);
    }
}

/// If every cell satisfying `f` also satisfies `g`, the count of `f` is at
/// most the count of `g`.
pub proof fn lemma_count_if_le(s: Seq<Cell>, f: spec_fn(Cell) -> bool, g: spec_fn(Cell) -> bool)
    requires
        forall|i: int| 0 <= i < s.len() && f(#[trigger] s[i]) ==> g(s[i]),
    ensures
        count_if(s, f) <= count_if(s, g),
    decreases s.len(),
{
    if s.len() > 0 {
        assert(forall|i: int|
            0 <= i < s.drop_last().len() && f(#[trigger] s.drop_last()[i]) ==> g(
                s.drop_last()[i],
            ));
        lemma_count_if_le(s.drop_last(), f, g);
    }
}

/// If every cell satisfying `f` satisfies `g` and the two counts are
/// equal, then every cell satisfying `g` also satisfies `f`.
pub proof fn lemma_count_if_subset_full(
    s: Seq<Cell>,
    f: spec_fn(Cell) -> bool,
    g: spec_fn(Cell) -> bool,
)
    requires
        forall|i: int| 0 <= i < s.len() && f(#[trigger] s[i]) ==> g(s[i]),
        count_if(s, f) == count_if(s, g),
    ensures
        forall|i: int| 0 <= i < s.len() && g(#[trigger] s[i]) ==> f(s[i]),
    decreases s.len(),
{
    if s.len() > 0 {
        assert(forall|i: int|
            0 <= i < s.drop_last().len() && f(#[trigger] s.drop_last()[i]) ==> g(
                s.drop_last()[i],
            ));
        lemma_count_if_le(s.drop_last(), f, g);
        if f(s.last()) || !g(s.last()) {
            lemma_count_if_subset_full(s.drop_last(), f, g);
            assert forall|i: int| 0 <= i < s.len() && g(#[trigger] s[i]) implies f(s[i]) by {
                if i < s.len() - 1 {
                    assert(s[i] == s.drop_last()[i]);
                }
            }
        } else {
            assert(count_if(s, f) == count_if(s.drop_last(), f));
            assert(count_if(s, g) == count_if(s.drop_last(), g) + 1);
            assert(false);
        }
    }
}

/// Counts of complementary predicates sum to the sequence's length.
pub proof fn lemma_count_if_complement(
    s: Seq<Cell>,
    f: spec_fn(Cell) -> bool,
    g: spec_fn(Cell) -> bool,
)
    requires
        forall|c: Cell| #[trigger] g(c) <==> !f(c),
    ensures
        count_if(s, f) + count_if(s, g) == s.len(),
    decreases s.len(),
{
    if s.len() > 0 {
        lemma_count_if_complement(s.drop_last(), f, g);
    }
}

/// Every cell is in exactly one interaction state, so the three counts
/// partition the board.
pub proof fn lemma_interaction_partition(s: Seq<Cell>)
    ensures
        count_untouched(s) + count_cleared(s) + count_flagged(s) == s.len(),
    decreases s.len(),
{
    if s.len() > 0 {
        lemma_interaction_partition(s.drop_last());
    }
}

} // verus!
