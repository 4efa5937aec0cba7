//! Engine-wide laws, stated and proved once over any well-formed state.

use vstd::prelude::*;
use crate::cells::Cell;
use crate::counting::{
    count_cleared, count_flagged, count_mines, count_untouched, is_cleared, is_flagged, is_mine,
    is_safe, is_untouched, lemma_count_if_complement, lemma_count_if_le,
    lemma_interaction_partition,
};
use crate::engine::{flood_result_cell, loss_result_cell, GameState};
use crate::flood::{flooded, is_flood_path};
use crate::grid::{in_grid, label_ok};

verus! {

/// Every cell is in exactly one interaction state at any time.
pub proof fn lemma_interaction_exclusive(c: Cell)
    ensures
        is_untouched(c) || is_cleared(c) || is_flagged(c),
        is_untouched(c) ==> !is_cleared(c) && !is_flagged(c),
        is_cleared(c) ==> !is_untouched(c) && !is_flagged(c),
        is_flagged(c) ==> !is_untouched(c) && !is_cleared(c),
{
}

/// The untouched, cleared and flagged cells of a well-formed board
/// partition it: the three counts always sum to `rows * columns`.
pub proof fn lemma_interaction_counts_partition(g: GameState)
    requires
        g.wf(),
    ensures
        count_untouched(g.cells@) + count_cleared(g.cells@) + count_flagged(g.cells@) == g.rows
            * g.columns,
{
    lemma_interaction_partition(g.cells@);
}

/// A well-formed board conceals exactly `mine_count` mines, whatever has
/// been revealed or flagged so far.
pub proof fn lemma_mine_count_exact(g: GameState)
    requires
        g.wf(),
    ensures
        count_mines(g.cells@) == g.mine_count,
{
}

/// On a well-formed board, every clear cell's label equals the exact
/// number of its Moore neighbors that conceal mines, edge and corner
/// cells included.
pub proof fn lemma_labels_exact(g: GameState)
    requires
        g.wf(),
    ensures
        forall|r: int, c: int|
            in_grid(g.rows as int, g.columns as int, r, c) ==> #[trigger] label_ok(
                g.cells@,
                g.rows as int,
                g.columns as int,
                r,
                c,
            ),
{
}

/// The flood fill never reaches a flagged cell: through a safe dig a
/// flagged cell keeps its state exactly.
pub proof fn lemma_flood_skips_flagged(s0: Seq<Cell>, columns: int, i0: int, i: int, won: bool)
    requires
        0 <= i < s0.len(),
        0 <= i0 < s0.len(),
        s0[i0].interaction is Untouched,
        s0[i].interaction is Flagged,
    ensures
        flood_result_cell(s0, columns, i0, won, i) == s0[i],
{
    if flooded(s0, columns, i0, i) {
        let path = choose|path: Seq<int>|
            #[trigger] is_flood_path(s0, columns, path) && path[0] == i0 && path.last() == i;
        if path.len() == 1 {
            assert(s0[i].interaction is Untouched);
        } else {
            assert(s0[path.last()].interaction is Untouched);
        }
        assert(false);
    }
}

/// A losing dig keeps every flagged mine flagged: only the revealed cell
/// and the unflagged mines are uncovered.
pub proof fn lemma_loss_spares_flagged_mines(s0: Seq<Cell>, i0: int, i: int)
    requires
        0 <= i < s0.len(),
        s0[i].interaction is Flagged,
        i != i0,
    ensures
        loss_result_cell(s0, i0, i) == s0[i],
{
}

/// A game that has not been lost stands won exactly when every safe cell
/// has been cleared.
pub proof fn lemma_win_characterization(g: GameState)
    requires
        g.wf(),
        !(g.status is Lost),
    ensures
        g.status is Won <==> (forall|i: int|
            0 <= i < g.cells@.len() && is_safe(#[trigger] g.cells@[i]) ==> is_cleared(
                g.cells@[i],
            )),
{
    if !(g.status is Won) {
        lemma_count_if_complement(g.cells@, |c: Cell| is_mine(c), |c: Cell| is_safe(c));
        if forall|i: int|
            0 <= i < g.cells@.len() && is_safe(#[trigger] g.cells@[i]) ==> is_cleared(
                g.cells@[i],
            ) {
            lemma_count_if_le(g.cells@, |c: Cell| is_safe(c), |c: Cell| is_cleared(c));
            lemma_count_if_le(g.cells@, |c: Cell| is_cleared(c), |c: Cell| is_safe(c));
            assert(false);
        }
    }
}

} // verus!
