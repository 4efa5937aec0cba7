//! Reachability through the flood fill: which cells a reveal starting at a
//! given source uncovers. A cell is reached when a chain of zero-labelled
//! cells connects it to the source, each link a Moore-neighbor step onto a
//! cell that was still untouched.

use vstd::prelude::*;
use crate::cells::{Cell, CellKind};
use crate::grid::idx_adjacent;

verus! {

/// Whether `path` is a valid flood chain over the board `s` as it stood
/// before the reveal: every index is on the board, every cell after the
/// first was untouched, every cell before the last carries a zero label,
/// and consecutive cells are Moore neighbors.
pub open spec fn is_flood_path(s: Seq<Cell>, columns: int, path: Seq<int>) -> bool {
    &&& path.len() >= 1
    &&& forall|t: int| 0 <= t < path.len() ==> 0 <= #[trigger] path[t] < s.len()
    &&& forall|t: int| 1 <= t < path.len() ==> s[#[trigger] path[t]].interaction is Untouched
    &&& forall|t: int|
        0 <= t < path.len() - 1 ==> s[#[trigger] path[t]].kind == CellKind::Clear(0u8)
    &&& forall|t: int|
        0 <= t < path.len() - 1 ==> idx_adjacent(columns, #[trigger] path[t], path[t + 1])
}

/// Whether the flood fill starting at `src` reaches index `j`.
pub open spec fn flooded(s: Seq<Cell>, columns: int, src: int, j: int) -> bool {
    exists|path: Seq<int>|
        #[trigger] is_flood_path(s, columns, path) && path[0] == src && path.last() == j
}

/// The source is always flooded.
pub proof fn lemma_flooded_src(s: Seq<Cell>, columns: int, src: int)
    requires
        0 <= src < s.len(),
    ensures
        flooded(s, columns, src, src),
{
    let path = seq![src];
    assert(is_flood_path(s, columns, path));
    assert(path[0] == src && path.last() == src);
}

/// Stepping from a flooded zero-labelled cell to an untouched neighbor
/// floods that neighbor.
pub proof fn lemma_flooded_step(s: Seq<Cell>, columns: int, src: int, k: int, j: int)
    requires
        flooded(s, columns, src, k),
        0 <= k < s.len(),
        0 <= j < s.len(),
        s[k].kind == CellKind::Clear(0u8),
        idx_adjacent(columns, k, j),
        s[j].interaction is Untouched,
    ensures
        flooded(s, columns, src, j),
{
    let path = choose|path: Seq<int>|
        #[trigger] is_flood_path(s, columns, path) && path[0] == src && path.last() == k;
    let path2 = path.push(j);
    assert(path2.last() == j);
    assert(path2[0] == src);
    assert(path2[path.len() as int] == j);
    assert forall|t: int| 0 <= t < path2.len() - 1
        implies idx_adjacent(columns, #[trigger] path2[t], path2[t + 1]) by {
        if t < path.len() - 1 {
            assert(path2[t] == path[t] && path2[t + 1] == path[t + 1]);
        } else {
            assert(path2[t] == k && path2[t + 1] == j);
        }
    }
    assert(is_flood_path(s, columns, path2));
}

/// Every cell on a flood chain whose head is cleared ends up cleared,
/// provided the board `t` after the reveal extends the board `s` before it
/// by only clearing cells, and no zero-labelled cell cleared in this pass
/// (nor the source) still has an untouched neighbor.
proof fn lemma_flood_path_cleared(
    s: Seq<Cell>,
    t: Seq<Cell>,
    columns: int,
    src: int,
    path: Seq<int>,
)
    requires
        s.len() == t.len(),
        forall|i: int| 0 <= i < t.len() ==> (#[trigger] t[i]).kind == s[i].kind,
        forall|i: int|
            0 <= i < t.len() && s[i].interaction is Untouched ==> (#[trigger] t[i]).interaction
                is Untouched || t[i].interaction is Cleared,
        forall|a: int, b: int|
            0 <= a < t.len() && 0 <= b < t.len() && (a == src || s[a].interaction is Untouched)
                && (#[trigger] t[a]).interaction is Cleared && t[a].kind == CellKind::Clear(0u8)
                && #[trigger] idx_adjacent(columns, a, b) ==> !(t[b].interaction is Untouched),
        is_flood_path(s, columns, path),
        path[0] == src,
        t[path[0]].interaction is Cleared,
    ensures
        t[path.last()].interaction is Cleared,
    decreases path.len(),
{
    if path.len() > 1 {
        let prefix = path.drop_last();
        assert(is_flood_path(s, columns, prefix));
        lemma_flood_path_cleared(s, t, columns, src, prefix);
        assert(path.len() - 2 == 0 ==> path[path.len() - 2] == src);
        assert(path.len() - 2 >= 1 ==> s[path[path.len() - 2]].interaction is Untouched);
        let k = path[path.len() - 2];
        let j = path.last();
        assert(prefix.last() == k);
        assert(idx_adjacent(columns, k, j));
        assert(t[k].kind == CellKind::Clear(0u8));
        assert(!(t[j].interaction is Untouched));
        assert(s[j].interaction is Untouched);
    }
}

/// Every flooded cell ends up cleared, under the same relation between the
/// boards before and after the reveal.
pub proof fn lemma_flooded_cleared(s: Seq<Cell>, t: Seq<Cell>, columns: int, src: int, j: int)
    requires
        s.len() == t.len(),
        forall|i: int| 0 <= i < t.len() ==> (#[trigger] t[i]).kind == s[i].kind,
        forall|i: int|
            0 <= i < t.len() && s[i].interaction is Untouched ==> (#[trigger] t[i]).interaction
                is Untouched || t[i].interaction is Cleared,
        forall|a: int, b: int|
            0 <= a < t.len() && 0 <= b < t.len() && (a == src || s[a].interaction is Untouched)
                && (#[trigger] t[a]).interaction is Cleared && t[a].kind == CellKind::Clear(0u8)
                && #[trigger] idx_adjacent(columns, a, b) ==> !(t[b].interaction is Untouched),
        0 <= src < t.len(),
        t[src].interaction is Cleared,
        flooded(s, columns, src, j),
    ensures
        0 <= j < t.len(),
        t[j].interaction is Cleared,
{
    let path = choose|path: Seq<int>|
        #[trigger] is_flood_path(s, columns, path) && path[0] == src && path.last() == j;
    lemma_flood_path_cleared(s, t, columns, src, path);
}

} // verus!
