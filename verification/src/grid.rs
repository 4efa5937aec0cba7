//! Grid geometry: flattened indexing of a `rows x columns` board, the Moore
//! neighborhood, and the per-cell adjacent-mine count.

use vstd::prelude::*;
use vstd::arithmetic::div_mod::{lemma_fundamental_div_mod, lemma_fundamental_div_mod_converse};
use crate::cells::{Cell, CellKind};

verus! {

/// Whether `(r, c)` is a position on a `rows x columns` board.
pub open spec fn in_grid(rows: int, columns: int, r: int, c: int) -> bool {
    0 <= r < rows && 0 <= c < columns
}

/// The flattened index of position `(r, c)` in row-major order.
pub open spec fn flat(columns: int, r: int, c: int) -> int {
    r * columns + c
}

/// The row of flattened index `i`.
pub open spec fn idx_row(columns: int, i: int) -> int {
    i / columns
}

/// The column of flattened index `i`.
pub open spec fn idx_col(columns: int, i: int) -> int {
    i % columns
}

/// Whether positions `(r1, c1)` and `(r2, c2)` are distinct Moore neighbors:
/// they differ, and each coordinate differs by at most one.
pub open spec fn is_neighbor(r1: int, c1: int, r2: int, c2: int) -> bool {
    &&& (r1 != r2 || c1 != c2)
    &&& -1 <= r1 - r2 <= 1
    &&& -1 <= c1 - c2 <= 1
}

/// Whether the cells at flattened indices `i` and `j` are Moore neighbors.
pub open spec fn idx_adjacent(columns: int, i: int, j: int) -> bool {
    is_neighbor(idx_row(columns, i), idx_col(columns, i), idx_row(columns, j), idx_col(columns, j))
}

/// 1 when `(r, c)` is on the board and holds a mine, 0 otherwise.
pub open spec fn mine_at(s: Seq<Cell>, rows: int, columns: int, r: int, c: int) -> int {
    if in_grid(rows, columns, r, c) && s[flat(columns, r, c)].kind is Mine {
        1
    } else {
        0
    }
}

/// The number of mines among the up-to-8 Moore neighbors of `(r, c)`.
pub open spec fn adjacent_mines(s: Seq<Cell>, rows: int, columns: int, r: int, c: int) -> int {
    mine_at(s, rows, columns, r - 1, c - 1) + mine_at(s, rows, columns, r - 1, c)
        + mine_at(s, rows, columns, r - 1, c + 1) + mine_at(s, rows, columns, r, c - 1)
        + mine_at(s, rows, columns, r, c + 1) + mine_at(s, rows, columns, r + 1, c - 1)
        + mine_at(s, rows, columns, r + 1, c) + mine_at(s, rows, columns, r + 1, c + 1)
}

/// Whether the cell at position `(r, c)` carries the correct mine-adjacency
/// label: a clear cell's number equals the count of its mine neighbors.
pub open spec fn label_ok(s: Seq<Cell>, rows: int, columns: int, r: int, c: int) -> bool {
    s[flat(columns, r, c)].kind matches CellKind::Clear(n)
        ==> n as int == adjacent_mines(s, rows, columns, r, c)
}

/// A flattened index of an on-board position lies within the board's cell count.
pub proof fn lemma_flat_range(rows: int, columns: int, r: int, c: int)
    requires
        in_grid(rows, columns, r, c),
    ensures
        0 <= flat(columns, r, c) < rows * columns,
{
    assert(0 <= r * columns + c < rows * columns) by (nonlinear_arith)
        requires
            0 <= r < rows,
            0 <= c < columns,
    {}
}

/// Flattening then splitting an on-board position returns the same position.
pub proof fn lemma_flat_decompose(rows: int, columns: int, r: int, c: int)
    requires
        in_grid(rows, columns, r, c),
    ensures
        idx_row(columns, flat(columns, r, c)) == r,
        idx_col(columns, flat(columns, r, c)) == c,
{
    lemma_fundamental_div_mod_converse(r * columns + c, columns, r, c);
}

/// Splitting a valid flattened index yields an on-board position that
/// flattens back to the same index.
pub proof fn lemma_idx_decompose(rows: int, columns: int, i: int)
    requires
        0 < columns,
        0 <= i < rows * columns,
    ensures
        in_grid(rows, columns, idx_row(columns, i), idx_col(columns, i)),
        i == flat(columns, idx_row(columns, i), idx_col(columns, i)),
{
    lemma_fundamental_div_mod(i, columns);
    assert(columns * (i / columns) == (i / columns) * columns) by (nonlinear_arith);
    assert(i / columns < rows) by (nonlinear_arith)
        requires
            0 < columns,
            0 <= i < rows * columns,
            i == columns * (i / columns) + i % columns,
            0 <= i % columns < columns,
    {}
}

/// Flattening is injective on board positions.
pub proof fn lemma_flat_injective(rows: int, columns: int, r1: int, c1: int, r2: int, c2: int)
    requires
        in_grid(rows, columns, r1, c1),
        in_grid(rows, columns, r2, c2),
        flat(columns, r1, c1) == flat(columns, r2, c2),
    ensures
        r1 == r2 && c1 == c2,
{
    lemma_flat_decompose(rows, columns, r1, c1);
    lemma_flat_decompose(rows, columns, r2, c2);
}

/// Moore neighborship of two on-board positions carries over to their
/// flattened indices.
pub proof fn lemma_flat_adjacent(rows: int, columns: int, r: int, c: int, nr: int, nc: int)
    requires
        in_grid(rows, columns, r, c),
        in_grid(rows, columns, nr, nc),
        is_neighbor(r, c, nr, nc),
    ensures
        idx_adjacent(columns, flat(columns, r, c), flat(columns, nr, nc)),
{
    lemma_flat_decompose(rows, columns, r, c);
    lemma_flat_decompose(rows, columns, nr, nc);
}

/// Any cell adjacent to `(r, c)` is one of the eight on-board candidate
/// positions around `(r, c)`.
pub proof fn lemma_neighbor_cases(rows: int, columns: int, r: int, c: int, b: int)
    requires
        in_grid(rows, columns, r, c),
        0 <= b < rows * columns,
        idx_adjacent(columns, flat(columns, r, c), b),
    ensures
        ({
            ||| (r > 0 && c > 0 && b == flat(columns, r - 1, c - 1))
            ||| (r > 0 && b == flat(columns, r - 1, c))
            ||| (r > 0 && c + 1 < columns && b == flat(columns, r - 1, c + 1))
            ||| (c > 0 && b == flat(columns, r, c - 1))
            ||| (c + 1 < columns && b == flat(columns, r, c + 1))
            ||| (r + 1 < rows && c > 0 && b == flat(columns, r + 1, c - 1))
            ||| (r + 1 < rows && b == flat(columns, r + 1, c))
            ||| (r + 1 < rows && c + 1 < columns && b == flat(columns, r + 1, c + 1))
        }),
{
    lemma_flat_decompose(rows, columns, r, c);
    lemma_idx_decompose(rows, columns, b);
}

/// The adjacent-mine count depends only on where the mines sit: two boards
/// whose cells agree mine-for-mine agree on every adjacency count.
pub proof fn lemma_adjacent_mines_same_kinds(
    s1: Seq<Cell>,
    s2: Seq<Cell>,
    rows: int,
    columns: int,
)
    requires
        s1.len() == rows * columns,
        s2.len() == rows * columns,
        forall|i: int|
            0 <= i < s1.len() ==> ((#[trigger] s1[i]).kind is Mine <==> (#[trigger] s2[i]).kind
                is Mine),
    ensures
        forall|r: int, c: int|
            in_grid(rows, columns, r, c) ==> #[trigger] adjacent_mines(s2, rows, columns, r, c)
                == adjacent_mines(s1, rows, columns, r, c),
{
    assert forall|r: int, c: int| in_grid(rows, columns, r, c)
        implies #[trigger] adjacent_mines(s2, rows, columns, r, c)
            == adjacent_mines(s1, rows, columns, r, c) by {
        assert forall|nr: int, nc: int| in_grid(rows, columns, nr, nc)
            implies #[trigger] mine_at(s2, rows, columns, nr, nc)
                == mine_at(s1, rows, columns, nr, nc) by {
            lemma_flat_range(rows, columns, nr, nc);
        }
    }
}

} // verus!
