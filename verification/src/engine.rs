//! The game engine: the board with its status and timer, and the
//! operations that mutate it.

use vstd::prelude::*;
use crate::cells::{Cell, CellInteraction, CellKind, GameError, GameParams, Status};
use crate::counting::{
    count_cleared, count_flagged, count_mines, count_untouched, is_cleared, is_flagged, is_mine,
    is_safe, is_untouched, lemma_count_if_bounds, lemma_count_if_complement, lemma_count_if_le,
    lemma_count_if_pointwise, lemma_count_if_pos, lemma_count_if_subset_full,
    lemma_count_if_update, lemma_count_if_zero, lemma_interaction_partition,
};
use crate::flood::{flooded, lemma_flooded_cleared, lemma_flooded_src, lemma_flooded_step};
use crate::grid::{
    adjacent_mines, flat, idx_adjacent, in_grid, is_neighbor, label_ok,
    lemma_adjacent_mines_same_kinds, lemma_flat_adjacent, lemma_flat_injective, lemma_flat_range,
    lemma_idx_decompose, lemma_neighbor_cases, mine_at,
};
use crate::rng::pick_mines;

verus! {

/// The whole-board information snapshot pushed to an info observer: the
/// elapsed time, the game status, and the remaining-mine estimate (the
/// mine count less the number of flags placed).
#[derive(Clone, Copy, Debug, PartialEq, Eq, Structural)]
pub struct GameInfo {
    pub elapsed_time: u64,
    pub status: Status,
    pub mines_remaining: i128,
}

/// The game engine's entire state: the board's dimensions and cells, the
/// derived interaction counters, the status, and the elapsed time.
pub struct GameState {
    pub rows: usize,
    pub columns: usize,
    pub mine_count: usize,
    pub cells: Vec<Cell>,
    pub cleared_count: usize,
    pub flagged_count: usize,
    pub status: Status,
    pub elapsed: u64,
}

/// Whether an index below `k` of `mines` holds the value `x`.
pub open spec fn listed(mines: Seq<usize>, k: int, x: usize) -> bool {
    exists|u: int| 0 <= u < k && mines[u] == x
}

/// Parameters describe a board: positive dimensions, a cell count that is
/// addressable in memory, and strictly fewer mines than cells.
pub open spec fn params_valid(params: GameParams) -> bool {
    &&& 0 < params.rows
    &&& 0 < params.columns
    &&& params.rows * params.columns <= usize::MAX
    &&& params.mine_count < params.rows * params.columns
}

impl GameState {
    /// The number of cells on the board.
    pub open spec fn total(self) -> int {
        self.rows * self.columns
    }

    /// The board's structural invariant: consistent dimensions, exactly
    /// `mine_count` mines, and a correct adjacency label on every clear cell.
    pub open spec fn grid_wf(self) -> bool {
        &&& 0 < self.rows
        &&& 0 < self.columns
        &&& self.rows * self.columns <= usize::MAX
        &&& self.cells@.len() == self.rows * self.columns
        &&& self.mine_count < self.rows * self.columns
        &&& count_mines(self.cells@) == self.mine_count
        &&& forall|r: int, c: int|
            in_grid(self.rows as int, self.columns as int, r, c) ==> #[trigger] label_ok(
                self.cells@,
                self.rows as int,
                self.columns as int,
                r,
                c,
            )
    }

    /// The derived counters agree with the cells they summarize.
    pub open spec fn counts_wf(self) -> bool {
        &&& self.cleared_count == count_cleared(self.cells@)
        &&& self.flagged_count == count_flagged(self.cells@)
    }

    /// What each status implies about the rest of the state.
    pub open spec fn status_wf(self) -> bool {
        &&& self.status is NotStarted ==> count_cleared(self.cells@) == 0 && self.elapsed == 0
        &&& (self.status is NotStarted || self.status is Playing) ==> (forall|i: int|
            0 <= i < self.cells@.len() ==> !(is_cleared(#[trigger] self.cells@[i]) && is_mine(
                self.cells@[i],
            )))
        &&& (self.status is NotStarted || self.status is Playing) ==> count_cleared(self.cells@)
            < self.total() - self.mine_count
        &&& self.status is Won ==> (forall|i: int|
            0 <= i < self.cells@.len() ==> (is_safe(#[trigger] self.cells@[i]) ==> is_cleared(
                self.cells@[i],
            )) && (is_mine(self.cells@[i]) ==> is_flagged(self.cells@[i])))
        &&& self.status is Lost ==> (forall|i: int|
            0 <= i < self.cells@.len() ==> (is_mine(#[trigger] self.cells@[i]) ==> is_cleared(
                self.cells@[i],
            ) || is_flagged(self.cells@[i])))
    }

    /// The engine's full invariant.
    pub open spec fn wf(self) -> bool {
        &&& self.grid_wf()
        &&& self.counts_wf()
        &&& self.status_wf()
    }
}

/// 1 when the cell at on-board position `(nr, nc)` holds a mine, 0 otherwise.
fn mine_at_exec(cells: &Vec<Cell>, rows: usize, columns: usize, nr: usize, nc: usize) -> (m: u8)
    requires
        cells@.len() == rows * columns,
        rows * columns <= usize::MAX,
        nr < rows,
        nc < columns,
    ensures
        m as int == mine_at(cells@, rows as int, columns as int, nr as int, nc as int),
        m <= 1,
{
    proof {
        lemma_flat_range(rows as int, columns as int, nr as int, nc as int);
    }
    if matches!(cells[nr * columns + nc].kind, CellKind::Mine) {
        1
    } else {
        0
    }
}

/// The number of mines among the Moore neighbors of `(r, c)`.
fn count_adjacent_mines(cells: &Vec<Cell>, rows: usize, columns: usize, r: usize, c: usize) -> (n:
    u8)
    requires
        cells@.len() == rows * columns,
        rows * columns <= usize::MAX,
        r < rows,
        c < columns,
    ensures
        n as int == adjacent_mines(cells@, rows as int, columns as int, r as int, c as int),
        n <= 8,
{
    let mut n: u8 = 0;
    if r > 0 && c > 0 {
        n = n + mine_at_exec(cells, rows, columns, r - 1, c - 1);
    }
    if r > 0 {
        n = n + mine_at_exec(cells, rows, columns, r - 1, c);
    }
    if r > 0 && c + 1 < columns {
        n = n + mine_at_exec(cells, rows, columns, r - 1, c + 1);
    }
    if c > 0 {
        n = n + mine_at_exec(cells, rows, columns, r, c - 1);
    }
    if c + 1 < columns {
        n = n + mine_at_exec(cells, rows, columns, r, c + 1);
    }
    if r + 1 < rows && c > 0 {
        n = n + mine_at_exec(cells, rows, columns, r + 1, c - 1);
    }
    if r + 1 < rows {
        n = n + mine_at_exec(cells, rows, columns, r + 1, c);
    }
    if r + 1 < rows && c + 1 < columns {
        n = n + mine_at_exec(cells, rows, columns, r + 1, c + 1);
    }
    n
}

/// The building pass's partial-board relation: the prefix built so far
/// mirrors the mine layout of `base` and labels every clear cell with the
/// adjacent-mine count computed over `base`.
spec fn built_prefix(cells: Seq<Cell>, base: Seq<Cell>, rows: int, columns: int) -> bool {
    &&& forall|t: int|
        0 <= t < cells.len() ==> ((#[trigger] cells[t]).kind is Mine <==> base[t].kind is Mine)
    &&& forall|t: int| 0 <= t < cells.len() ==> (#[trigger] cells[t]).interaction is Untouched
    &&& forall|rr: int, cc: int|
        in_grid(rows, columns, rr, cc) && #[trigger] flat(columns, rr, cc) < cells.len() ==> (
        cells[flat(columns, rr, cc)].kind matches CellKind::Clear(n) ==> n as int == adjacent_mines(
            base,
            rows,
            columns,
            rr,
            cc,
        ))
}

impl GameState {
    /// Builds a fresh board with mines at exactly the listed cell indices:
    /// every cell starts untouched, the status is not-started, and the
    /// timer is at zero.
    #[verifier::loop_isolation(false)]
    pub fn from_mines(params: GameParams, mines: &Vec<usize>) -> (g: GameState)
        requires
            params_valid(params),
            mines@.len() == params.mine_count,
            mines@.no_duplicates(),
            forall|t: int| 0 <= t < mines@.len() ==> #[trigger] mines@[t] < params.rows
                * params.columns,
        ensures
            g.wf(),
            g.rows == params.rows,
            g.columns == params.columns,
            g.mine_count == params.mine_count,
            g.status is NotStarted,
            g.elapsed == 0,
            g.cleared_count == 0,
            g.flagged_count == 0,
            forall|i: int| 0 <= i < g.cells@.len() ==> is_untouched(#[trigger] g.cells@[i]),
            forall|i: int|
                0 <= i < g.cells@.len() ==> (is_mine(#[trigger] g.cells@[i]) <==> mines@.contains(
                    i as usize,
                )),
    {
        let rows = params.rows;
        let columns = params.columns;
        let total = rows * columns;
        let mut base: Vec<Cell> = Vec::new();
        let mut i: usize = 0;
        while i < total
            invariant
                i <= total,
                base@.len() == i,
                forall|t: int|
                    0 <= t < i ==> #[trigger] base@[t] == (Cell {
                        kind: CellKind::Clear(0u8),
                        interaction: CellInteraction::Untouched,
                    }),
            decreases total - i,
        {
            base.push(Cell { kind: CellKind::Clear(0u8), interaction: CellInteraction::Untouched });
            i = i + 1;
        }
        proof {
            lemma_count_if_zero(base@, |c: Cell| is_mine(c));
        }
        let mut k: usize = 0;
        while k < params.mine_count
            invariant
                k <= params.mine_count,
                base@.len() == total,
                forall|t: int| 0 <= t < base@.len() ==> (#[trigger] base@[t]).interaction
                    is Untouched,
                count_mines(base@) == k,
                forall|t: int|
                    0 <= t < base@.len() ==> ((#[trigger] base@[t]).kind is Mine <==> listed(
                        mines@,
                        k as int,
                        t as usize,
                    )),
            decreases params.mine_count - k,
        {
            let m = mines[k];
            let ghost old_base = base@;
            base[m] = Cell { kind: CellKind::Mine, interaction: CellInteraction::Untouched };
            proof {
                assert(!listed(mines@, k as int, m)) by {
                    if listed(mines@, k as int, m) {
                        let u = choose|u: int| 0 <= u < k && mines@[u] == m;
                        assert(mines@[u] == mines@[k as int]);
                        assert(false);
                    }
                }
                lemma_count_if_update(
                    old_base,
                    |c: Cell| is_mine(c),
                    m as int,
                    (Cell { kind: CellKind::Mine, interaction: CellInteraction::Untouched }),
                );
                assert forall|t: int| 0 <= t < base@.len() implies ((#[trigger] base@[t]).kind
                    is Mine <==> listed(mines@, k as int + 1, t as usize)) by {
                    if t == m as int {
                        assert(mines@[k as int] == m);
                        assert(listed(mines@, k as int + 1, m));
                    } else {
                        assert(base@[t] == old_base[t]);
                        if listed(mines@, k as int + 1, t as usize) {
                            let u = choose|u: int| 0 <= u < k + 1 && mines@[u] == t as usize;
                            assert(mines@[u] == t as usize);
                            assert(u != k);
                            assert(listed(mines@, k as int, t as usize));
                        }
                        if listed(mines@, k as int, t as usize) {
                            let u = choose|u: int| 0 <= u < k && mines@[u] == t as usize;
                            assert(mines@[u] == t as usize);
                            assert(listed(mines@, k as int + 1, t as usize));
                        }
                    }
                }
            }
            k = k + 1;
        }
        let mut cells: Vec<Cell> = Vec::new();
        let mut r: usize = 0;
        while r < rows
            invariant
                r <= rows,
                cells@.len() == r * (columns as int),
                built_prefix(cells@, base@, rows as int, columns as int),
            decreases rows - r,
        {
            let mut c: usize = 0;
            while c < columns
                invariant
                    r < rows,
                    c <= columns,
                    cells@.len() == r * (columns as int) + c,
                    built_prefix(cells@, base@, rows as int, columns as int),
                decreases columns - c,
            {
                proof {
                    lemma_flat_range(rows as int, columns as int, r as int, c as int);
                }
                let ghost prev = cells@;
                let idx = r * columns + c;
                let cell = if matches!(base[idx].kind, CellKind::Mine) {
                    Cell { kind: CellKind::Mine, interaction: CellInteraction::Untouched }
                } else {
                    let n = count_adjacent_mines(&base, rows, columns, r, c);
                    Cell { kind: CellKind::Clear(n), interaction: CellInteraction::Untouched }
                };
                cells.push(cell);
                proof {
                    assert forall|rr: int, cc: int|
                        in_grid(rows as int, columns as int, rr, cc) && #[trigger] flat(
                            columns as int,
                            rr,
                            cc,
                        ) < cells@.len() implies (cells@[flat(columns as int, rr, cc)].kind matches
                        CellKind::Clear(n) ==> n as int == adjacent_mines(
                        base@,
                        rows as int,
                        columns as int,
                        rr,
                        cc,
                    )) by {
                        if flat(columns as int, rr, cc) == idx as int {
                            lemma_flat_injective(
                                rows as int,
                                columns as int,
                                rr,
                                cc,
                                r as int,
                                c as int,
                            );
                        } else {
                            assert(flat(columns as int, rr, cc) < prev.len() ==> cells@[flat(
                                columns as int,
                                rr,
                                cc,
                            )] == prev[flat(columns as int, rr, cc)]);
                        }
                    }
                }
                c = c + 1;
            }
            proof {
                assert((r as int + 1) * (columns as int) == r as int * (columns as int)
                    + columns as int) by (nonlinear_arith);
            }
            r = r + 1;
        }
        proof {
            lemma_adjacent_mines_same_kinds(base@, cells@, rows as int, columns as int);
            lemma_count_if_pointwise(base@, cells@, |c: Cell| is_mine(c));
            lemma_count_if_zero(cells@, |c: Cell| is_cleared(c));
            lemma_count_if_zero(cells@, |c: Cell| is_flagged(c));
        }
        let g = GameState {
            rows,
            columns,
            mine_count: params.mine_count,
            cells,
            cleared_count: 0,
            flagged_count: 0,
            status: Status::NotStarted,
            elapsed: 0,
        };
        proof {
            assert forall|rr: int, cc: int| in_grid(rows as int, columns as int, rr, cc)
                implies #[trigger] label_ok(g.cells@, rows as int, columns as int, rr, cc) by {
                lemma_flat_range(rows as int, columns as int, rr, cc);
            }
            assert forall|i: int| 0 <= i < g.cells@.len() implies (is_mine(#[trigger] g.cells@[i])
                <==> mines@.contains(i as usize)) by {
                if listed(mines@, mines@.len() as int, i as usize) {
                    let u = choose|u: int| 0 <= u < mines@.len() && mines@[u] == i as usize;
                    assert(mines@[u] == i as usize);
                    assert(mines@.contains(i as usize));
                }
                if mines@.contains(i as usize) {
                    let u = choose|u: int| 0 <= u < mines@.len() && mines@[u] == i as usize;
                    assert(mines@[u] == i as usize);
                    assert(listed(mines@, mines@.len() as int, i as usize));
                }
            }
        }
        g
    }

    /// Validates the parameters and, when they describe a board, builds a
    /// fresh one with a random mine layout; rejected parameters produce no
    /// engine at all.
    pub fn new(params: GameParams) -> (result: Result<GameState, GameError>)
        ensures
            result is Ok <==> params_valid(params),
            result matches Ok(g) ==> g.wf() && g.rows == params.rows && g.columns == params.columns
                && g.mine_count == params.mine_count && g.status is NotStarted && g.elapsed == 0
                && g.cleared_count == 0 && g.flagged_count == 0 && (forall|i: int|
                0 <= i < g.cells@.len() ==> is_untouched(#[trigger] g.cells@[i])),
            result matches Err(e) ==> e is InvalidParameters,
    {
        if params.rows == 0 || params.columns == 0 {
            return Err(GameError::InvalidParameters);
        }
        match params.rows.checked_mul(params.columns) {
            None => Err(GameError::InvalidParameters),
            Some(total) => {
                if params.mine_count >= total {
                    Err(GameError::InvalidParameters)
                } else {
                    let mines = pick_mines(total, params.mine_count);
                    Ok(GameState::from_mines(params, &mines))
                }
            },
        }
    }

    /// Discards the current game and generates a fresh board with the same
    /// parameters and a new random mine layout; the timer returns to zero
    /// and the status to not-started.
    pub fn reset(&mut self)
        requires
            old(self).wf(),
        ensures
            final(self).wf(),
            final(self).rows == old(self).rows,
            final(self).columns == old(self).columns,
            final(self).mine_count == old(self).mine_count,
            final(self).status is NotStarted,
            final(self).elapsed == 0,
            final(self).cleared_count == 0,
            final(self).flagged_count == 0,
            count_mines(final(self).cells@) == final(self).mine_count,
            forall|i: int|
                0 <= i < final(self).cells@.len() ==> is_untouched(#[trigger] final(self).cells@[i]),
    {
        let total = self.rows * self.columns;
        let mines = pick_mines(total, self.mine_count);
        let params = GameParams {
            rows: self.rows,
            columns: self.columns,
            mine_count: self.mine_count,
        };
        *self = GameState::from_mines(params, &mines);
    }

    /// The board's dimensions as `(rows, columns)`.
    pub fn dimensions(&self) -> (d: (usize, usize))
        ensures
            d.0 == self.rows,
            d.1 == self.columns,
    {
        (self.rows, self.columns)
    }

    /// The game's current status.
    pub fn current_status(&self) -> (s: Status)
        ensures
            s == self.status,
    {
        self.status
    }

    /// The current `(interaction, kind)` snapshot of one cell, as pushed to
    /// a cell observer on registration and on every later change.
    pub fn cell_state(&self, row: usize, column: usize) -> (st: (CellInteraction, CellKind))
        requires
            self.wf(),
            row < self.rows,
            column < self.columns,
        ensures
            st.0 == self.cells@[flat(self.columns as int, row as int, column as int)].interaction,
            st.1 == self.cells@[flat(self.columns as int, row as int, column as int)].kind,
    {
        proof {
            lemma_flat_range(self.rows as int, self.columns as int, row as int, column as int);
        }
        let cell = self.cells[row * self.columns + column];
        (cell.interaction, cell.kind)
    }

    /// The whole-board information snapshot for the info observer.
    pub fn info(&self) -> (info: GameInfo)
        ensures
            info.elapsed_time == self.elapsed,
            info.status == self.status,
            info.mines_remaining == self.mine_count as int - self.flagged_count as int,
    {
        GameInfo {
            elapsed_time: self.elapsed,
            status: self.status,
            mines_remaining: self.mine_count as i128 - self.flagged_count as i128,
        }
    }

    /// Whether starting a new game is currently allowed. The policy is
    /// that a reset is always permitted.
    pub fn new_game_allowed(&self) -> (allowed: bool)
        ensures
            allowed,
    {
        true
    }

    /// Advances the timer by one tick. Time passes only while the game is
    /// being played: before the first reveal and after a win or a loss the
    /// timer is frozen.
    pub fn tick(&mut self)
        requires
            old(self).wf(),
        ensures
            final(self).wf(),
            final(self).rows == old(self).rows,
            final(self).columns == old(self).columns,
            final(self).mine_count == old(self).mine_count,
            final(self).cells@ == old(self).cells@,
            final(self).cleared_count == old(self).cleared_count,
            final(self).flagged_count == old(self).flagged_count,
            final(self).status == old(self).status,
            final(self).elapsed == (if old(self).status is Playing && old(self).elapsed < u64::MAX {
                old(self).elapsed + 1
            } else {
                old(self).elapsed as int
            }),
    {
        if matches!(self.status, Status::Playing) && self.elapsed < u64::MAX {
            self.elapsed = self.elapsed + 1;
        }
    }

    /// Toggles the flag on a cell: an untouched cell becomes flagged and a
    /// flagged cell untouched. A cleared cell, or any cell once the game
    /// is over, is left exactly as it was.
    pub fn flag(&mut self, row: usize, column: usize) -> (changed: bool)
        requires
            old(self).wf(),
            row < old(self).rows,
            column < old(self).columns,
        ensures
            final(self).wf(),
            final(self).rows == old(self).rows,
            final(self).columns == old(self).columns,
            final(self).mine_count == old(self).mine_count,
            final(self).status == old(self).status,
            final(self).elapsed == old(self).elapsed,
            final(self).cleared_count == old(self).cleared_count,
            ({
                let i = flat(old(self).columns as int, row as int, column as int);
                if old(self).status is Won || old(self).status is Lost || old(
                    self,
                ).cells@[i].interaction is Cleared {
                    &&& !changed
                    &&& final(self).cells@ == old(self).cells@
                    &&& final(self).flagged_count == old(self).flagged_count
                } else {
                    &&& changed
                    &&& old(self).cells@[i].interaction is Untouched ==> final(self).cells@ == old(
                        self,
                    ).cells@.update(
                        i,
                        (Cell {
                            kind: old(self).cells@[i].kind,
                            interaction: CellInteraction::Flagged,
                        }),
                    ) && final(self).flagged_count == old(self).flagged_count + 1
                    &&& old(self).cells@[i].interaction is Flagged ==> final(self).cells@ == old(
                        self,
                    ).cells@.update(
                        i,
                        (Cell {
                            kind: old(self).cells@[i].kind,
                            interaction: CellInteraction::Untouched,
                        }),
                    ) && final(self).flagged_count == old(self).flagged_count - 1
                }
            }),
    {
        proof {
            lemma_flat_range(self.rows as int, self.columns as int, row as int, column as int);
        }
        let i = row * self.columns + column;
        if matches!(self.status, Status::Won | Status::Lost) {
            return false;
        }
        let cell = self.cells[i];
        match cell.interaction {
            CellInteraction::Cleared => false,
            CellInteraction::Untouched => {
                let ghost prev = self.cells@;
                let updated = Cell { kind: cell.kind, interaction: CellInteraction::Flagged };
                proof {
                    lemma_count_if_pos(prev, |c: Cell| is_untouched(c), i as int);
                    lemma_interaction_partition(prev);
                    lemma_count_if_bounds(prev, |c: Cell| is_cleared(c));
                    lemma_count_if_update(prev, |c: Cell| is_flagged(c), i as int, updated);
                    lemma_count_if_update(prev, |c: Cell| is_cleared(c), i as int, updated);
                    lemma_count_if_update(prev, |c: Cell| is_mine(c), i as int, updated);
                }
                self.cells[i] = updated;
                self.flagged_count = self.flagged_count + 1;
                proof {
                    self.lemma_relabel_after_update(prev, i as int);
                }
                true
            },
            CellInteraction::Flagged => {
                let ghost prev = self.cells@;
                let updated = Cell { kind: cell.kind, interaction: CellInteraction::Untouched };
                proof {
                    lemma_count_if_pos(prev, |c: Cell| is_flagged(c), i as int);
                    lemma_count_if_update(prev, |c: Cell| is_flagged(c), i as int, updated);
                    lemma_count_if_update(prev, |c: Cell| is_cleared(c), i as int, updated);
                    lemma_count_if_update(prev, |c: Cell| is_mine(c), i as int, updated);
                }
                self.cells[i] = updated;
                self.flagged_count = self.flagged_count - 1;
                proof {
                    self.lemma_relabel_after_update(prev, i as int);
                }
                true
            },
        }
    }

    /// After replacing one cell by another of the same kind, every
    /// adjacency label stays correct.
    proof fn lemma_relabel_after_update(self, prev: Seq<Cell>, i: int)
        requires
            0 < self.rows,
            0 < self.columns,
            prev.len() == self.rows * self.columns,
            self.cells@.len() == prev.len(),
            0 <= i < prev.len(),
            self.cells@[i].kind == prev[i].kind,
            forall|t: int| 0 <= t < prev.len() && t != i ==> #[trigger] self.cells@[t] == prev[t],
            forall|r: int, c: int|
                in_grid(self.rows as int, self.columns as int, r, c) ==> #[trigger] label_ok(
                    prev,
                    self.rows as int,
                    self.columns as int,
                    r,
                    c,
                ),
        ensures
            forall|r: int, c: int|
                in_grid(self.rows as int, self.columns as int, r, c) ==> #[trigger] label_ok(
                    self.cells@,
                    self.rows as int,
                    self.columns as int,
                    r,
                    c,
                ),
    {
        let rows = self.rows as int;
        let columns = self.columns as int;
        assert(forall|t: int|
            0 <= t < prev.len() ==> ((#[trigger] self.cells@[t]).kind is Mine <==> prev[t].kind
                is Mine));
        lemma_adjacent_mines_same_kinds(prev, self.cells@, rows, columns);
        assert forall|r: int, c: int| in_grid(rows, columns, r, c) implies #[trigger] label_ok(
            self.cells@,
            rows,
            columns,
            r,
            c,
        ) by {
            lemma_flat_range(rows, columns, r, c);
            assert(label_ok(prev, rows, columns, r, c));
            assert(self.cells@[flat(columns, r, c)].kind == prev[flat(columns, r, c)].kind);
        }
    }
}


/// The cell as it looks after being cleared.
pub open spec fn cleared_version(c: Cell) -> Cell {
    Cell { kind: c.kind, interaction: CellInteraction::Cleared }
}

/// The cell as it looks after being flagged.
pub open spec fn flagged_version(c: Cell) -> Cell {
    Cell { kind: c.kind, interaction: CellInteraction::Flagged }
}

/// Whether a reveal at index `i0` acts at all: the game must still be in
/// play and the cell untouched.
pub open spec fn dig_eligible(g: GameState, i0: int) -> bool {
    &&& !(g.status is Won)
    &&& !(g.status is Lost)
    &&& g.cells@[i0].interaction is Untouched
}

/// What a losing reveal at `i0` leaves at index `i`: the revealed mine and
/// every other mine not protected by a flag are shown cleared, everything
/// else keeps its state.
pub open spec fn loss_result_cell(s0: Seq<Cell>, i0: int, i: int) -> Cell {
    if i == i0 || (s0[i].kind is Mine && s0[i].interaction is Untouched) {
        cleared_version(s0[i])
    } else {
        s0[i]
    }
}

/// What a safe reveal at `i0` leaves at index `i`: every cell the flood
/// fill reaches is cleared; on a win every mine not already flagged is
/// flagged for display; everything else keeps its state.
pub open spec fn flood_result_cell(s0: Seq<Cell>, columns: int, i0: int, won: bool, i: int) -> Cell {
    if s0[i].kind is Mine {
        if won && s0[i].interaction is Untouched {
            flagged_version(s0[i])
        } else {
            s0[i]
        }
    } else {
        if flooded(s0, columns, i0, i) {
            cleared_version(s0[i])
        } else {
            s0[i]
        }
    }
}

/// The flood loop's core relation between the running state `g`, the state
/// `base` at the start of the reveal, the source index `i0`, the worklist
/// and the changed-cell log.
pub open spec fn flood_core(
    g: GameState,
    base: GameState,
    i0: int,
    work: Seq<usize>,
    changed: Seq<usize>,
) -> bool {
    let s0 = base.cells@;
    &&& base.grid_wf()
    &&& g.rows == base.rows
    &&& g.columns == base.columns
    &&& g.mine_count == base.mine_count
    &&& g.flagged_count == base.flagged_count
    &&& g.elapsed == base.elapsed
    &&& g.status is Playing
    &&& 0 <= i0 < s0.len()
    &&& s0[i0].interaction is Untouched
    &&& !(s0[i0].kind is Mine)
    &&& g.cells@.len() == s0.len()
    &&& forall|i: int| 0 <= i < s0.len() ==> (#[trigger] g.cells@[i]).kind == s0[i].kind
    &&& forall|i: int|
        0 <= i < s0.len() && !(s0[i].interaction is Untouched) ==> #[trigger] g.cells@[i] == s0[i]
    &&& forall|i: int|
        0 <= i < s0.len() && s0[i].interaction is Untouched ==> (#[trigger] g.cells@[i]).interaction
            is Untouched || g.cells@[i].interaction is Cleared
    &&& g.cells@[i0].interaction is Cleared
    &&& g.cleared_count == count_cleared(g.cells@)
    &&& count_flagged(g.cells@) == count_flagged(base.cells@)
    &&& forall|i: int|
        0 <= i < s0.len() ==> !(is_mine(#[trigger] g.cells@[i]) && is_cleared(g.cells@[i]))
    &&& changed.no_duplicates()
    &&& forall|t: int| 0 <= t < changed.len() ==> #[trigger] changed[t] < s0.len()
    &&& forall|i: int|
        0 <= i < s0.len() ==> ((#[trigger] g.cells@[i]) != s0[i] <==> changed.contains(i as usize))
    &&& forall|t: int| 0 <= t < work.len() ==> #[trigger] work[t] < s0.len()
    &&& forall|t: int|
        0 <= t < work.len() ==> (#[trigger] g.cells@[work[t] as int]).interaction is Cleared
    &&& forall|t: int|
        0 <= t < work.len() ==> (#[trigger] g.cells@[work[t] as int]).kind == CellKind::Clear(0u8)
    &&& forall|t: int|
        0 <= t < work.len() ==> flooded(s0, g.columns as int, i0, #[trigger] work[t] as int)
    &&& forall|i: int|
        0 <= i < s0.len() && s0[i].interaction is Untouched && (#[trigger] g.cells@[i]).interaction
            is Cleared ==> flooded(s0, g.columns as int, i0, i)
}

/// Pushing one freshly changed index onto the changed-cell log keeps the
/// log an exact, duplicate-free record of the cells that differ from `s0`.
proof fn lemma_changed_push(
    s0: Seq<Cell>,
    prev: Seq<Cell>,
    now: Seq<Cell>,
    changed0: Seq<usize>,
    k: int,
)
    requires
        s0.len() <= usize::MAX,
        prev.len() == s0.len(),
        now.len() == s0.len(),
        0 <= k < s0.len(),
        prev[k] == s0[k],
        now[k] != s0[k],
        forall|i: int| 0 <= i < s0.len() && i != k ==> #[trigger] now[i] == prev[i],
        changed0.no_duplicates(),
        forall|t: int| 0 <= t < changed0.len() ==> #[trigger] changed0[t] < s0.len(),
        forall|i: int|
            0 <= i < s0.len() ==> ((#[trigger] prev[i]) != s0[i] <==> changed0.contains(
                i as usize,
            )),
    ensures
        changed0.push(k as usize).no_duplicates(),
        forall|t: int|
            0 <= t < changed0.push(k as usize).len() ==> #[trigger] changed0.push(k as usize)[t]
                < s0.len(),
        forall|i: int|
            0 <= i < s0.len() ==> ((#[trigger] now[i]) != s0[i] <==> changed0.push(
                k as usize,
            ).contains(i as usize)),
{
    let c1 = changed0.push(k as usize);
    assert(!changed0.contains(k as usize));
    assert forall|a: int, b: int| 0 <= a < c1.len() && 0 <= b < c1.len() && a != b implies c1[a]
        != c1[b] by {
        if a < changed0.len() && b < changed0.len() {
        } else if a == changed0.len() {
            assert(c1[b] == changed0[b]);
        } else {
            assert(c1[a] == changed0[a]);
        }
    }
    assert forall|i: int| 0 <= i < s0.len() implies ((#[trigger] now[i]) != s0[i] <==> c1.contains(
        i as usize,
    )) by {
        if i == k {
            assert(c1[changed0.len() as int] == k as usize);
            assert(c1.contains(k as usize));
        } else {
            if now[i] != s0[i] {
                assert(changed0.contains(i as usize));
                let t = choose|t: int| 0 <= t < changed0.len() && changed0[t] == i as usize;
                assert(c1[t] == i as usize);
                assert(c1.contains(i as usize));
            }
            if c1.contains(i as usize) {
                let t = choose|t: int| 0 <= t < c1.len() && c1[t] == i as usize;
                assert(t < changed0.len());
                assert(changed0.contains(i as usize));
            }
        }
    }
}

impl GameState {
    /// Clears one untouched cell, counts it, and logs it as changed.
    fn clear_cell(&mut self, i: usize, changed: &mut Vec<usize>)
        requires
            i < old(self).cells@.len(),
            old(self).cells@.len() <= usize::MAX,
            old(self).cells@[i as int].interaction is Untouched,
            old(self).cleared_count == count_cleared(old(self).cells@),
        ensures
            final(self).cells@ == old(self).cells@.update(
                i as int,
                cleared_version(old(self).cells@[i as int]),
            ),
            final(self).cleared_count == old(self).cleared_count + 1,
            final(self).rows == old(self).rows,
            final(self).columns == old(self).columns,
            final(self).mine_count == old(self).mine_count,
            final(self).flagged_count == old(self).flagged_count,
            final(self).status == old(self).status,
            final(self).elapsed == old(self).elapsed,
            count_cleared(final(self).cells@) == count_cleared(old(self).cells@) + 1,
            count_flagged(final(self).cells@) == count_flagged(old(self).cells@),
            count_mines(final(self).cells@) == count_mines(old(self).cells@),
            count_untouched(final(self).cells@) == count_untouched(old(self).cells@) - 1,
            final(changed)@ == old(changed)@.push(i),
    {
        let cell = self.cells[i];
        let ghost prev = self.cells@;
        let updated = Cell { kind: cell.kind, interaction: CellInteraction::Cleared };
        proof {
            lemma_count_if_pos(prev, |c: Cell| is_untouched(c), i as int);
            lemma_interaction_partition(prev);
            lemma_count_if_bounds(prev, |c: Cell| is_flagged(c));
            lemma_count_if_update(prev, |c: Cell| is_cleared(c), i as int, updated);
            lemma_count_if_update(prev, |c: Cell| is_flagged(c), i as int, updated);
            lemma_count_if_update(prev, |c: Cell| is_mine(c), i as int, updated);
            lemma_count_if_update(prev, |c: Cell| is_untouched(c), i as int, updated);
        }
        self.cells[i] = updated;
        self.cleared_count = self.cleared_count + 1;
        changed.push(i);
    }

    /// Flags one untouched cell, counts it, and logs it as changed.
    fn flag_cell(&mut self, i: usize, changed: &mut Vec<usize>)
        requires
            i < old(self).cells@.len(),
            old(self).cells@.len() <= usize::MAX,
            old(self).cells@[i as int].interaction is Untouched,
            old(self).flagged_count == count_flagged(old(self).cells@),
        ensures
            final(self).cells@ == old(self).cells@.update(
                i as int,
                flagged_version(old(self).cells@[i as int]),
            ),
            final(self).flagged_count == old(self).flagged_count + 1,
            final(self).rows == old(self).rows,
            final(self).columns == old(self).columns,
            final(self).mine_count == old(self).mine_count,
            final(self).cleared_count == old(self).cleared_count,
            final(self).status == old(self).status,
            final(self).elapsed == old(self).elapsed,
            count_flagged(final(self).cells@) == count_flagged(old(self).cells@) + 1,
            count_cleared(final(self).cells@) == count_cleared(old(self).cells@),
            count_mines(final(self).cells@) == count_mines(old(self).cells@),
            count_untouched(final(self).cells@) == count_untouched(old(self).cells@) - 1,
            final(changed)@ == old(changed)@.push(i),
    {
        let cell = self.cells[i];
        let ghost prev = self.cells@;
        let updated = Cell { kind: cell.kind, interaction: CellInteraction::Flagged };
        proof {
            lemma_count_if_pos(prev, |c: Cell| is_untouched(c), i as int);
            lemma_interaction_partition(prev);
            lemma_count_if_bounds(prev, |c: Cell| is_cleared(c));
            lemma_count_if_update(prev, |c: Cell| is_cleared(c), i as int, updated);
            lemma_count_if_update(prev, |c: Cell| is_flagged(c), i as int, updated);
            lemma_count_if_update(prev, |c: Cell| is_mine(c), i as int, updated);
            lemma_count_if_update(prev, |c: Cell| is_untouched(c), i as int, updated);
        }
        self.cells[i] = updated;
        self.flagged_count = self.flagged_count + 1;
        changed.push(i);
    }
}


/// Labels stay correct on any board whose cells keep their kinds.
proof fn lemma_labels_preserved(s0: Seq<Cell>, s1: Seq<Cell>, rows: int, columns: int)
    requires
        s0.len() == rows * columns,
        s1.len() == s0.len(),
        forall|i: int| 0 <= i < s0.len() ==> (#[trigger] s1[i]).kind == s0[i].kind,
        forall|r: int, c: int|
            in_grid(rows, columns, r, c) ==> #[trigger] label_ok(s0, rows, columns, r, c),
    ensures
        forall|r: int, c: int|
            in_grid(rows, columns, r, c) ==> #[trigger] label_ok(s1, rows, columns, r, c),
{
    lemma_adjacent_mines_same_kinds(s0, s1, rows, columns);
    assert forall|r: int, c: int| in_grid(rows, columns, r, c) implies #[trigger] label_ok(
        s1,
        rows,
        columns,
        r,
        c,
    ) by {
        lemma_flat_range(rows, columns, r, c);
        assert(label_ok(s0, rows, columns, r, c));
        assert(s1[flat(columns, r, c)].kind == s0[flat(columns, r, c)].kind);
    }
}

impl GameState {
    /// Processes one Moore neighbor `(nr, nc)` of the zero-labelled cleared
    /// cell `(jr, jc)` during the flood fill: an untouched neighbor is
    /// cleared, and joins the worklist when it carries a zero label itself.
    fn flood_visit(
        &mut self,
        jr: usize,
        jc: usize,
        nr: usize,
        nc: usize,
        work: &mut Vec<usize>,
        changed: &mut Vec<usize>,
        Ghost(base): Ghost<GameState>,
        Ghost(i0): Ghost<int>,
    )
        requires
            flood_core(*old(self), base, i0, old(work)@, old(changed)@),
            in_grid(base.rows as int, base.columns as int, jr as int, jc as int),
            in_grid(base.rows as int, base.columns as int, nr as int, nc as int),
            is_neighbor(jr as int, jc as int, nr as int, nc as int),
            old(self).cells@[flat(base.columns as int, jr as int, jc as int)].kind
                == CellKind::Clear(0u8),
            old(self).cells@[flat(base.columns as int, jr as int, jc as int)].interaction
                is Cleared,
            flooded(
                base.cells@,
                base.columns as int,
                i0,
                flat(base.columns as int, jr as int, jc as int),
            ),
        ensures
            flood_core(*final(self), base, i0, final(work)@, final(changed)@),
            forall|t: int|
                0 <= t < old(work)@.len() ==> #[trigger] final(work)@[t] == old(work)@[t],
            old(work)@.len() <= final(work)@.len(),
            forall|x: usize| old(work)@.contains(x) ==> #[trigger] final(work)@.contains(x),
            ({
                let k = flat(base.columns as int, nr as int, nc as int);
                &&& forall|i: int|
                    0 <= i < old(self).cells@.len() && i != k ==> #[trigger] final(self).cells@[i]
                        == old(self).cells@[i]
                &&& !(final(self).cells@[k].interaction is Untouched)
                &&& (old(self).cells@[k].interaction is Untouched ==> final(self).cells@[k]
                    == cleared_version(old(self).cells@[k]))
                &&& (!(old(self).cells@[k].interaction is Untouched) ==> final(self).cells@ == old(
                    self,
                ).cells@ && final(work)@ == old(work)@)
                &&& ((old(self).cells@[k].interaction is Untouched && old(self).cells@[k].kind
                    == CellKind::Clear(0u8)) ==> final(work)@ == old(work)@.push(k as usize))
                &&& ((old(self).cells@[k].interaction is Untouched && old(self).cells@[k].kind
                    != CellKind::Clear(0u8)) ==> final(work)@ == old(work)@)
                &&& count_untouched(final(self).cells@) == count_untouched(old(self).cells@) - (
                if old(self).cells@[k].interaction is Untouched {
                    1int
                } else {
                    0int
                })
            }),
            forall|i: int|
                0 <= i < old(self).cells@.len() && (#[trigger] old(self).cells@[i]).interaction
                    is Untouched && final(self).cells@[i].interaction is Cleared
                    && final(self).cells@[i].kind == CellKind::Clear(0u8)
                    ==> final(work)@.contains(i as usize),
    {
        let ghost s0 = base.cells@;
        let ghost columns_i = base.columns as int;
        let ghost j = flat(columns_i, jr as int, jc as int);
        proof {
            lemma_flat_range(base.rows as int, columns_i, jr as int, jc as int);
            lemma_flat_range(base.rows as int, columns_i, nr as int, nc as int);
            lemma_flat_adjacent(base.rows as int, columns_i, jr as int, jc as int, nr as int, nc as int);
        }
        let k = nr * self.columns + nc;
        let cell = self.cells[k];
        if matches!(cell.interaction, CellInteraction::Untouched) {
            let ghost prev = self.cells@;
            let ghost ch0 = changed@;
            proof {
                assert(s0[k as int].interaction is Untouched);
                assert(label_ok(s0, base.rows as int, columns_i, jr as int, jc as int));
                assert(s0[j].kind == CellKind::Clear(0u8));
                assert(adjacent_mines(s0, base.rows as int, columns_i, jr as int, jc as int) == 0);
                assert(mine_at(s0, base.rows as int, columns_i, nr as int, nc as int) == 0);
                assert(!(s0[k as int].kind is Mine));
                lemma_flooded_step(s0, columns_i, i0, j, k as int);
                assert(prev[k as int] == s0[k as int]);
            }
            self.clear_cell(k, changed);
            proof {
                lemma_changed_push(s0, prev, self.cells@, ch0, k as int);
            }
            if matches!(cell.kind, CellKind::Clear(0)) {
                work.push(k);
            }
            proof {
                assert forall|t: int| 0 <= t < work@.len() implies (#[trigger] self.cells@[work@[t] as int]).interaction is Cleared by {
                    if t < old(work)@.len() {
                        assert(work@[t] == old(work)@[t]);
                    }
                }
            }
        }
        proof {
            assert forall|i: int|
                0 <= i < old(self).cells@.len() && (#[trigger] old(self).cells@[i]).interaction
                    is Untouched && self.cells@[i].interaction is Cleared && self.cells@[i].kind
                    == CellKind::Clear(0u8) implies work@.contains(i as usize) by {
                if i == k as int && work@.len() == old(work)@.len() + 1 {
                    assert(work@[work@.len() - 1] == i as usize);
                }
            }
            assert forall|x: usize| old(work)@.contains(x) implies #[trigger] work@.contains(
                x,
            ) by {
                let t = choose|t: int| 0 <= t < old(work)@.len() && old(work)@[t] == x;
                assert(work@[t] == x);
            }
        }
    }
}


impl GameState {
    /// The losing half of a dig: clears the revealed mine, then uncovers
    /// every other mine that is not protected by a flag.
    #[verifier::loop_isolation(false)]
    #[verifier::rlimit(100)]
    fn dig_mine(&mut self, i0: usize) -> (changed: Vec<usize>)
        requires
            old(self).grid_wf(),
            old(self).counts_wf(),
            old(self).status is Playing,
            forall|i: int|
                0 <= i < old(self).cells@.len() ==> !(is_cleared(#[trigger] old(self).cells@[i])
                    && is_mine(old(self).cells@[i])),
            i0 < old(self).cells@.len(),
            old(self).cells@[i0 as int].interaction is Untouched,
            old(self).cells@[i0 as int].kind is Mine,
        ensures
            final(self).wf(),
            final(self).rows == old(self).rows,
            final(self).columns == old(self).columns,
            final(self).mine_count == old(self).mine_count,
            final(self).elapsed == old(self).elapsed,
            final(self).flagged_count == old(self).flagged_count,
            final(self).status is Lost,
            final(self).cells@.len() == old(self).cells@.len(),
            changed@.no_duplicates(),
            forall|t: int| 0 <= t < changed@.len() ==> #[trigger] changed@[t] < old(
                self,
            ).cells@.len(),
            forall|i: int|
                0 <= i < old(self).cells@.len() ==> ((#[trigger] final(self).cells@[i]) != old(
                    self,
                ).cells@[i] <==> changed@.contains(i as usize)),
            forall|i: int|
                0 <= i < old(self).cells@.len() ==> #[trigger] final(self).cells@[i]
                    == loss_result_cell(old(self).cells@, i0 as int, i),
    {
        let ghost rows_i = old(self).rows as int;
        let ghost columns_i = old(self).columns as int;
        let ghost s0 = old(self).cells@;
        let total = self.rows * self.columns;
        let mut changed: Vec<usize> = Vec::new();
        self.status = Status::Lost;
        let ghost prev0 = self.cells@;
        let ghost ch0 = changed@;
        self.clear_cell(i0, &mut changed);
        proof {
            lemma_changed_push(s0, prev0, self.cells@, ch0, i0 as int);
        }
        let mut i: usize = 0;
        while i < total
            invariant
                i <= total,
                self.rows == old(self).rows,
                self.columns == old(self).columns,
                self.mine_count == old(self).mine_count,
                self.flagged_count == old(self).flagged_count,
                self.elapsed == old(self).elapsed,
                self.status is Lost,
                self.cells@.len() == s0.len(),
                forall|t: int| 0 <= t < s0.len() ==> (#[trigger] self.cells@[t]).kind == s0[t].kind,
                self.cleared_count == count_cleared(self.cells@),
                self.flagged_count == count_flagged(self.cells@),
                changed@.no_duplicates(),
                forall|t: int| 0 <= t < changed@.len() ==> #[trigger] changed@[t] < s0.len(),
                forall|t: int|
                    0 <= t < s0.len() ==> ((#[trigger] self.cells@[t]) != s0[t]
                        <==> changed@.contains(t as usize)),
                forall|t: int|
                    0 <= t < i ==> #[trigger] self.cells@[t] == loss_result_cell(s0, i0 as int, t),
                forall|t: int|
                    i <= t < s0.len() ==> #[trigger] self.cells@[t] == (if t == i0 as int {
                        cleared_version(s0[t])
                    } else {
                        s0[t]
                    }),
            decreases total - i,
        {
            let cellt = self.cells[i];
            if matches!(cellt.kind, CellKind::Mine) && matches!(
                cellt.interaction,
                CellInteraction::Untouched,
            ) {
                let ghost prev = self.cells@;
                let ghost chp = changed@;
                self.clear_cell(i, &mut changed);
                proof {
                    lemma_changed_push(s0, prev, self.cells@, chp, i as int);
                }
            }
            i = i + 1;
        }
        proof {
            lemma_labels_preserved(s0, self.cells@, rows_i, columns_i);
            lemma_count_if_pointwise(s0, self.cells@, |c: Cell| is_mine(c));
        }
        changed
    }
}


impl GameState {
    /// The on-board Moore neighbors of `(r, c)`, listed as coordinates.
    #[verifier::rlimit(100)]
    fn neighbor_coords(rows: usize, columns: usize, r: usize, c: usize) -> (v: Vec<(usize, usize)>)
        requires
            r < rows,
            c < columns,
        ensures
            forall|t: int|
                0 <= t < v@.len() ==> in_grid(
                    rows as int,
                    columns as int,
                    (#[trigger] v@[t]).0 as int,
                    v@[t].1 as int,
                ) && is_neighbor(r as int, c as int, v@[t].0 as int, v@[t].1 as int),
            r > 0 && c > 0 ==> v@.contains(((r - 1) as usize, (c - 1) as usize)),
            r > 0 ==> v@.contains(((r - 1) as usize, c)),
            r > 0 && c + 1 < columns ==> v@.contains(((r - 1) as usize, (c + 1) as usize)),
            c > 0 ==> v@.contains((r, (c - 1) as usize)),
            c + 1 < columns ==> v@.contains((r, (c + 1) as usize)),
            r + 1 < rows && c > 0 ==> v@.contains(((r + 1) as usize, (c - 1) as usize)),
            r + 1 < rows ==> v@.contains(((r + 1) as usize, c)),
            r + 1 < rows && c + 1 < columns ==> v@.contains(((r + 1) as usize, (c + 1) as usize)),
    {
        proof {
            broadcast use vstd::seq_lib::lemma_seq_contains_after_push;
        }
        let mut v: Vec<(usize, usize)> = Vec::new();
        if r > 0 && c > 0 {
            v.push((r - 1, c - 1));
        }
        if r > 0 {
            v.push((r - 1, c));
        }
        if r > 0 && c + 1 < columns {
            v.push((r - 1, c + 1));
        }
        if c > 0 {
            v.push((r, c - 1));
        }
        if c + 1 < columns {
            v.push((r, c + 1));
        }
        if r + 1 < rows && c > 0 {
            v.push((r + 1, c - 1));
        }
        if r + 1 < rows {
            v.push((r + 1, c));
        }
        if r + 1 < rows && c + 1 < columns {
            v.push((r + 1, c + 1));
        }
        v
    }

    /// Clears the chosen safe cell and, from a zero label, flood-fills
    /// across untouched neighbors until no reached zero-labelled cell has
    /// an untouched neighbor left.
    #[verifier::rlimit(100)]
    fn flood_fill(
        &mut self,
        row: usize,
        column: usize,
        changed: &mut Vec<usize>,
        Ghost(base): Ghost<GameState>,
    )
        requires
            base == *old(self),
            old(self).grid_wf(),
            old(self).counts_wf(),
            old(self).status is Playing,
            forall|i: int|
                0 <= i < old(self).cells@.len() ==> !(is_cleared(#[trigger] old(self).cells@[i])
                    && is_mine(old(self).cells@[i])),
            row < old(self).rows,
            column < old(self).columns,
            old(self).cells@[flat(old(self).columns as int, row as int, column as int)].interaction
                is Untouched,
            !(old(self).cells@[flat(old(self).columns as int, row as int, column as int)].kind
                is Mine),
            old(changed)@.len() == 0,
        ensures
            flood_core(
                *final(self),
                base,
                flat(base.columns as int, row as int, column as int),
                Seq::<usize>::empty(),
                final(changed)@,
            ),
            ({
                let i0 = flat(base.columns as int, row as int, column as int);
                forall|a: int, b: int|
                    0 <= a < base.cells@.len() && 0 <= b < base.cells@.len() && (a == i0
                        || base.cells@[a].interaction is Untouched) && (
                    #[trigger] final(self).cells@[a]).interaction is Cleared
                        && final(self).cells@[a].kind == CellKind::Clear(0u8)
                        && #[trigger] idx_adjacent(base.columns as int, a, b)
                        ==> !(final(self).cells@[b].interaction is Untouched)
            }),
    {
        proof {
            lemma_flat_range(base.rows as int, base.columns as int, row as int, column as int);
        }
        let i0 = row * self.columns + column;
        let first = self.cells[i0];
        let ghost prev0 = self.cells@;
        let ghost ch0 = changed@;
        self.clear_cell(i0, &mut *changed);
        proof {
            lemma_changed_push(base.cells@, prev0, self.cells@, ch0, i0 as int);
            lemma_flooded_src(base.cells@, base.columns as int, i0 as int);
        }
        let mut work: Vec<usize> = Vec::new();
        if matches!(first.kind, CellKind::Clear(0)) {
            work.push(i0);
            proof {
                assert(work@[0] == i0);
            }
        }
        while work.len() > 0
            invariant
                flood_core(*self, base, i0 as int, work@, changed@),
                i0 as int == flat(base.columns as int, row as int, column as int),
                forall|a: int, b: int|
                    0 <= a < base.cells@.len() && 0 <= b < base.cells@.len() && (a == i0 as int
                        || base.cells@[a].interaction is Untouched) && (
                    #[trigger] self.cells@[a]).interaction is Cleared && self.cells@[a].kind
                        == CellKind::Clear(0u8) && #[trigger] idx_adjacent(
                        base.columns as int,
                        a,
                        b,
                    ) && self.cells@[b].interaction is Untouched ==> work@.contains(a as usize),
            decreases 9 * count_untouched(self.cells@) + work@.len(),
        {
            let ghost s0 = base.cells@;
            let ghost rows_i = base.rows as int;
            let ghost columns_i = base.columns as int;
            let ghost loop0_cells = self.cells@;
            let ghost loop0_work = work@;
            let j = work.pop().unwrap();
            let ghost work1 = work@;
            proof {
                assert(loop0_work[loop0_work.len() - 1] == j);
                lemma_idx_decompose(rows_i, columns_i, j as int);
            }
            let jr = j / self.columns;
            let jc = j % self.columns;
            let nb = Self::neighbor_coords(self.rows, self.columns, jr, jc);
            let mut t: usize = 0;
            while t < nb.len()
                invariant
                    t <= nb.len(),
                    flood_core(*self, base, i0 as int, work@, changed@),
                    forall|u: int|
                        0 <= u < nb@.len() ==> in_grid(
                            base.rows as int,
                            base.columns as int,
                            (#[trigger] nb@[u]).0 as int,
                            nb@[u].1 as int,
                        ) && is_neighbor(jr as int, jc as int, nb@[u].0 as int, nb@[u].1 as int),
                    jr < base.rows,
                    jc < base.columns,
                    j as int == flat(base.columns as int, jr as int, jc as int),
                    j < base.cells@.len(),
                    self.cells@[j as int].interaction is Cleared,
                    self.cells@[j as int].kind == CellKind::Clear(0u8),
                    flooded(base.cells@, base.columns as int, i0 as int, j as int),
                    forall|u: int|
                        0 <= u < t ==> !(self.cells@[flat(
                            base.columns as int,
                            (#[trigger] nb@[u]).0 as int,
                            nb@[u].1 as int,
                        )].interaction is Untouched),
                    forall|i: int|
                        0 <= i < base.cells@.len() && !((#[trigger] loop0_cells[i]).interaction
                            is Untouched) ==> self.cells@[i] == loop0_cells[i],
                    forall|i: int|
                        0 <= i < base.cells@.len() && (#[trigger] loop0_cells[i]).interaction
                            is Untouched && self.cells@[i].interaction is Cleared
                            && self.cells@[i].kind == CellKind::Clear(0u8) ==> work@.contains(
                            i as usize,
                        ),
                    forall|x: usize| work1.contains(x) ==> #[trigger] work@.contains(x),
                    9 * count_untouched(self.cells@) + work@.len() <= 9 * count_untouched(
                        loop0_cells,
                    ) + work1.len(),
                decreases nb@.len() - t,
            {
                let (nr, nc) = nb[t];
                let ghost mid_cells = self.cells@;
                let ghost mid_work = work@;
                self.flood_visit(jr, jc, nr, nc, &mut work, &mut *changed, Ghost(base), Ghost(i0 as int));
                proof {
                    let k = flat(base.columns as int, nr as int, nc as int);
                    lemma_flat_range(base.rows as int, base.columns as int, nr as int, nc as int);
                    assert forall|u: int| 0 <= u < t + 1 implies !(self.cells@[flat(
                        base.columns as int,
                        (#[trigger] nb@[u]).0 as int,
                        nb@[u].1 as int,
                    )].interaction is Untouched) by {
                        let ku = flat(base.columns as int, nb@[u].0 as int, nb@[u].1 as int);
                        lemma_flat_range(
                            base.rows as int,
                            base.columns as int,
                            nb@[u].0 as int,
                            nb@[u].1 as int,
                        );
                        if u < t && ku != k {
                            assert(self.cells@[ku] == mid_cells[ku]);
                        }
                    }
                    assert forall|i: int|
                        0 <= i < base.cells@.len() && (#[trigger] loop0_cells[i]).interaction
                            is Untouched && self.cells@[i].interaction is Cleared
                            && self.cells@[i].kind == CellKind::Clear(0u8) implies work@.contains(
                        i as usize,
                    ) by {
                        if i != k && mid_cells[i].interaction is Cleared {
                            assert(mid_work.contains(i as usize));
                        }
                    }
                }
                t = t + 1;
            }
            proof {
                lemma_count_if_bounds(self.cells@, |c: Cell| is_untouched(c));
                assert forall|b: int|
                    0 <= b < s0.len() && idx_adjacent(columns_i, j as int, b) implies !(
                self.cells@[b].interaction is Untouched) by {
                    lemma_neighbor_cases(rows_i, columns_i, jr as int, jc as int, b);
                    if b != j as int {
                        let (br, bc) = choose|br: int, bc: int|
                            in_grid(rows_i, columns_i, br, bc) && b == flat(columns_i, br, bc)
                                && nb@.contains(((br as usize, bc as usize)));
                        let u = choose|u: int| 0 <= u < nb@.len() && nb@[u] == (
                        br as usize,
                        bc as usize,
                        );
                        assert(!(self.cells@[flat(columns_i, nb@[u].0 as int, nb@[u].1 as int)].interaction
                            is Untouched));
                    }
                }
                assert forall|a: int, b: int|
                    0 <= a < s0.len() && 0 <= b < s0.len() && (a == i0 as int
                        || s0[a].interaction is Untouched) && (#[trigger] self.cells@[a]).interaction
                        is Cleared && self.cells@[a].kind == CellKind::Clear(0u8)
                        && #[trigger] idx_adjacent(columns_i, a, b)
                        && self.cells@[b].interaction is Untouched implies work@.contains(
                    a as usize,
                ) by {
                    if a == j as int {
                        assert(false);
                    } else if loop0_cells[a].interaction is Cleared {
                        assert(loop0_work.contains(a as usize));
                        let tt = choose|tt: int|
                            0 <= tt < loop0_work.len() && loop0_work[tt] == a as usize;
                        assert(tt != loop0_work.len() - 1);
                        assert(work1[tt] == a as usize);
                        assert(work1.contains(a as usize));
                        assert(work@.contains(a as usize));
                    }
                }
            }
        }
        proof {
            assert(work@ =~= Seq::<usize>::empty());
        }
    }

    /// Wins the game: sets the status and flags every mine that is not
    /// already flagged, so the final board shows all mines marked.
    #[verifier::loop_isolation(false)]
    #[verifier::rlimit(100)]
    fn win_mark(&mut self, changed: &mut Vec<usize>, Ghost(s0): Ghost<Seq<Cell>>)
        requires
            old(self).grid_wf(),
            old(self).counts_wf(),
            old(self).status is Playing,
            forall|i: int|
                0 <= i < old(self).cells@.len() ==> !(is_cleared(#[trigger] old(self).cells@[i])
                    && is_mine(old(self).cells@[i])),
            forall|i: int|
                0 <= i < old(self).cells@.len() ==> (is_safe(#[trigger] old(self).cells@[i])
                    ==> is_cleared(old(self).cells@[i])),
            s0.len() == old(self).cells@.len(),
            forall|i: int|
                0 <= i < s0.len() && (#[trigger] old(self).cells@[i]).interaction is Untouched
                    ==> old(self).cells@[i] == s0[i],
            old(changed)@.no_duplicates(),
            forall|t: int| 0 <= t < old(changed)@.len() ==> #[trigger] old(changed)@[t] < s0.len(),
            forall|i: int|
                0 <= i < s0.len() ==> ((#[trigger] old(self).cells@[i]) != s0[i]
                    <==> old(changed)@.contains(i as usize)),
        ensures
            final(self).wf(),
            final(self).rows == old(self).rows,
            final(self).columns == old(self).columns,
            final(self).mine_count == old(self).mine_count,
            final(self).elapsed == old(self).elapsed,
            final(self).cleared_count == old(self).cleared_count,
            final(self).status is Won,
            final(self).cells@.len() == old(self).cells@.len(),
            forall|i: int|
                0 <= i < old(self).cells@.len() ==> #[trigger] final(self).cells@[i] == (if old(
                    self,
                ).cells@[i].kind is Mine && old(self).cells@[i].interaction is Untouched {
                    flagged_version(old(self).cells@[i])
                } else {
                    old(self).cells@[i]
                }),
            final(changed)@.no_duplicates(),
            forall|t: int| 0 <= t < final(changed)@.len() ==> #[trigger] final(changed)@[t]
                < s0.len(),
            forall|i: int|
                0 <= i < s0.len() ==> ((#[trigger] final(self).cells@[i]) != s0[i]
                    <==> final(changed)@.contains(i as usize)),
    {
        let ghost rows_i = old(self).rows as int;
        let ghost columns_i = old(self).columns as int;
        let ghost s2 = old(self).cells@;
        let total = self.rows * self.columns;
        self.status = Status::Won;
        let mut i: usize = 0;
        while i < total
            invariant
                i <= total,
                self.rows == old(self).rows,
                self.columns == old(self).columns,
                self.mine_count == old(self).mine_count,
                self.cleared_count == old(self).cleared_count,
                self.elapsed == old(self).elapsed,
                self.status is Won,
                self.cells@.len() == s2.len(),
                forall|t: int| 0 <= t < s2.len() ==> (#[trigger] self.cells@[t]).kind == s2[t].kind,
                self.cleared_count == count_cleared(self.cells@),
                self.flagged_count == count_flagged(self.cells@),
                changed@.no_duplicates(),
                forall|t: int| 0 <= t < changed@.len() ==> #[trigger] changed@[t] < s0.len(),
                forall|t: int|
                    0 <= t < s0.len() ==> ((#[trigger] self.cells@[t]) != s0[t]
                        <==> changed@.contains(t as usize)),
                forall|t: int|
                    0 <= t < i ==> #[trigger] self.cells@[t] == (if s2[t].kind is Mine
                        && s2[t].interaction is Untouched {
                        flagged_version(s2[t])
                    } else {
                        s2[t]
                    }),
                forall|t: int| i <= t < s2.len() ==> #[trigger] self.cells@[t] == s2[t],
            decreases total - i,
        {
            let cellt = self.cells[i];
            if matches!(cellt.kind, CellKind::Mine) && matches!(
                cellt.interaction,
                CellInteraction::Untouched,
            ) {
                let ghost prev = self.cells@;
                let ghost chp = changed@;
                proof {
                    assert(prev[i as int] == s0[i as int]);
                }
                self.flag_cell(i, &mut *changed);
                proof {
                    lemma_changed_push(s0, prev, self.cells@, chp, i as int);
                }
            }
            i = i + 1;
        }
        proof {
            lemma_labels_preserved(s2, self.cells@, rows_i, columns_i);
            lemma_count_if_pointwise(s2, self.cells@, |c: Cell| is_mine(c));
        }
    }

    /// The safe half of a dig: clears the chosen cell, flood-fills from a
    /// zero label, and on completing the board wins the game and flags the
    /// remaining mines.
    #[verifier::rlimit(100)]
    fn dig_safe(&mut self, row: usize, column: usize) -> (changed: Vec<usize>)
        requires
            old(self).grid_wf(),
            old(self).counts_wf(),
            old(self).status is Playing,
            forall|i: int|
                0 <= i < old(self).cells@.len() ==> !(is_cleared(#[trigger] old(self).cells@[i])
                    && is_mine(old(self).cells@[i])),
            row < old(self).rows,
            column < old(self).columns,
            old(self).cells@[flat(old(self).columns as int, row as int, column as int)].interaction
                is Untouched,
            !(old(self).cells@[flat(old(self).columns as int, row as int, column as int)].kind
                is Mine),
        ensures
            final(self).grid_wf(),
            final(self).counts_wf(),
            final(self).rows == old(self).rows,
            final(self).columns == old(self).columns,
            final(self).mine_count == old(self).mine_count,
            final(self).elapsed == old(self).elapsed,
            final(self).cells@.len() == old(self).cells@.len(),
            final(self).status is Won || final(self).status is Playing,
            final(self).status is Playing ==> count_cleared(final(self).cells@)
                < final(self).total() - final(self).mine_count,
            forall|i: int|
                0 <= i < old(self).cells@.len() ==> !(is_cleared(#[trigger] final(self).cells@[i])
                    && is_mine(final(self).cells@[i])),
            final(self).status is Won ==> (forall|i: int|
                0 <= i < final(self).cells@.len() ==> (is_safe(#[trigger] final(self).cells@[i])
                    ==> is_cleared(final(self).cells@[i])) && (is_mine(final(self).cells@[i])
                    ==> is_flagged(final(self).cells@[i]))),
            changed@.no_duplicates(),
            forall|t: int| 0 <= t < changed@.len() ==> #[trigger] changed@[t] < old(
                self,
            ).cells@.len(),
            forall|i: int|
                0 <= i < old(self).cells@.len() ==> ((#[trigger] final(self).cells@[i]) != old(
                    self,
                ).cells@[i] <==> changed@.contains(i as usize)),
            (final(self).status is Won <==> (forall|i: int|
                0 <= i < old(self).cells@.len() && is_safe(#[trigger] old(self).cells@[i])
                    ==> is_cleared(final(self).cells@[i]))),
            forall|i: int|
                0 <= i < old(self).cells@.len() ==> #[trigger] final(self).cells@[i]
                    == flood_result_cell(
                    old(self).cells@,
                    old(self).columns as int,
                    flat(old(self).columns as int, row as int, column as int),
                    final(self).status is Won,
                    i,
                ),
    {
        let ghost rows_i = old(self).rows as int;
        let ghost columns_i = old(self).columns as int;
        let ghost s0 = old(self).cells@;
        let ghost base = *old(self);
        proof {
            lemma_flat_range(rows_i, columns_i, row as int, column as int);
        }
        let ghost i0 = flat(columns_i, row as int, column as int);
        let total = self.rows * self.columns;
        let mut changed: Vec<usize> = Vec::new();
        self.flood_fill(row, column, &mut changed, Ghost(base));
        proof {
            assert forall|i: int|
                0 <= i < s0.len() && flooded(s0, columns_i, i0, i) implies (
            #[trigger] self.cells@[i]).interaction is Cleared by {
                lemma_flooded_cleared(s0, self.cells@, columns_i, i0, i);
            }
            lemma_count_if_pointwise(s0, self.cells@, |c: Cell| is_mine(c));
            lemma_labels_preserved(s0, self.cells@, rows_i, columns_i);
            lemma_count_if_complement(self.cells@, |c: Cell| is_mine(c), |c: Cell| is_safe(c));
        }
        if self.cleared_count == total - self.mine_count {
            proof {
                lemma_count_if_subset_full(
                    self.cells@,
                    |c: Cell| is_cleared(c),
                    |c: Cell| is_safe(c),
                );
            }
            let ghost s2 = self.cells@;
            self.win_mark(&mut changed, Ghost(s0));
            proof {
                assert forall|i: int| 0 <= i < s0.len() implies #[trigger] self.cells@[i]
                    == flood_result_cell(s0, columns_i, i0, true, i) by {
                    if s0[i].kind is Mine {
                        assert(s2[i].kind == s0[i].kind);
                        if s0[i].interaction is Untouched {
                            assert(s2[i].interaction is Untouched || s2[i].interaction
                                is Cleared);
                            assert(!(is_cleared(s2[i]) && is_mine(s2[i])));
                            assert(s2[i] == s0[i]);
                        } else {
                            assert(s2[i] == s0[i]);
                        }
                    } else {
                        assert(self.cells@[i] == s2[i]);
                    }
                }
            }
        } else {
            proof {
                lemma_count_if_le(self.cells@, |c: Cell| is_cleared(c), |c: Cell| is_safe(c));
                if forall|i: int|
                    0 <= i < s0.len() && is_safe(#[trigger] s0[i]) ==> is_cleared(
                        self.cells@[i],
                    ) {
                    lemma_count_if_le(self.cells@, |c: Cell| is_safe(c), |c: Cell| is_cleared(c));
                    assert(false);
                }
                assert forall|i: int| 0 <= i < s0.len() implies #[trigger] self.cells@[i]
                    == flood_result_cell(s0, columns_i, i0, false, i) by {
                    if s0[i].kind is Mine {
                        if s0[i].interaction is Untouched {
                            assert(!(is_cleared(self.cells@[i]) && is_mine(self.cells@[i])));
                        }
                    }
                }
            }
        }
        changed
    }
}


impl GameState {
    /// Digs at a cell. Once the game is over, or on a cell no longer
    /// untouched, this is a no-op. Digging a mine loses the game and
    /// uncovers every unflagged mine. Digging a safe cell clears it and,
    /// from a zero-labelled cell, flood-fills across untouched neighbors;
    /// when every safe cell is cleared the game is won and the remaining
    /// mines are flagged for display. The returned list holds each changed
    /// cell exactly once.
    #[verifier::rlimit(100)]
    pub fn dig(&mut self, row: usize, column: usize) -> (changed: Vec<usize>)
        requires
            old(self).wf(),
            row < old(self).rows,
            column < old(self).columns,
        ensures
            final(self).wf(),
            final(self).rows == old(self).rows,
            final(self).columns == old(self).columns,
            final(self).mine_count == old(self).mine_count,
            final(self).elapsed == old(self).elapsed,
            final(self).cells@.len() == old(self).cells@.len(),
            forall|i: int|
                0 <= i < old(self).cells@.len() ==> (#[trigger] final(self).cells@[i]).kind == old(
                    self,
                ).cells@[i].kind,
            changed@.no_duplicates(),
            forall|t: int| 0 <= t < changed@.len() ==> #[trigger] changed@[t] < old(
                self,
            ).cells@.len(),
            forall|i: int|
                0 <= i < old(self).cells@.len() ==> ((#[trigger] final(self).cells@[i]) != old(
                    self,
                ).cells@[i] <==> changed@.contains(i as usize)),
            ({
                let i0 = flat(old(self).columns as int, row as int, column as int);
                let s0 = old(self).cells@;
                if !dig_eligible(*old(self), i0) {
                    &&& final(self).cells@ == s0
                    &&& final(self).status == old(self).status
                    &&& final(self).cleared_count == old(self).cleared_count
                    &&& final(self).flagged_count == old(self).flagged_count
                } else if s0[i0].kind is Mine {
                    &&& final(self).status is Lost
                    &&& final(self).flagged_count == old(self).flagged_count
                    &&& forall|i: int|
                        0 <= i < s0.len() ==> #[trigger] final(self).cells@[i] == loss_result_cell(
                            s0,
                            i0,
                            i,
                        )
                } else {
                    &&& (final(self).status is Won || final(self).status is Playing)
                    &&& (final(self).status is Won <==> (forall|i: int|
                        0 <= i < s0.len() && is_safe(#[trigger] s0[i]) ==> is_cleared(
                            final(self).cells@[i],
                        )))
                    &&& forall|i: int|
                        0 <= i < s0.len() ==> #[trigger] final(self).cells@[i] == flood_result_cell(
                            s0,
                            old(self).columns as int,
                            i0,
                            final(self).status is Won,
                            i,
                        )
                }
            }),
    {
        proof {
            lemma_flat_range(old(self).rows as int, old(self).columns as int, row as int, column as int);
        }
        let i0 = row * self.columns + column;
        if matches!(self.status, Status::Won | Status::Lost) {
            let changed: Vec<usize> = Vec::new();
            return changed;
        }
        let first = self.cells[i0];
        if !matches!(first.interaction, CellInteraction::Untouched) {
            let changed: Vec<usize> = Vec::new();
            return changed;
        }
        if matches!(self.status, Status::NotStarted) {
            self.status = Status::Playing;
        }
        if matches!(first.kind, CellKind::Mine) {
            self.dig_mine(i0)
        } else {
            self.dig_safe(row, column)
        }
    }
}

} // verus!
