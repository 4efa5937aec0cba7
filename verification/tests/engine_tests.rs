use minesweeper_engine::{CellInteraction, CellKind, GameError, GameParams, GameState, Status};

fn params(rows: usize, columns: usize, mine_count: usize) -> GameParams {
    GameParams { rows, columns, mine_count }
}

fn board_with_mines(rows: usize, columns: usize, mines: Vec<usize>) -> GameState {
    let p = params(rows, columns, mines.len());
    GameState::from_mines(p, &mines)
}

fn count_kind_mine(g: &GameState) -> usize {
    let (rows, columns) = g.dimensions();
    let mut n = 0;
    for r in 0..rows {
        for c in 0..columns {
            if matches!(g.cell_state(r, c).1, CellKind::Mine) {
                n += 1;
            }
        }
    }
    n
}

fn count_interaction(g: &GameState, want: CellInteraction) -> usize {
    let (rows, columns) = g.dimensions();
    let mut n = 0;
    for r in 0..rows {
        for c in 0..columns {
            if g.cell_state(r, c).0 == want {
                n += 1;
            }
        }
    }
    n
}

#[test]
fn single_safe_cell_wins_immediately() {
    let mut g = board_with_mines(1, 1, vec![]);
    assert_eq!(g.cell_state(0, 0), (CellInteraction::Untouched, CellKind::Clear(0)));
    assert_eq!(g.status, Status::NotStarted);
    let changed = g.dig(0, 0);
    assert_eq!(g.status, Status::Won);
    assert_eq!(g.cleared_count, 1);
    assert_eq!(changed, vec![0]);
}

#[test]
fn full_board_of_mines_is_rejected() {
    let result = GameState::new(params(2, 2, 4));
    assert!(matches!(result, Err(GameError::InvalidParameters)));
}

#[test]
fn zero_rows_or_columns_are_rejected() {
    assert!(matches!(GameState::new(params(0, 3, 0)), Err(GameError::InvalidParameters)));
    assert!(matches!(GameState::new(params(3, 0, 0)), Err(GameError::InvalidParameters)));
}

#[test]
fn maximal_mine_count_is_accepted() {
    let g = GameState::new(params(2, 2, 3)).unwrap();
    assert_eq!(count_kind_mine(&g), 3);
}

#[test]
fn numbered_cell_does_not_flood() {
    // mines in opposite corners of a 3x3 board; the center counts both
    let mut g = board_with_mines(3, 3, vec![0, 8]);
    assert_eq!(g.cell_state(1, 1).1, CellKind::Clear(2));
    let changed = g.dig(1, 1);
    assert_eq!(changed, vec![4]);
    assert_eq!(g.status, Status::Playing);
    assert_eq!(g.cell_state(1, 1).0, CellInteraction::Cleared);
    assert_eq!(g.cell_state(0, 1).0, CellInteraction::Untouched);
    assert_eq!(count_interaction(&g, CellInteraction::Cleared), 1);
}

#[test]
fn adjacency_labels_are_exact() {
    // one mine at the center of a 3x3 board: every other cell counts it once
    let g = board_with_mines(3, 3, vec![4]);
    for r in 0..3 {
        for c in 0..3 {
            if r == 1 && c == 1 {
                assert_eq!(g.cell_state(r, c).1, CellKind::Mine);
            } else {
                assert_eq!(g.cell_state(r, c).1, CellKind::Clear(1));
            }
        }
    }
}

#[test]
fn flagged_cell_cannot_be_dug() {
    let mut g = board_with_mines(2, 2, vec![3]);
    assert!(g.flag(0, 0));
    let changed = g.dig(0, 0);
    assert!(changed.is_empty());
    assert_eq!(g.cell_state(0, 0).0, CellInteraction::Flagged);
    assert_eq!(g.status, Status::NotStarted);
    assert!(g.flag(0, 0));
    assert_eq!(g.cell_state(0, 0).0, CellInteraction::Untouched);
    let changed = g.dig(0, 0);
    assert_eq!(changed, vec![0]);
    assert_eq!(g.cell_state(0, 0).0, CellInteraction::Cleared);
}

#[test]
fn flood_fill_clears_connected_region() {
    // a single mine in a corner of a 4x4 board: digging the far corner
    // floods every safe cell and wins
    let mut g = board_with_mines(4, 4, vec![0]);
    let changed = g.dig(3, 3);
    assert_eq!(g.status, Status::Won);
    assert_eq!(g.cleared_count, 15);
    assert_eq!(changed.len(), 16); // 15 cleared cells plus the flagged mine
    assert_eq!(g.cell_state(0, 0).0, CellInteraction::Flagged);
    assert_eq!(count_interaction(&g, CellInteraction::Cleared), 15);
}

#[test]
fn flood_fill_stops_at_numbered_frontier() {
    // a 1x6 strip with a mine at column 4: digging the left end floods up
    // to the numbered cell at column 3 and leaves the far side untouched
    let mut g = board_with_mines(1, 6, vec![4]);
    g.dig(0, 0);
    assert_eq!(g.status, Status::Playing);
    for c in 0..4 {
        assert_eq!(g.cell_state(0, c).0, CellInteraction::Cleared);
    }
    assert_eq!(g.cell_state(0, 3).1, CellKind::Clear(1));
    assert_eq!(g.cell_state(0, 4).0, CellInteraction::Untouched);
    assert_eq!(g.cell_state(0, 5).0, CellInteraction::Untouched);
    assert_eq!(g.cleared_count, 4);
}

#[test]
fn flood_fill_skips_flagged_cells() {
    // no mines at all: flagging one cell keeps it out of the flood
    let mut g = board_with_mines(3, 3, vec![]);
    g.flag(0, 2);
    g.dig(2, 0);
    assert_eq!(g.cell_state(0, 2).0, CellInteraction::Flagged);
    assert_eq!(g.status, Status::Playing);
    assert_eq!(g.cleared_count, 8);
}

#[test]
fn digging_a_mine_loses_and_reveals_unflagged_mines() {
    let mut g = board_with_mines(2, 2, vec![0, 3]);
    g.flag(1, 1);
    let changed = g.dig(0, 0);
    assert_eq!(g.status, Status::Lost);
    assert_eq!(g.cell_state(0, 0).0, CellInteraction::Cleared);
    assert_eq!(g.cell_state(1, 1).0, CellInteraction::Flagged);
    assert_eq!(g.cell_state(0, 1).0, CellInteraction::Untouched);
    assert_eq!(g.cell_state(1, 0).0, CellInteraction::Untouched);
    assert_eq!(changed, vec![0]);
}

#[test]
fn loss_reveals_every_unflagged_mine() {
    let mut g = board_with_mines(3, 3, vec![0, 4, 8]);
    g.dig(1, 1);
    assert_eq!(g.status, Status::Lost);
    assert_eq!(g.cell_state(0, 0).0, CellInteraction::Cleared);
    assert_eq!(g.cell_state(1, 1).0, CellInteraction::Cleared);
    assert_eq!(g.cell_state(2, 2).0, CellInteraction::Cleared);
    assert_eq!(g.cell_state(0, 1).0, CellInteraction::Untouched);
}

#[test]
fn operations_are_noops_after_the_game_ends() {
    let mut g = board_with_mines(2, 2, vec![0]);
    g.dig(0, 0);
    assert_eq!(g.status, Status::Lost);
    assert!(g.dig(1, 1).is_empty());
    assert!(!g.flag(1, 1));
    assert_eq!(g.cell_state(1, 1).0, CellInteraction::Untouched);
    assert_eq!(g.status, Status::Lost);
}

#[test]
fn flag_updates_remaining_mine_estimate() {
    let mut g = board_with_mines(3, 3, vec![0, 4]);
    assert_eq!(g.info().mines_remaining, 2);
    assert!(g.flag(0, 0));
    assert_eq!(g.flagged_count, 1);
    assert_eq!(g.info().mines_remaining, 1);
    assert!(g.flag(2, 2));
    assert!(g.flag(2, 1));
    assert_eq!(g.info().mines_remaining, -1);
    assert!(g.flag(2, 2));
    assert_eq!(g.info().mines_remaining, 0);
}

#[test]
fn flagging_a_cleared_cell_is_a_noop() {
    let mut g = board_with_mines(2, 2, vec![0]);
    g.dig(1, 1);
    assert!(!g.flag(1, 1));
    assert_eq!(g.cell_state(1, 1).0, CellInteraction::Cleared);
}

#[test]
fn timer_runs_only_while_playing() {
    let mut g = board_with_mines(3, 3, vec![0, 8]);
    g.tick();
    assert_eq!(g.elapsed, 0); // not started yet
    g.dig(1, 1);
    assert_eq!(g.status, Status::Playing);
    g.tick();
    g.tick();
    assert_eq!(g.elapsed, 2);
    g.dig(0, 0); // lose
    assert_eq!(g.status, Status::Lost);
    g.tick();
    assert_eq!(g.elapsed, 2); // frozen after the loss
    assert_eq!(g.info().elapsed_time, 2);
}

#[test]
fn reset_restores_a_fresh_board() {
    let mut g = board_with_mines(3, 3, vec![0, 4]);
    g.dig(2, 2);
    g.flag(0, 0);
    g.tick();
    g.reset();
    assert_eq!(g.status, Status::NotStarted);
    assert_eq!(g.elapsed, 0);
    assert_eq!(g.cleared_count, 0);
    assert_eq!(g.flagged_count, 0);
    assert_eq!(count_interaction(&g, CellInteraction::Untouched), 9);
    // the mine count is preserved even though the layout may change
    assert_eq!(count_kind_mine(&g), 2);
}

#[test]
fn random_boards_hold_exactly_the_requested_mines() {
    for mine_count in [0usize, 1, 4, 11] {
        let g = GameState::new(params(3, 4, mine_count)).unwrap();
        assert_eq!(count_kind_mine(&g), mine_count);
        assert_eq!(count_interaction(&g, CellInteraction::Untouched), 12);
        assert_eq!(g.status, Status::NotStarted);
    }
}

#[test]
fn win_flags_remaining_mines() {
    let mut g = board_with_mines(2, 2, vec![0]);
    g.dig(0, 1);
    g.dig(1, 0);
    assert_eq!(g.status, Status::Playing);
    let changed = g.dig(1, 1);
    assert_eq!(g.status, Status::Won);
    assert_eq!(g.cell_state(0, 0).0, CellInteraction::Flagged);
    assert_eq!(g.flagged_count, 1);
    assert_eq!(changed, vec![3, 0]);
    assert!(g.new_game_allowed());
}

#[test]
fn interaction_counts_always_partition_the_board() {
    let mut g = board_with_mines(3, 3, vec![0, 4]);
    let total = 9;
    for (r, c) in [(2, 2), (0, 1), (1, 0)] {
        g.dig(r, c);
        g.flag(0, 0);
        let sum = count_interaction(&g, CellInteraction::Untouched)
            + count_interaction(&g, CellInteraction::Cleared)
            + count_interaction(&g, CellInteraction::Flagged);
        assert_eq!(sum, total);
        g.flag(0, 0);
    }
}

#[test]
fn changed_lists_report_each_cell_once() {
    let mut g = board_with_mines(3, 3, vec![0]);
    let changed = g.dig(2, 2);
    let mut seen = changed.clone();
    seen.sort();
    seen.dedup();
    assert_eq!(seen.len(), changed.len());
    for &i in &changed {
        assert!(i < 9);
    }
    // a second dig at the same cell changes nothing
    assert!(g.dig(2, 2).is_empty());
}
