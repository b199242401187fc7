use tetris_core::bag::PieceBag;
use tetris_core::board::{Cell, BOARD_WIDTH};
use tetris_core::game::{Game, InputCommand};
use tetris_core::pieces::{Piece, PieceKind};

fn fill_game_row(g: &mut Game, y: usize) {
    for x in 0..BOARD_WIDTH {
        g.board.set_cell(x, y, Cell::Filled(PieceKind::L));
    }
}

#[test]
fn bag_windows_of_seven_are_fair() {
    let mut bag = PieceBag::new();
    let mut draws: Vec<PieceKind> = Vec::new();
    for _ in 0..14 {
        draws.push(bag.next());
    }
    let kinds = [
        PieceKind::I,
        PieceKind::O,
        PieceKind::T,
        PieceKind::S,
        PieceKind::Z,
        PieceKind::J,
        PieceKind::L,
    ];
    for w in 0..2 {
        let window = &draws[7 * w..7 * w + 7];
        for &k in kinds.iter() {
            assert_eq!(window.iter().filter(|&&d| d == k).count(), 1);
        }
    }
}

#[test]
fn bag_never_runs_dry() {
    let mut bag = PieceBag::new();
    for _ in 0..30 {
        bag.next();
        assert!(bag.len() >= 2);
    }
}

#[test]
fn clearing_four_lines_at_level_three_scores_2400() {
    let mut g = Game::new();
    g.lines_cleared = 20;
    g.level = 3;
    for y in 36..40 {
        fill_game_row(&mut g, y);
    }
    let before = g.score;
    g.clear_lines();
    assert_eq!(g.score - before, 2400);
    assert_eq!(g.lines_cleared, 24);
    assert_eq!(g.level, 3);
}

#[test]
fn level_is_one_plus_lines_div_ten() {
    let mut g = Game::new();
    g.lines_cleared = 22;
    g.level = 3;
    fill_game_row(&mut g, 39);
    g.clear_lines();
    assert_eq!(g.lines_cleared, 23);
    assert_eq!(g.level, 3);

    let mut g2 = Game::new();
    g2.lines_cleared = 9;
    g2.level = 1;
    fill_game_row(&mut g2, 39);
    g2.clear_lines();
    assert_eq!(g2.lines_cleared, 10);
    assert_eq!(g2.level, 2);
}

#[test]
fn single_line_clear_scores_100_times_level() {
    let mut g = Game::new();
    fill_game_row(&mut g, 39);
    let before = g.score;
    g.clear_lines();
    assert_eq!(g.score - before, 100);
    assert_eq!(g.lines_cleared, 1);
}

#[test]
fn hard_drop_six_rows_awards_ten_points_and_locks() {
    let mut g = Game::new();
    // An O piece on the empty board rests at y = 38; start it 6 rows above.
    g.current_piece = Some(Piece { piece_type: PieceKind::O, x: 5, y: 32, rotation: 0 });
    let before = g.score;
    g.hard_drop();
    assert_eq!(g.score - before, 10);
    // Locked at the resting position.
    assert!(g.board.is_occupied(6, 38));
    assert!(g.board.is_occupied(7, 38));
    assert!(g.board.is_occupied(6, 39));
    assert!(g.board.is_occupied(7, 39));
    // The next piece spawned immediately.
    assert!(g.current_piece.is_some());
    assert!(!g.game_over);
}

#[test]
fn hard_drop_when_already_resting_scores_nothing() {
    let mut g = Game::new();
    g.current_piece = Some(Piece { piece_type: PieceKind::O, x: 5, y: 38, rotation: 0 });
    let before = g.score;
    g.hard_drop();
    assert_eq!(g.score, before);
    assert!(g.board.is_occupied(6, 39));
}

#[test]
fn rotation_kick_takes_first_open_offset() {
    let mut g = Game::new();
    // T at the spawn rotation, near the right wall; block the in-place
    // rotation so the (-1, 0) kick is the first that fits.
    g.current_piece = Some(Piece { piece_type: PieceKind::T, x: 22, y: 10, rotation: 0 });
    g.board.set_cell(24, 11, Cell::Filled(PieceKind::I));
    assert!(g.rotate_piece(true));
    let p = g.current_piece.unwrap();
    assert_eq!(p.rotation, 1);
    assert_eq!((p.x, p.y), (21, 10));
}

#[test]
fn rotation_without_obstruction_stays_in_place() {
    let mut g = Game::new();
    g.current_piece = Some(Piece { piece_type: PieceKind::T, x: 10, y: 10, rotation: 0 });
    assert!(g.rotate_piece(true));
    let p = g.current_piece.unwrap();
    assert_eq!(p.rotation, 1);
    assert_eq!((p.x, p.y), (10, 10));
    assert!(g.rotate_piece(false));
    let p2 = g.current_piece.unwrap();
    assert_eq!(p2.rotation, 0);
}

#[test]
fn blocked_rotation_returns_false_and_changes_nothing() {
    let mut g = Game::new();
    g.current_piece = Some(Piece { piece_type: PieceKind::I, x: 5, y: 36, rotation: 0 });
    // Wall off every kick target below and beside the row.
    for x in 0..BOARD_WIDTH {
        for y in 30..36 {
            g.board.set_cell(x, y, Cell::Filled(PieceKind::J));
        }
        for y in 38..40 {
            g.board.set_cell(x, y, Cell::Filled(PieceKind::J));
        }
    }
    let before = g.current_piece.unwrap();
    assert!(!g.rotate_piece(true));
    assert_eq!(g.current_piece.unwrap(), before);
}

#[test]
fn spawn_collision_sets_game_over_and_leaves_board() {
    let mut g = Game::new();
    for y in 0..4 {
        fill_game_row(&mut g, y);
    }
    g.current_piece = None;
    g.spawn_piece();
    assert!(g.game_over);
    for y in 0..4 {
        for x in 0..BOARD_WIDTH {
            assert!(g.board.is_occupied(x as i32, y as i32));
        }
    }
    assert!(g.current_piece.is_none());
}

#[test]
fn hold_stores_then_swaps() {
    let mut g = Game::new();
    let first = g.current_piece.unwrap().piece_type;
    g.hold_piece();
    assert_eq!(g.hold_piece, Some(first));
    assert!(!g.can_hold);
    let second = g.current_piece.unwrap().piece_type;
    // A second hold in the same piece lifetime is a no-op.
    g.hold_piece();
    assert_eq!(g.hold_piece, Some(first));
    assert_eq!(g.current_piece.unwrap().piece_type, second);
    // After a lock the hold is allowed again, and swaps.
    g.hard_drop();
    assert!(g.can_hold);
    let third = g.current_piece.unwrap().piece_type;
    g.hold_piece();
    assert_eq!(g.hold_piece, Some(third));
    assert_eq!(g.current_piece.unwrap().piece_type, first);
    assert_eq!(g.current_piece.unwrap().y, 0);
}

#[test]
fn soft_drop_scores_one_point_and_moves() {
    let mut g = Game::new();
    g.current_piece = Some(Piece { piece_type: PieceKind::O, x: 5, y: 10, rotation: 0 });
    let before = g.score;
    g.handle_input(InputCommand::SoftDrop, 1000);
    assert_eq!(g.score - before, 1);
    assert_eq!(g.current_piece.unwrap().y, 11);
}

#[test]
fn movement_commands_respect_repeat_gate() {
    let mut g = Game::new();
    g.current_piece = Some(Piece { piece_type: PieceKind::O, x: 5, y: 10, rotation: 0 });
    g.handle_input(InputCommand::MoveRight, 1000);
    assert_eq!(g.current_piece.unwrap().x, 6);
    // 100 ms later: inside the 150 ms window, ignored.
    g.handle_input(InputCommand::MoveRight, 1100);
    assert_eq!(g.current_piece.unwrap().x, 6);
    // 150 ms after the accepted one: accepted again.
    g.handle_input(InputCommand::MoveRight, 1150);
    assert_eq!(g.current_piece.unwrap().x, 7);
}

#[test]
fn rotation_is_edge_triggered_not_gated() {
    let mut g = Game::new();
    g.current_piece = Some(Piece { piece_type: PieceKind::T, x: 10, y: 10, rotation: 0 });
    // Two rotations at the same instant both apply: no repeat gate.
    g.handle_input(InputCommand::RotateCW, 50);
    g.handle_input(InputCommand::RotateCW, 50);
    assert_eq!(g.current_piece.unwrap().rotation, 2);
}

#[test]
fn commands_are_ignored_after_game_over_except_pause() {
    let mut g = Game::new();
    g.game_over = true;
    let p = g.current_piece.unwrap();
    let score = g.score;
    g.handle_input(InputCommand::HardDrop, 1000);
    g.handle_input(InputCommand::MoveLeft, 2000);
    g.handle_input(InputCommand::Hold, 3000);
    assert_eq!(g.current_piece.unwrap(), p);
    assert_eq!(g.score, score);
    assert!(g.hold_piece.is_none());
    g.handle_input(InputCommand::TogglePause, 4000);
    assert!(g.paused);
}

#[test]
fn pause_freezes_everything_but_unpause() {
    let mut g = Game::new();
    let p = g.current_piece.unwrap();
    g.handle_input(InputCommand::TogglePause, 10);
    assert!(g.paused);
    g.handle_input(InputCommand::MoveLeft, 500);
    g.update(2000, 2000);
    assert_eq!(g.current_piece.unwrap(), p);
    assert_eq!(g.fall_timer, 0);
    g.handle_input(InputCommand::TogglePause, 3000);
    assert!(!g.paused);
}

#[test]
fn gravity_moves_piece_after_fall_delay() {
    let mut g = Game::new();
    g.current_piece = Some(Piece { piece_type: PieceKind::O, x: 5, y: 10, rotation: 0 });
    assert_eq!(g.get_fall_delay(), 1000);
    g.update(100, 400);
    assert_eq!(g.current_piece.unwrap().y, 10);
    assert_eq!(g.fall_timer, 400);
    g.update(700, 600);
    assert_eq!(g.current_piece.unwrap().y, 11);
    assert_eq!(g.fall_timer, 0);
}

#[test]
fn fall_delay_speeds_up_with_level_and_floors() {
    let mut g = Game::new();
    assert_eq!(g.get_fall_delay(), 1000);
    g.lines_cleared = 30;
    g.level = 4;
    assert_eq!(g.get_fall_delay(), 850);
    g.lines_cleared = 250;
    g.level = 26;
    assert_eq!(g.get_fall_delay(), 50);
}

#[test]
fn grounded_piece_locks_after_lock_delay() {
    let mut g = Game::new();
    g.current_piece = Some(Piece { piece_type: PieceKind::O, x: 5, y: 38, rotation: 0 });
    // A failed downward move grounds the piece.
    assert!(!g.move_piece(0, 1, 1000));
    assert_eq!(g.lock_delay, Some(1000));
    // Before the 500 ms delay elapses nothing locks.
    g.update(1400, 0);
    assert!(g.lock_delay.is_some());
    assert!(!g.board.is_occupied(6, 39));
    // Once it elapses the piece is fused and the next one spawns.
    g.update(1500, 0);
    assert!(g.board.is_occupied(6, 39));
    assert_eq!(g.current_piece.unwrap().y, 0);
}

#[test]
fn successful_lateral_move_keeps_lock_delay_downward_clears_it() {
    let mut g = Game::new();
    g.current_piece = Some(Piece { piece_type: PieceKind::O, x: 5, y: 38, rotation: 0 });
    assert!(!g.move_piece(0, 1, 1000));
    assert_eq!(g.lock_delay, Some(1000));
    assert!(g.move_piece(1, 0, 1100));
    assert_eq!(g.lock_delay, Some(1000));
    // Move the piece up (test-only situation) and descend: lock clears.
    g.current_piece = Some(Piece { piece_type: PieceKind::O, x: 5, y: 10, rotation: 0 });
    assert!(g.move_piece(0, 1, 1200));
    assert_eq!(g.lock_delay, None);
}

#[test]
fn ghost_piece_projects_to_floor() {
    let mut g = Game::new();
    g.current_piece = Some(Piece { piece_type: PieceKind::O, x: 5, y: 10, rotation: 0 });
    let ghost = g.get_ghost_piece().unwrap();
    assert_eq!(ghost.y, 38);
    assert_eq!(ghost.x, 5);
    // A stack below raises the resting row.
    g.board.set_cell(6, 30, Cell::Filled(PieceKind::T));
    let ghost2 = g.get_ghost_piece().unwrap();
    assert_eq!(ghost2.y, 28);
}

#[test]
fn display_board_overlays_ghost_and_piece() {
    let mut g = Game::new();
    g.current_piece = Some(Piece { piece_type: PieceKind::O, x: 5, y: 10, rotation: 0 });
    let d = g.create_display_board();
    // Live piece cells are filled in the display.
    assert_eq!(d[10][6], Cell::Filled(PieceKind::O));
    assert_eq!(d[11][7], Cell::Filled(PieceKind::O));
    // Ghost marker at the projected resting cells.
    assert_eq!(d[38][6], Cell::Shadow);
    assert_eq!(d[39][7], Cell::Shadow);
    // The stored board itself holds no shadow cells.
    assert_eq!(g.board.get_cell(6, 38), Cell::Empty);
    // In-between cells stay empty.
    assert_eq!(d[20][6], Cell::Empty);
}

#[test]
fn display_board_omits_ghost_when_piece_rests() {
    let mut g = Game::new();
    g.current_piece = Some(Piece { piece_type: PieceKind::O, x: 5, y: 38, rotation: 0 });
    let d = g.create_display_board();
    assert_eq!(d[38][6], Cell::Filled(PieceKind::O));
    for y in 0..40 {
        for x in 0..25 {
            assert!(d[y][x] != Cell::Shadow);
        }
    }
}

#[test]
fn new_game_starts_clean() {
    let g = Game::new();
    assert_eq!(g.score, 0);
    assert_eq!(g.level, 1);
    assert_eq!(g.lines_cleared, 0);
    assert!(!g.game_over);
    assert!(!g.paused);
    assert!(g.can_hold);
    assert!(g.hold_piece.is_none());
    let p = g.current_piece.unwrap();
    assert_eq!((p.x, p.y, p.rotation), (11, 0, 0));
    assert!(g.next_pieces.len() >= 4);
}
