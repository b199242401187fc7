use tetris_core::board::{Board, Cell, BOARD_HEIGHT, BOARD_WIDTH};
use tetris_core::game::Game;
use tetris_core::pieces::{get_piece_shape, get_piece_shapes, Piece, PieceKind};

#[test]
fn shape_i_horizontal() {
    let s = get_piece_shape(PieceKind::I, 0);
    assert_eq!(s, vec![(0, 1), (1, 1), (2, 1), (3, 1)]);
}

#[test]
fn shape_o_same_for_all_rotations() {
    let all = get_piece_shapes(PieceKind::O);
    assert_eq!(all.len(), 4);
    for r in 1..4 {
        assert_eq!(all[r], all[0]);
    }
    assert_eq!(all[0], vec![(1, 0), (2, 0), (1, 1), (2, 1)]);
}

#[test]
fn shapes_have_four_cells_in_range() {
    let kinds = [
        PieceKind::I,
        PieceKind::O,
        PieceKind::T,
        PieceKind::S,
        PieceKind::Z,
        PieceKind::J,
        PieceKind::L,
    ];
    for &k in kinds.iter() {
        for r in 0..4 {
            let s = get_piece_shape(k, r);
            assert_eq!(s.len(), 4);
            for &(dx, dy) in s.iter() {
                assert!((0..4).contains(&dx) && (0..4).contains(&dy));
            }
        }
    }
}

#[test]
fn new_board_is_empty() {
    let b = Board::new();
    for y in 0..BOARD_HEIGHT {
        for x in 0..BOARD_WIDTH {
            assert_eq!(b.get_cell(x, y), Cell::Empty);
        }
    }
}

#[test]
fn is_occupied_bounds_and_fill() {
    let mut b = Board::new();
    b.set_cell(3, 10, Cell::Filled(PieceKind::T));
    assert!(b.is_occupied(3, 10));
    assert!(!b.is_occupied(4, 10));
    assert!(!b.is_occupied(-1, 10));
    assert!(!b.is_occupied(3, -1));
    assert!(!b.is_occupied(25, 0));
    assert!(!b.is_occupied(0, 40));
}

#[test]
fn valid_position_allows_negative_rows() {
    let g = Game::new();
    // A piece partially above the visible top must not be rejected for that.
    let p = Piece { piece_type: PieceKind::I, x: 5, y: -2, rotation: 1 };
    assert!(g.is_valid_position(&p));
}

#[test]
fn valid_position_rejects_walls_floor_and_overlap() {
    let mut g = Game::new();
    // Left wall: I horizontal at x = -1 puts a cell at column -1.
    let left = Piece { piece_type: PieceKind::I, x: -1, y: 5, rotation: 0 };
    assert!(!g.is_valid_position(&left));
    // Right wall.
    let right = Piece { piece_type: PieceKind::I, x: 22, y: 5, rotation: 0 };
    assert!(!g.is_valid_position(&right));
    // Floor.
    let deep = Piece { piece_type: PieceKind::O, x: 5, y: 39, rotation: 0 };
    assert!(!g.is_valid_position(&deep));
    // Overlap with a filled cell.
    g.board.set_cell(6, 21, Cell::Filled(PieceKind::Z));
    let overlap = Piece { piece_type: PieceKind::O, x: 5, y: 20, rotation: 0 };
    assert!(!g.is_valid_position(&overlap));
    let beside = Piece { piece_type: PieceKind::O, x: 10, y: 20, rotation: 0 };
    assert!(g.is_valid_position(&beside));
}

fn fill_row(b: &mut Board, y: usize) {
    for x in 0..BOARD_WIDTH {
        b.set_cell(x, y, Cell::Filled(PieceKind::J));
    }
}

#[test]
fn clear_lines_compacts_rows_5_and_7() {
    let mut b = Board::new();
    fill_row(&mut b, 5);
    fill_row(&mut b, 7);
    // Partial rows with distinctive markers.
    b.set_cell(0, 4, Cell::Filled(PieceKind::S));
    b.set_cell(1, 6, Cell::Filled(PieceKind::T));
    b.set_cell(2, 8, Cell::Filled(PieceKind::Z));
    let n = b.clear_full_lines();
    assert_eq!(n, 2);
    // The top two rows become empty.
    for y in 0..2 {
        for x in 0..BOARD_WIDTH {
            assert_eq!(b.get_cell(x, y), Cell::Empty);
        }
    }
    // Row 4 (above both clears) moved down by 2.
    assert_eq!(b.get_cell(0, 6), Cell::Filled(PieceKind::S));
    // Row 6 (between the clears) moved down to row 7.
    assert_eq!(b.get_cell(1, 7), Cell::Filled(PieceKind::T));
    // Row 8 (below both clears) stays at row 8.
    assert_eq!(b.get_cell(2, 8), Cell::Filled(PieceKind::Z));
    // No full row survives.
    assert_eq!(b.clear_full_lines(), 0);
}

#[test]
fn clear_lines_empty_board_clears_nothing() {
    let mut b = Board::new();
    assert_eq!(b.clear_full_lines(), 0);
    for y in 0..BOARD_HEIGHT {
        for x in 0..BOARD_WIDTH {
            assert_eq!(b.get_cell(x, y), Cell::Empty);
        }
    }
}
