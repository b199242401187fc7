//! Piece kinds, the falling piece, and the 7x4 geometry table: for every
//! kind and rotation index, the four cell offsets relative to the piece's
//! local origin.

use vstd::prelude::*;

verus! {

/// One of the seven fixed piece shapes.
#[derive(Clone, Copy, PartialEq, Eq, Structural, Debug)]
pub enum PieceKind {
    I,
    O,
    T,
    S,
    Z,
    J,
    L,
}

/// The active falling piece: kind, position of its local origin on the
/// board, and rotation index (always kept in [0, 4)).
#[derive(Clone, Copy, PartialEq, Eq, Structural, Debug)]
pub struct Piece {
    pub piece_type: PieceKind,
    pub x: i32,
    pub y: i32,
    pub rotation: usize,
}

/// The four occupied offsets (dx, dy) of a piece kind in a given rotation.
/// All 28 combinations are fixed constants; the O kind does not visually
/// rotate. Offsets always lie in [0, 4) in both axes.
pub open spec fn shape_offsets(kind: PieceKind, r: int) -> Seq<(i32, i32)> {
    match kind {
        PieceKind::I => if r == 0 {
            seq![(0i32, 1i32), (1i32, 1i32), (2i32, 1i32), (3i32, 1i32)]
        } else if r == 1 {
            seq![(2i32, 0i32), (2i32, 1i32), (2i32, 2i32), (2i32, 3i32)]
        } else if r == 2 {
            seq![(0i32, 2i32), (1i32, 2i32), (2i32, 2i32), (3i32, 2i32)]
        } else {
            seq![(1i32, 0i32), (1i32, 1i32), (1i32, 2i32), (1i32, 3i32)]
        },
        PieceKind::O => seq![(1i32, 0i32), (2i32, 0i32), (1i32, 1i32), (2i32, 1i32)],
        PieceKind::T => if r == 0 {
            seq![(1i32, 0i32), (0i32, 1i32), (1i32, 1i32), (2i32, 1i32)]
        } else if r == 1 {
            seq![(1i32, 0i32), (1i32, 1i32), (2i32, 1i32), (1i32, 2i32)]
        } else if r == 2 {
            seq![(0i32, 1i32), (1i32, 1i32), (2i32, 1i32), (1i32, 2i32)]
        } else {
            seq![(1i32, 0i32), (0i32, 1i32), (1i32, 1i32), (1i32, 2i32)]
        },
        PieceKind::S => if r == 0 {
            seq![(1i32, 0i32), (2i32, 0i32), (0i32, 1i32), (1i32, 1i32)]
        } else if r == 1 {
            seq![(1i32, 0i32), (1i32, 1i32), (2i32, 1i32), (2i32, 2i32)]
        } else if r == 2 {
            seq![(1i32, 1i32), (2i32, 1i32), (0i32, 2i32), (1i32, 2i32)]
        } else {
            seq![(0i32, 0i32), (0i32, 1i32), (1i32, 1i32), (1i32, 2i32)]
        },
        PieceKind::Z => if r == 0 {
            seq![(0i32, 0i32), (1i32, 0i32), (1i32, 1i32), (2i32, 1i32)]
        } else if r == 1 {
            seq![(2i32, 0i32), (1i32, 1i32), (2i32, 1i32), (1i32, 2i32)]
        } else if r == 2 {
            seq![(0i32, 1i32), (1i32, 1i32), (1i32, 2i32), (2i32, 2i32)]
        } else {
            seq![(1i32, 0i32), (0i32, 1i32), (1i32, 1i32), (0i32, 2i32)]
        },
        PieceKind::J => if r == 0 {
            seq![(0i32, 0i32), (0i32, 1i32), (1i32, 1i32), (2i32, 1i32)]
        } else if r == 1 {
            seq![(1i32, 0i32), (2i32, 0i32), (1i32, 1i32), (1i32, 2i32)]
        } else if r == 2 {
            seq![(0i32, 1i32), (1i32, 1i32), (2i32, 1i32), (2i32, 2i32)]
        } else {
            seq![(1i32, 0i32), (1i32, 1i32), (0i32, 2i32), (1i32, 2i32)]
        },
        PieceKind::L => if r == 0 {
            seq![(2i32, 0i32), (0i32, 1i32), (1i32, 1i32), (2i32, 1i32)]
        } else if r == 1 {
            seq![(1i32, 0i32), (1i32, 1i32), (1i32, 2i32), (2i32, 2i32)]
        } else if r == 2 {
            seq![(0i32, 1i32), (1i32, 1i32), (2i32, 1i32), (0i32, 2i32)]
        } else {
            seq![(0i32, 0i32), (1i32, 0i32), (1i32, 1i32), (1i32, 2i32)]
        },
    }
}

/// Every shape has exactly four cells, each offset within [0, 4) x [0, 4).
pub proof fn lemma_shape_bounds(kind: PieceKind, r: int)
    ensures
        shape_offsets(kind, r).len() == 4,
        forall|i: int|
            0 <= i < 4 ==> {
                let off = #[trigger] shape_offsets(kind, r)[i];
                0 <= off.0 <= 3 && 0 <= off.1 <= 3
            },
{
}

fn shape4(a: (i32, i32), b: (i32, i32), c: (i32, i32), d: (i32, i32)) -> (v: Vec<(i32, i32)>)
    ensures
        v@ == seq![a, b, c, d],
{
    let mut v: Vec<(i32, i32)> = Vec::new();
    v.push(a);
    v.push(b);
    v.push(c);
    v.push(d);
    proof {
        assert(v@ =~= seq![a, b, c, d]);
    }
    v
}

/// The occupied offsets of `kind` in rotation `rotation`.
pub fn get_piece_shape(kind: PieceKind, rotation: usize) -> (v: Vec<(i32, i32)>)
    requires
        rotation < 4,
    ensures
        v@ == shape_offsets(kind, rotation as int),
{
    match kind {
        PieceKind::I => {
            if rotation == 0 {
                shape4((0, 1), (1, 1), (2, 1), (3, 1))
            } else if rotation == 1 {
                shape4((2, 0), (2, 1), (2, 2), (2, 3))
            } else if rotation == 2 {
                shape4((0, 2), (1, 2), (2, 2), (3, 2))
            } else {
                shape4((1, 0), (1, 1), (1, 2), (1, 3))
            }
        },
        PieceKind::O => shape4((1, 0), (2, 0), (1, 1), (2, 1)),
        PieceKind::T => {
            if rotation == 0 {
                shape4((1, 0), (0, 1), (1, 1), (2, 1))
            } else if rotation == 1 {
                shape4((1, 0), (1, 1), (2, 1), (1, 2))
            } else if rotation == 2 {
                shape4((0, 1), (1, 1), (2, 1), (1, 2))
            } else {
                shape4((1, 0), (0, 1), (1, 1), (1, 2))
            }
        },
        PieceKind::S => {
            if rotation == 0 {
                shape4((1, 0), (2, 0), (0, 1), (1, 1))
            } else if rotation == 1 {
                shape4((1, 0), (1, 1), (2, 1), (2, 2))
            } else if rotation == 2 {
                shape4((1, 1), (2, 1), (0, 2), (1, 2))
            } else {
                shape4((0, 0), (0, 1), (1, 1), (1, 2))
            }
        },
        PieceKind::Z => {
            if rotation == 0 {
                shape4((0, 0), (1, 0), (1, 1), (2, 1))
            } else if rotation == 1 {
                shape4((2, 0), (1, 1), (2, 1), (1, 2))
            } else if rotation == 2 {
                shape4((0, 1), (1, 1), (1, 2), (2, 2))
            } else {
                shape4((1, 0), (0, 1), (1, 1), (0, 2))
            }
        },
        PieceKind::J => {
            if rotation == 0 {
                shape4((0, 0), (0, 1), (1, 1), (2, 1))
            } else if rotation == 1 {
                shape4((1, 0), (2, 0), (1, 1), (1, 2))
            } else if rotation == 2 {
                shape4((0, 1), (1, 1), (2, 1), (2, 2))
            } else {
                shape4((1, 0), (1, 1), (0, 2), (1, 2))
            }
        },
        PieceKind::L => {
            if rotation == 0 {
                shape4((2, 0), (0, 1), (1, 1), (2, 1))
            } else if rotation == 1 {
                shape4((1, 0), (1, 1), (1, 2), (2, 2))
            } else if rotation == 2 {
                shape4((0, 1), (1, 1), (2, 1), (0, 2))
            } else {
                shape4((0, 0), (1, 0), (1, 1), (1, 2))
            }
        },
    }
}

/// All four rotations of a kind, indexed by rotation.
pub fn get_piece_shapes(kind: PieceKind) -> (v: Vec<Vec<(i32, i32)>>)
    ensures
        v@.len() == 4,
        forall|r: int| 0 <= r < 4 ==> (#[trigger] v@[r])@ == shape_offsets(kind, r),
{
    let mut v: Vec<Vec<(i32, i32)>> = Vec::new();
    v.push(get_piece_shape(kind, 0));
    v.push(get_piece_shape(kind, 1));
    v.push(get_piece_shape(kind, 2));
    v.push(get_piece_shape(kind, 3));
    v
}

} // verus!
