//! The game session: the active piece, hold slot, randomizer queue, board,
//! scoring and leveling, and the timing state machine (gravity cadence,
//! lock delay, input-repeat gating, pause, game over).
//!
//! Time is an externally supplied monotonic clock in integer milliseconds;
//! the session never reads a clock itself.

use vstd::prelude::*;

use crate::bag::{is_full_bag, PieceBag};
use crate::board::{
    cell_filled, compact_spec, empty_grid, kept_rows, piece_covers, piece_fits, piece_valid,
    place_spec, Board, Cell, BOARD_HEIGHT, BOARD_WIDTH,
};
use crate::pieces::{shape_offsets, Piece, PieceKind};

verus! {

/// Spawn column of a new piece's local origin: the horizontal center,
/// shifted one left so the 4-wide shape box straddles the middle.
pub const SPAWN_X: i32 = 11;

/// Grace period, in ms, between a piece grounding and it locking in place.
pub const LOCK_DELAY_MS: u64 = 500;

/// Minimum spacing, in ms, between accepted movement/soft-drop commands.
pub const INPUT_REPEAT_MS: u64 = 150;

/// Pieces are never meaningfully this far above the board; positions above
/// this row are rejected so coordinates stay comfortably inside `i32`.
pub const MIN_PIECE_Y: i32 = -1000000;

/// A discrete command from the input collaborator. Each is a no-op when
/// inapplicable, never an error.
#[derive(Clone, Copy, PartialEq, Eq, Structural, Debug)]
pub enum InputCommand {
    MoveLeft,
    MoveRight,
    SoftDrop,
    RotateCW,
    RotateCCW,
    HardDrop,
    Hold,
    TogglePause,
}

/// Addition on `u64` clamped at the maximum (scores and counters are
/// monotone and never wrap).
pub open spec fn sat64(a: int, b: int) -> int {
    if a + b <= u64::MAX {
        a + b
    } else {
        u64::MAX as int
    }
}

pub open spec fn sat32(a: int, b: int) -> int {
    if a + b <= u32::MAX {
        a + b
    } else {
        u32::MAX as int
    }
}

/// Base points for clearing `n` lines at once.
pub open spec fn line_points(n: int) -> int {
    if n == 1 {
        100
    } else if n == 2 {
        300
    } else if n == 3 {
        500
    } else if n == 4 {
        800
    } else {
        0
    }
}

/// Level after `lines` total cleared lines: one step every ten lines.
pub open spec fn level_for(lines: int) -> int {
    lines / 10 + 1
}

/// Gravity delay in ms for a level: 1000 minus 50 per level above one,
/// floored at 50.
pub open spec fn fall_delay_spec(level: int) -> int {
    if (level - 1) * 50 <= 950 {
        1000 - (level - 1) * 50
    } else {
        50
    }
}

/// A freshly spawned piece of the given kind.
pub open spec fn spawn_piece_for(kind: PieceKind) -> Piece {
    Piece { piece_type: kind, x: SPAWN_X, y: 0, rotation: 0 }
}

/// Structural bounds every stored piece satisfies: reduced rotation and
/// coordinates inside the representable play region.
pub open spec fn piece_wf(p: Piece) -> bool {
    &&& p.rotation < 4
    &&& -3 <= p.x <= 24
    &&& MIN_PIECE_Y as int <= p.y <= BOARD_HEIGHT as int
}

/// The piece translated by (dx, dy).
pub open spec fn moved_piece(p: Piece, dx: int, dy: int) -> Piece {
    Piece { x: (p.x + dx) as i32, y: (p.y + dy) as i32, ..p }
}

/// A translation is accepted when the candidate position is valid and not
/// absurdly far above the board.
pub open spec fn move_ok(b: Seq<Seq<Cell>>, p: Piece, dx: int, dy: int) -> bool {
    &&& piece_valid(b, p.piece_type, p.rotation as int, p.x + dx, p.y + dy)
    &&& p.y + dy >= MIN_PIECE_Y as int
}

/// The fixed kick list tried, in order, when an in-place rotation is
/// blocked (a simplified approximation of standard kick tables).
pub open spec fn kick_offset(i: int) -> (int, int) {
    if i == 0 {
        (0, 0)
    } else if i == 1 {
        (-1, 0)
    } else if i == 2 {
        (1, 0)
    } else if i == 3 {
        (0, -1)
    } else if i == 4 {
        (-1, -1)
    } else {
        (1, -1)
    }
}

/// The rotation index after one step clockwise or counterclockwise.
pub open spec fn rotated_index(r: int, clockwise: bool) -> int {
    if clockwise {
        (r + 1) % 4
    } else {
        (r + 3) % 4
    }
}

/// Kick `i` of a rotation attempt lands the rotated piece legally.
pub open spec fn kick_ok(b: Seq<Seq<Cell>>, kind: PieceKind, r2: int, x: int, y: int, i: int) -> bool {
    let off = kick_offset(i);
    &&& piece_valid(b, kind, r2, x + off.0, y + off.1)
    &&& y + off.1 >= MIN_PIECE_Y as int
}

/// The first accepted kick index at or after `i`, if any.
pub open spec fn first_kick_from(
    b: Seq<Seq<Cell>>,
    kind: PieceKind,
    r2: int,
    x: int,
    y: int,
    i: int,
) -> Option<int>
    decreases 6 - i,
{
    if i < 0 || i >= 6 {
        None
    } else if kick_ok(b, kind, r2, x, y, i) {
        Some(i)
    } else {
        first_kick_from(b, kind, r2, x, y, i + 1)
    }
}

/// The kick a rotation attempt settles on: the first valid offset in the
/// documented order.
pub open spec fn chosen_kick(b: Seq<Seq<Cell>>, kind: PieceKind, r2: int, x: int, y: int) -> Option<
    int,
> {
    first_kick_from(b, kind, r2, x, y, 0)
}

/// `gy` is the resting row of the piece dropped straight down: every row
/// from the piece's own down to `gy` is valid and the next one is not.
/// (When the piece's own position is already invalid, `gy` is one above it.)
pub open spec fn ghost_ok(b: Seq<Seq<Cell>>, p: Piece, gy: int) -> bool {
    &&& p.y - 1 <= gy
    &&& forall|yy: int|
        p.y <= yy <= gy ==> #[trigger] piece_valid(b, p.piece_type, p.rotation as int, p.x as int, yy)
    &&& !piece_valid(b, p.piece_type, p.rotation as int, p.x as int, gy + 1)
}

/// The resting row is unique.
pub proof fn lemma_ghost_unique(b: Seq<Seq<Cell>>, p: Piece, g1: int, g2: int)
    requires
        ghost_ok(b, p, g1),
        ghost_ok(b, p, g2),
    ensures
        g1 == g2,
{
    if g1 < g2 {
        assert(piece_valid(b, p.piece_type, p.rotation as int, p.x as int, g1 + 1));
    }
    if g2 < g1 {
        assert(piece_valid(b, p.piece_type, p.rotation as int, p.x as int, g2 + 1));
    }
}

/// One draw from the queue: `b` is what a refill prepended to the draw
/// (a full bag exactly when the queue had sunk below the lookahead
/// threshold), `k` the kind handed out.
pub open spec fn drew_kind(
    q0: Seq<PieceKind>,
    dealt0: Seq<PieceKind>,
    b: Seq<PieceKind>,
    post_q: Seq<PieceKind>,
    post_dealt: Seq<PieceKind>,
    k: PieceKind,
) -> bool {
    let q = q0 + b;
    &&& PieceBag::refilled_with(q0, b)
    &&& q.len() > 0
    &&& k == q[0]
    &&& post_q == q.drop_first()
    &&& post_dealt == dealt0.push(k)
}

/// What `move_piece(dx, dy, now)` does: an accepted translation commits
/// the candidate (a downward one clears any pending lock delay); a failed
/// downward step grounds the piece and starts the lock-delay timer if none
/// is running. Nothing else changes.
pub open spec fn move_post(pre: Game, post: Game, dx: int, dy: int, now: u64, r: bool) -> bool {
    match pre.current_piece {
        None => post == pre && r == false,
        Some(p) => {
            let ok = move_ok(pre.board@, p, dx, dy);
            &&& r == ok
            &&& if ok {
                post == Game {
                    current_piece: Some(moved_piece(p, dx, dy)),
                    lock_delay: if dy > 0 {
                        None
                    } else {
                        pre.lock_delay
                    },
                    ..pre
                }
            } else {
                post == Game {
                    lock_delay: if dy > 0 && pre.lock_delay is None {
                        Some(now)
                    } else {
                        pre.lock_delay
                    },
                    ..pre
                }
            }
        },
    }
}

/// What `rotate_piece` does: the rotated piece is committed at the first
/// kick offset (in the documented order) that is valid, clearing any
/// pending lock delay; if every kick is blocked nothing changes.
pub open spec fn rotate_post(pre: Game, post: Game, clockwise: bool, r: bool) -> bool {
    match pre.current_piece {
        None => post == pre && r == false,
        Some(p) => {
            let r2 = rotated_index(p.rotation as int, clockwise);
            match chosen_kick(pre.board@, p.piece_type, r2, p.x as int, p.y as int) {
                Some(i) => {
                    let off = kick_offset(i);
                    &&& r == true
                    &&& post == Game {
                        current_piece: Some(
                            Piece {
                                piece_type: p.piece_type,
                                x: (p.x + off.0) as i32,
                                y: (p.y + off.1) as i32,
                                rotation: r2 as usize,
                            },
                        ),
                        lock_delay: None,
                        ..pre
                    }
                },
                None => post == pre && r == false,
            }
        },
    }
}

/// `first_kick_from(lo)` finds exactly the first accepted kick.
proof fn lemma_first_kick_some(
    b: Seq<Seq<Cell>>,
    kind: PieceKind,
    r2: int,
    x: int,
    y: int,
    lo: int,
    i: int,
)
    requires
        0 <= lo <= i < 6,
        kick_ok(b, kind, r2, x, y, i),
        forall|j: int| lo <= j < i ==> !kick_ok(b, kind, r2, x, y, j),
    ensures
        first_kick_from(b, kind, r2, x, y, lo) == Some(i),
    decreases i - lo,
{
    if lo < i {
        lemma_first_kick_some(b, kind, r2, x, y, lo + 1, i);
    }
}

proof fn lemma_first_kick_none(b: Seq<Seq<Cell>>, kind: PieceKind, r2: int, x: int, y: int, lo: int)
    requires
        0 <= lo,
        forall|j: int| lo <= j < 6 ==> !kick_ok(b, kind, r2, x, y, j),
    ensures
        first_kick_from(b, kind, r2, x, y, lo) is None,
    decreases 6 - lo,
{
    if lo < 6 {
        lemma_first_kick_none(b, kind, r2, x, y, lo + 1);
    }
}

/// When the in-place rotation (kick 0) is blocked but the position one
/// column to the left (kick 1) is open, the rotation settles exactly
/// there: kicks are tried strictly in order, stopping at the first success.
pub proof fn lemma_kick_order(b: Seq<Seq<Cell>>, kind: PieceKind, r2: int, x: int, y: int)
    requires
        !kick_ok(b, kind, r2, x, y, 0),
        kick_ok(b, kind, r2, x, y, 1),
    ensures
        chosen_kick(b, kind, r2, x, y) == Some(1int),
{
    lemma_first_kick_some(b, kind, r2, x, y, 0, 1);
}

fn kick_offset_exec(i: usize) -> (r: (i32, i32))
    requires
        i < 6,
    ensures
        r.0 as int == kick_offset(i as int).0,
        r.1 as int == kick_offset(i as int).1,
{
    if i == 0 {
        (0, 0)
    } else if i == 1 {
        (-1, 0)
    } else if i == 2 {
        (1, 0)
    } else if i == 3 {
        (0, -1)
    } else if i == 4 {
        (-1, -1)
    } else {
        (1, -1)
    }
}

fn sat_add_u64(a: u64, b: u64) -> (r: u64)
    ensures
        r as int == sat64(a as int, b as int),
{
    if a <= u64::MAX - b {
        a + b
    } else {
        u64::MAX
    }
}

fn sat_add_u32(a: u32, b: u32) -> (r: u32)
    ensures
        r as int == sat32(a as int, b as int),
{
    if a <= u32::MAX - b {
        a + b
    } else {
        u32::MAX
    }
}

/// The board with the given piece (if any) baked into it.
pub open spec fn placed_board(b: Seq<Seq<Cell>>, cur: Option<Piece>) -> Seq<Seq<Cell>> {
    match cur {
        Some(p) => place_spec(b, p.piece_type, p.rotation as int, p.x as int, p.y as int),
        None => b,
    }
}

/// What `clear_lines` does: compact the board, count the cleared rows
/// into the running total, add base points (100/300/500/800 for 1-4
/// rows) times the level at the time of the clear, then recompute the
/// level as one per ten cleared lines. Nothing else changes.
pub open spec fn clear_lines_post(pre: Game, post: Game) -> bool {
    let b = pre.board@;
    let n = b.len() - kept_rows(b).len();
    &&& post.board@ == compact_spec(b)
    &&& post.lines_cleared as int == sat32(pre.lines_cleared as int, n)
    &&& post.score as int == sat64(pre.score as int, line_points(n) * pre.level as int)
    &&& post.level as int == level_for(post.lines_cleared as int)
    &&& post == Game {
        board: post.board,
        score: post.score,
        level: post.level,
        lines_cleared: post.lines_cleared,
        ..pre
    }
}

/// What `spawn_piece` does: draw the next kind from the queue and place a
/// fresh piece at the spawn position; if that position collides with the
/// stack, the session ends (game over) and the board and piece are left
/// untouched by the attempt.
pub open spec fn spawn_post(pre: Game, post: Game) -> bool {
    exists|b: Seq<PieceKind>, k: PieceKind|
        {
            &&& #[trigger] drew_kind(
                pre.next_pieces@,
                pre.next_pieces.dealt(),
                b,
                post.next_pieces@,
                post.next_pieces.dealt(),
                k,
            )
            &&& if piece_valid(pre.board@, k, 0, SPAWN_X as int, 0) {
                post == Game {
                    current_piece: Some(spawn_piece_for(k)),
                    can_hold: true,
                    lock_delay: None,
                    next_pieces: post.next_pieces,
                    ..pre
                }
            } else {
                post == Game { game_over: true, next_pieces: post.next_pieces, ..pre }
            }
        }
}

/// What `lock_piece` does: bake the active piece into the board, clear
/// and score full lines, then spawn the next piece (possibly ending the
/// session on a blocked spawn).
pub open spec fn lock_post(pre: Game, post: Game) -> bool {
    let placed = placed_board(pre.board@, pre.current_piece);
    let cleared = compact_spec(placed);
    let n = placed.len() - kept_rows(placed).len();
    &&& post.board@ == cleared
    &&& post.lines_cleared as int == sat32(pre.lines_cleared as int, n)
    &&& post.score as int == sat64(pre.score as int, line_points(n) * pre.level as int)
    &&& post.level as int == level_for(post.lines_cleared as int)
    &&& exists|b: Seq<PieceKind>, k: PieceKind|
        {
            &&& #[trigger] drew_kind(
                pre.next_pieces@,
                pre.next_pieces.dealt(),
                b,
                post.next_pieces@,
                post.next_pieces.dealt(),
                k,
            )
            &&& if piece_valid(cleared, k, 0, SPAWN_X as int, 0) {
                &&& post.current_piece == Some(spawn_piece_for(k))
                &&& post.can_hold == true
                &&& post.lock_delay is None
                &&& post.game_over == pre.game_over
            } else {
                &&& post.current_piece is None
                &&& post.can_hold == pre.can_hold
                &&& post.lock_delay is None
                &&& post.game_over == true
            }
        }
    &&& post.hold_piece == pre.hold_piece
    &&& post.paused == pre.paused
    &&& post.fall_timer == pre.fall_timer
    &&& post.last_input_time == pre.last_input_time
}

/// What `hold_piece` does: at most once per piece lifetime, stash the
/// active kind; a previously held kind respawns at the origin, otherwise
/// the next piece is drawn from the queue.
pub open spec fn hold_post(pre: Game, post: Game) -> bool {
    if !pre.can_hold || pre.current_piece is None {
        post == pre
    } else {
        match (pre.current_piece, pre.hold_piece) {
            (Some(cur), Some(h)) => post == Game {
                current_piece: Some(spawn_piece_for(h)),
                hold_piece: Some(cur.piece_type),
                can_hold: false,
                lock_delay: None,
                ..pre
            },
            (Some(cur), None) => {
                &&& post.hold_piece == Some(cur.piece_type)
                &&& post.can_hold == false
                &&& post.lock_delay is None
                &&& post.board == pre.board
                &&& post.score == pre.score
                &&& post.level == pre.level
                &&& post.lines_cleared == pre.lines_cleared
                &&& post.paused == pre.paused
                &&& post.fall_timer == pre.fall_timer
                &&& post.last_input_time == pre.last_input_time
                &&& exists|b: Seq<PieceKind>, k: PieceKind|
                    {
                        &&& #[trigger] drew_kind(
                            pre.next_pieces@,
                            pre.next_pieces.dealt(),
                            b,
                            post.next_pieces@,
                            post.next_pieces.dealt(),
                            k,
                        )
                        &&& if piece_valid(pre.board@, k, 0, SPAWN_X as int, 0) {
                            post.current_piece == Some(spawn_piece_for(k)) && post.game_over
                                == pre.game_over
                        } else {
                            post.current_piece == pre.current_piece && post.game_over == true
                        }
                    }
            },
            _ => false,
        }
    }
}

/// What `hard_drop` does: move the active piece straight to its resting
/// row, award two points per cell traveled short of the resting row
/// itself, and lock immediately.
pub open spec fn hard_drop_post(pre: Game, post: Game) -> bool {
    match pre.current_piece {
        None => post == pre,
        Some(p) => exists|gy: int|
            {
                &&& #[trigger] ghost_ok(pre.board@, p, gy)
                &&& {
                    let m = gy - p.y;
                    let scored = if m >= 1 {
                        2 * (m - 1)
                    } else {
                        0
                    };
                    let dropped = Game {
                        current_piece: if m >= 1 {
                            Some(moved_piece(p, 0, m))
                        } else {
                            pre.current_piece
                        },
                        score: sat64(pre.score as int, scored) as u64,
                        ..pre
                    };
                    lock_post(dropped, post)
                }
            },
    }
}

/// The resting row of a piece (see `ghost_ok`; it is unique when it
/// exists).
pub open spec fn landing_row(b: Seq<Seq<Cell>>, p: Piece) -> int {
    choose|gy: int| ghost_ok(b, p, gy)
}

/// The composed display grid: the stored board, the ghost projection
/// drawn onto empty cells (only when it is strictly below the live
/// piece), and the live piece drawn on top of everything.
pub open spec fn display_spec(b: Seq<Seq<Cell>>, cur: Option<Piece>) -> Seq<Seq<Cell>> {
    match cur {
        None => b,
        Some(p) => {
            let gy = landing_row(b, p);
            Seq::new(
                b.len(),
                |y: int|
                    Seq::new(
                        b[y].len(),
                        |x: int|
                            if piece_covers(p.piece_type, p.rotation as int, p.x as int, p.y as int, x, y) {
                                Cell::Filled(p.piece_type)
                            } else if gy != p.y && piece_covers(
                                p.piece_type,
                                p.rotation as int,
                                p.x as int,
                                gy,
                                x,
                                y,
                            ) && b[y][x] is Empty {
                                Cell::Shadow
                            } else {
                                b[y][x]
                            },
                    ),
            )
        },
    }
}

/// What one clock tick does. Paused or finished sessions do not move.
/// An elapsed lock delay locks the piece (line clear, scoring, next
/// spawn). Otherwise the fall accumulator grows by the frame time and,
/// on reaching the level's fall delay, resets and applies one gravity
/// step, grounding the piece when the step is blocked.
pub open spec fn update_post(pre: Game, post: Game, now: u64, dt: u64) -> bool {
    if pre.game_over || pre.paused {
        post == pre
    } else if pre.lock_delay is Some && pre.lock_delay->0 + LOCK_DELAY_MS <= now {
        lock_post(pre, post)
    } else {
        let ft = sat64(pre.fall_timer as int, dt as int);
        if ft >= fall_delay_spec(pre.level as int) {
            let pre0 = Game { fall_timer: 0, ..pre };
            match pre.current_piece {
                None => post == Game {
                    lock_delay: if pre.lock_delay is None {
                        Some(now)
                    } else {
                        pre.lock_delay
                    },
                    ..pre0
                },
                Some(p) => move_post(pre0, post, 0, 1, now, move_ok(pre.board@, p, 0, 1)),
            }
        } else {
            post == Game { fall_timer: ft as u64, ..pre }
        }
    }
}

/// The input-repeat gate: movement and soft-drop commands are accepted
/// only this long after the last accepted one.
pub open spec fn gate_open(pre: Game, now: u64) -> bool {
    pre.last_input_time + INPUT_REPEAT_MS <= now
}

/// What one discrete command does. Pause toggling is always accepted;
/// everything else is ignored while paused or after game over. Movement
/// and soft drop pass the shared repeat gate and stamp it; rotation,
/// hard drop and hold are edge-triggered.
pub open spec fn input_post(pre: Game, post: Game, cmd: InputCommand, now: u64) -> bool {
    if cmd is TogglePause {
        post == Game { paused: !pre.paused, ..pre }
    } else if pre.game_over || pre.paused {
        post == pre
    } else {
        match cmd {
            InputCommand::MoveLeft => if gate_open(pre, now) {
                exists|r: bool|
                    #[trigger] move_post(
                        Game { last_input_time: now, ..pre },
                        post,
                        -1,
                        0,
                        now,
                        r,
                    )
            } else {
                post == pre
            },
            InputCommand::MoveRight => if gate_open(pre, now) {
                exists|r: bool|
                    #[trigger] move_post(Game { last_input_time: now, ..pre }, post, 1, 0, now, r)
            } else {
                post == pre
            },
            InputCommand::SoftDrop => if gate_open(pre, now) {
                exists|r: bool|
                    #[trigger] move_post(
                        Game {
                            last_input_time: now,
                            score: sat64(pre.score as int, 1) as u64,
                            ..pre
                        },
                        post,
                        0,
                        1,
                        now,
                        r,
                    )
            } else {
                post == pre
            },
            InputCommand::RotateCW => exists|r: bool| #[trigger] rotate_post(pre, post, true, r),
            InputCommand::RotateCCW => exists|r: bool| #[trigger] rotate_post(pre, post, false, r),
            InputCommand::HardDrop => hard_drop_post(pre, post),
            InputCommand::Hold => hold_post(pre, post),
            InputCommand::TogglePause => true,
        }
    }
}

fn covers_exec(kind: PieceKind, rotation: usize, px: i32, py: i32, x: usize, y: usize) -> (r: bool)
    requires
        rotation < 4,
        x <= BOARD_WIDTH,
        y <= BOARD_HEIGHT,
    ensures
        r == piece_covers(kind, rotation as int, px as int, py as int, x as int, y as int),
{
    let shape = crate::pieces::get_piece_shape(kind, rotation);
    let mut i: usize = 0;
    while i < 4
        invariant
            shape@ == shape_offsets(kind, rotation as int),
            shape@.len() == 4,
            i <= 4,
            x <= BOARD_WIDTH,
            y <= BOARD_HEIGHT,
            forall|j: int|
                0 <= j < i ==> {
                    let off = #[trigger] shape_offsets(kind, rotation as int)[j];
                    !(px + off.0 == x + 0 && py + off.1 == y + 0)
                },
        decreases 4 - i,
    {
        let (dx, dy) = shape[i];
        if px as i64 + dx as i64 == x as i64 && py as i64 + dy as i64 == y as i64 {
            proof {
                let off = shape_offsets(kind, rotation as int)[i as int];
                assert(px + off.0 == x + 0 && py + off.1 == y + 0);
            }
            return true;
        }
        i += 1;
    }
    false
}

/// Any piece spawns legally on an empty board.
pub proof fn lemma_spawn_fits_empty(k: PieceKind)
    ensures
        piece_valid(empty_grid(), k, 0, SPAWN_X as int, 0),
{
    crate::pieces::lemma_shape_bounds(k, 0);
    assert forall|i: int| 0 <= i < 4 implies {
        let off = #[trigger] shape_offsets(k, 0)[i];
        let cx = SPAWN_X as int + off.0;
        let cy = 0 + off.1;
        &&& 0 <= cx < BOARD_WIDTH as int
        &&& cy < BOARD_HEIGHT as int
        &&& (cy >= 0 ==> !(empty_grid()[cy][cx] is Filled))
    } by {
        let off = shape_offsets(k, 0)[i];
        assert(empty_grid()[0 + off.1][SPAWN_X as int + off.0] == Cell::Empty);
    }
}

/// The whole session state. All "failure" is modeled as state: rejected
/// commands are no-ops and the only fatal condition is the one-way
/// `game_over` flag.
pub struct Game {
    pub board: Board,
    pub current_piece: Option<Piece>,
    pub hold_piece: Option<PieceKind>,
    pub can_hold: bool,
    pub next_pieces: PieceBag,
    pub score: u64,
    pub level: u32,
    pub lines_cleared: u32,
    pub game_over: bool,
    pub paused: bool,
    pub fall_timer: u64,
    pub lock_delay: Option<u64>,
    pub last_input_time: u64,
}

impl Game {
    /// Session invariant: well-formed board and bag, the level always
    /// derived from the cleared-line count, and any live piece within
    /// structural bounds.
    pub open spec fn wf(&self) -> bool {
        &&& self.board.wf()
        &&& self.next_pieces.wf()
        &&& self.level as int == level_for(self.lines_cleared as int)
        &&& match self.current_piece {
            Some(p) => piece_wf(p),
            None => true,
        }
    }

    /// True iff all four cells of `piece` are inside horizontal bounds,
    /// above the floor, and not on a filled cell; rows above the top
    /// (y < 0) are never a reason to reject.
    pub fn is_valid_position(&self, piece: &Piece) -> (r: bool)
        requires
            self.board.wf(),
            piece.rotation < 4,
        ensures
            r == piece_fits(self.board@, *piece),
    {
        self.valid_at(piece.piece_type, piece.rotation, piece.x as i64, piece.y as i64)
    }

    /// Validity of a candidate position, computed in wide integers so any
    /// translation of a stored piece can be tested safely.
    fn valid_at(&self, kind: PieceKind, rotation: usize, x: i64, y: i64) -> (r: bool)
        requires
            self.board.wf(),
            rotation < 4,
            -0x1_0000_0000 <= x <= 0x1_0000_0000,
            -0x1_0000_0000 <= y <= 0x1_0000_0000,
        ensures
            r == piece_valid(self.board@, kind, rotation as int, x as int, y as int),
    {
        let shape = crate::pieces::get_piece_shape(kind, rotation);
        let mut i: usize = 0;
        while i < 4
            invariant
                self.board.wf(),
                shape@ == shape_offsets(kind, rotation as int),
                shape@.len() == 4,
                i <= 4,
                -0x1_0000_0000 <= x <= 0x1_0000_0000,
                -0x1_0000_0000 <= y <= 0x1_0000_0000,
                forall|j: int|
                    0 <= j < i ==> {
                        let off = #[trigger] shape_offsets(kind, rotation as int)[j];
                        let cx = x + off.0;
                        let cy = y + off.1;
                        &&& 0 <= cx < BOARD_WIDTH as int
                        &&& cy < BOARD_HEIGHT as int
                        &&& (cy >= 0 ==> !(self.board@[cy as int][cx as int] is Filled))
                    },
            decreases 4 - i,
        {
            let (dx, dy) = shape[i];
            let cx: i64 = x + dx as i64;
            let cy: i64 = y + dy as i64;
            if cx < 0 || cx >= BOARD_WIDTH as i64 || cy >= BOARD_HEIGHT as i64 {
                return false;
            }
            if cy >= 0 && self.board.is_occupied(cx as i32, cy as i32) {
                assert(cell_filled(self.board@, cx as int, cy as int));
                return false;
            }
            i += 1;
        }
        true
    }

    /// Translate the active piece by (dx, dy) if the result is valid; on a
    /// failed downward step, ground the piece (start lock delay at
    /// `now_ms` unless already pending). Returns whether the move took.
    pub fn move_piece(&mut self, dx: i32, dy: i32, now_ms: u64) -> (r: bool)
        requires
            old(self).wf(),
        ensures
            final(self).wf(),
            move_post(*old(self), *final(self), dx as int, dy as int, now_ms, r),
    {
        match self.current_piece {
            None => false,
            Some(p) => {
                let cx: i64 = p.x as i64 + dx as i64;
                let cy: i64 = p.y as i64 + dy as i64;
                let ok = cy >= MIN_PIECE_Y as i64 && self.valid_at(p.piece_type, p.rotation, cx, cy);
                if ok {
                    proof {
                        crate::pieces::lemma_shape_bounds(p.piece_type, p.rotation as int);
                        assert(shape_offsets(p.piece_type, p.rotation as int)[0].1 >= 0);
                    }
                    self.current_piece = Some(
                        Piece { piece_type: p.piece_type, x: cx as i32, y: cy as i32, rotation: p.rotation },
                    );
                    if dy > 0 {
                        self.lock_delay = None;
                    }
                    true
                } else {
                    if dy > 0 && self.lock_delay.is_none() {
                        self.lock_delay = Some(now_ms);
                    }
                    false
                }
            },
        }
    }

    /// Rotate the active piece one step; when the in-place rotation is
    /// blocked, try the fixed kick offsets in order and commit the first
    /// valid one. Success clears any pending lock delay.
    pub fn rotate_piece(&mut self, clockwise: bool) -> (r: bool)
        requires
            old(self).wf(),
        ensures
            final(self).wf(),
            rotate_post(*old(self), *final(self), clockwise, r),
    {
        match self.current_piece {
            None => false,
            Some(p) => {
                let r2: usize = if clockwise {
                    (p.rotation + 1) % 4
                } else {
                    (p.rotation + 3) % 4
                };
                let ghost r2s = rotated_index(p.rotation as int, clockwise);
                proof {
                    assert(r2 as int == r2s);
                }
                let mut i: usize = 0;
                while i < 6
                    invariant
                        old(self).wf(),
                        *self == *old(self),
                        old(self).current_piece == Some(p),
                        piece_wf(p),
                        r2s == rotated_index(p.rotation as int, clockwise),
                        r2 as int == r2s,
                        r2 < 4,
                        i <= 6,
                        forall|j: int|
                            0 <= j < i ==> !kick_ok(
                                old(self).board@,
                                p.piece_type,
                                r2s,
                                p.x as int,
                                p.y as int,
                                j,
                            ),
                    decreases 6 - i,
                {
                    let (kx, ky) = kick_offset_exec(i);
                    let cx: i64 = p.x as i64 + kx as i64;
                    let cy: i64 = p.y as i64 + ky as i64;
                    if cy >= MIN_PIECE_Y as i64 && self.valid_at(p.piece_type, r2, cx, cy) {
                        proof {
                            lemma_first_kick_some(
                                self.board@,
                                p.piece_type,
                                r2s,
                                p.x as int,
                                p.y as int,
                                0,
                                i as int,
                            );
                            crate::pieces::lemma_shape_bounds(p.piece_type, r2s);
                        }
                        self.current_piece = Some(
                            Piece { piece_type: p.piece_type, x: cx as i32, y: cy as i32, rotation: r2 },
                        );
                        self.lock_delay = None;
                        return true;
                    }
                    i += 1;
                }
                proof {
                    lemma_first_kick_none(self.board@, p.piece_type, r2s, p.x as int, p.y as int, 0);
                }
                false
            },
        }
    }

    /// Where the active piece would come to rest if dropped now: the same
    /// piece, moved to its resting row. Read-only; the live piece is not
    /// touched.
    pub fn get_ghost_piece(&self) -> (g: Option<Piece>)
        requires
            self.wf(),
        ensures
            match (self.current_piece, g) {
                (Some(p), Some(gp)) => {
                    &&& gp.piece_type == p.piece_type
                    &&& gp.x == p.x
                    &&& gp.rotation == p.rotation
                    &&& ghost_ok(self.board@, p, gp.y as int)
                },
                (None, None) => true,
                _ => false,
            },
    {
        match self.current_piece {
            None => None,
            Some(p) => {
                if !self.valid_at(p.piece_type, p.rotation, p.x as i64, p.y as i64) {
                    Some(Piece { y: p.y - 1, ..p })
                } else {
                    let mut gy: i64 = p.y as i64;
                    while self.valid_at(p.piece_type, p.rotation, p.x as i64, gy + 1)
                        invariant
                            self.wf(),
                            self.current_piece == Some(p),
                            piece_wf(p),
                            p.y as i64 <= gy <= BOARD_HEIGHT as i64,
                            forall|yy: int|
                                p.y <= yy <= gy ==> #[trigger] piece_valid(
                                    self.board@,
                                    p.piece_type,
                                    p.rotation as int,
                                    p.x as int,
                                    yy,
                                ),
                        decreases BOARD_HEIGHT as i64 + 1 - gy,
                    {
                        proof {
                            crate::pieces::lemma_shape_bounds(p.piece_type, p.rotation as int);
                            assert(shape_offsets(p.piece_type, p.rotation as int)[0].1 >= 0);
                        }
                        gy += 1;
                    }
                    Some(Piece { y: gy as i32, ..p })
                }
            },
        }
    }

    /// Clear and score full lines: compact the board, update the cleared
    /// count, add base points times the current level, and recompute the
    /// level.
    pub fn clear_lines(&mut self)
        requires
            old(self).wf(),
        ensures
            final(self).wf(),
            clear_lines_post(*old(self), *final(self)),
    {
        let n = self.board.clear_full_lines();
        self.lines_cleared = sat_add_u32(self.lines_cleared, n as u32);
        let base: u64 = if n == 1 {
            100
        } else if n == 2 {
            300
        } else if n == 3 {
            500
        } else if n == 4 {
            800
        } else {
            0
        };
        proof {
            assert(base as int * (self.level as int) <= 800 * (u32::MAX as int))
                by (nonlinear_arith)
                requires
                    base <= 800,
                    self.level <= u32::MAX,
            ;
        }
        let points: u64 = base * (self.level as u64);
        self.score = sat_add_u64(self.score, points);
        self.level = self.lines_cleared / 10 + 1;
    }

    /// Append one freshly shuffled full bag to the upcoming-piece queue.
    pub fn refill_piece_bag(&mut self)
        requires
            old(self).wf(),
        ensures
            final(self).wf(),
            final(self).next_pieces.dealt() == old(self).next_pieces.dealt(),
            exists|b: Seq<PieceKind>|
                #[trigger] is_full_bag(b) && final(self).next_pieces@ == old(self).next_pieces@ + b,
            *final(self) == (Game { next_pieces: final(self).next_pieces, ..*old(self) }),
    {
        self.next_pieces.refill();
    }

    /// Draw the next kind and spawn it at the origin; a blocked spawn is
    /// the one fatal condition and flips `game_over` instead, leaving the
    /// board untouched.
    pub fn spawn_piece(&mut self)
        requires
            old(self).wf(),
        ensures
            final(self).wf(),
            spawn_post(*old(self), *final(self)),
    {
        let k = self.next_pieces.next();
        let ghost q0 = old(self).next_pieces@;
        let ghost d0 = old(self).next_pieces.dealt();
        let ghost b = choose|b: Seq<PieceKind>|
            {
                let q = q0 + b;
                &&& #[trigger] PieceBag::refilled_with(q0, b)
                &&& q.len() > 0
                &&& k == q[0]
                &&& self.next_pieces@ == q.drop_first()
                &&& self.next_pieces.dealt() == d0.push(k)
            };
        proof {
            assert(drew_kind(q0, d0, b, self.next_pieces@, self.next_pieces.dealt(), k));
        }
        let piece = Piece { piece_type: k, x: SPAWN_X, y: 0, rotation: 0 };
        if self.is_valid_position(&piece) {
            self.current_piece = Some(piece);
            self.can_hold = true;
            self.lock_delay = None;
        } else {
            self.game_over = true;
        }
        proof {
            assert(drew_kind(
                q0,
                d0,
                b,
                self.next_pieces@,
                self.next_pieces.dealt(),
                k,
            ));
        }
    }

    /// Fuse the active piece into the board, clear and score lines, and
    /// spawn the next piece.
    pub fn lock_piece(&mut self)
        requires
            old(self).wf(),
        ensures
            final(self).wf(),
            lock_post(*old(self), *final(self)),
    {
        match self.current_piece {
            Some(p) => {
                self.board.place(&p);
            },
            None => {},
        }
        self.current_piece = None;
        self.lock_delay = None;
        let ghost mid = *self;
        self.clear_lines();
        let ghost mid2 = *self;
        self.spawn_piece();
        proof {
            let placed = placed_board(old(self).board@, old(self).current_piece);
            assert(mid.board@ == placed);
            assert(mid2.board@ == compact_spec(placed));
            let (b, k) = choose|b: Seq<PieceKind>, k: PieceKind|
                {
                    &&& #[trigger] drew_kind(
                        mid2.next_pieces@,
                        mid2.next_pieces.dealt(),
                        b,
                        self.next_pieces@,
                        self.next_pieces.dealt(),
                        k,
                    )
                    &&& if piece_valid(mid2.board@, k, 0, SPAWN_X as int, 0) {
                        *self == Game {
                            current_piece: Some(spawn_piece_for(k)),
                            can_hold: true,
                            lock_delay: None,
                            next_pieces: self.next_pieces,
                            ..mid2
                        }
                    } else {
                        *self == Game { game_over: true, next_pieces: self.next_pieces, ..mid2 }
                    }
                };
            assert(mid2.next_pieces == old(self).next_pieces);
            assert(drew_kind(
                old(self).next_pieces@,
                old(self).next_pieces.dealt(),
                b,
                self.next_pieces@,
                self.next_pieces.dealt(),
                k,
            ));
        }
    }

    /// Set the active kind aside (at most once per piece lifetime),
    /// bringing back a previously held kind at the origin or drawing the
    /// next piece from the queue.
    pub fn hold_piece(&mut self)
        requires
            old(self).wf(),
        ensures
            final(self).wf(),
            hold_post(*old(self), *final(self)),
    {
        if !self.can_hold {
            return ;
        }
        match self.current_piece {
            None => {},
            Some(cur) => {
                match self.hold_piece {
                    Some(h) => {
                        self.current_piece = Some(
                            Piece { piece_type: h, x: SPAWN_X, y: 0, rotation: 0 },
                        );
                        self.hold_piece = Some(cur.piece_type);
                        self.can_hold = false;
                        self.lock_delay = None;
                    },
                    None => {
                        self.hold_piece = Some(cur.piece_type);
                        let ghost mid = *self;
                        self.spawn_piece();
                        let ghost aft = *self;
                        self.can_hold = false;
                        self.lock_delay = None;
                        proof {
                            let (b, k) = choose|b: Seq<PieceKind>, k: PieceKind|
                                {
                                    &&& #[trigger] drew_kind(
                                        mid.next_pieces@,
                                        mid.next_pieces.dealt(),
                                        b,
                                        aft.next_pieces@,
                                        aft.next_pieces.dealt(),
                                        k,
                                    )
                                    &&& if piece_valid(mid.board@, k, 0, SPAWN_X as int, 0) {
                                        aft == Game {
                                            current_piece: Some(spawn_piece_for(k)),
                                            can_hold: true,
                                            lock_delay: None,
                                            next_pieces: aft.next_pieces,
                                            ..mid
                                        }
                                    } else {
                                        aft == Game {
                                            game_over: true,
                                            next_pieces: aft.next_pieces,
                                            ..mid
                                        }
                                    }
                                };
                            assert(drew_kind(
                                old(self).next_pieces@,
                                old(self).next_pieces.dealt(),
                                b,
                                self.next_pieces@,
                                self.next_pieces.dealt(),
                                k,
                            ));
                            assert(hold_post(*old(self), *self));
                        }
                    },
                }
            },
        }
    }

    /// Drop the active piece straight to its resting row, award two
    /// points per cell traveled short of the resting row, and lock it.
    pub fn hard_drop(&mut self)
        requires
            old(self).wf(),
        ensures
            final(self).wf(),
            hard_drop_post(*old(self), *final(self)),
    {
        match self.current_piece {
            None => {},
            Some(p) => {
                let ghost pre = *old(self);
                let mut gy: i64 = p.y as i64 - 1;
                if self.valid_at(p.piece_type, p.rotation, p.x as i64, p.y as i64) {
                    gy = p.y as i64;
                    while self.valid_at(p.piece_type, p.rotation, p.x as i64, gy + 1)
                        invariant
                            self.wf(),
                            *self == pre,
                            self.current_piece == Some(p),
                            piece_wf(p),
                            p.y as i64 <= gy <= BOARD_HEIGHT as i64,
                            forall|yy: int|
                                p.y <= yy <= gy ==> #[trigger] piece_valid(
                                    self.board@,
                                    p.piece_type,
                                    p.rotation as int,
                                    p.x as int,
                                    yy,
                                ),
                        decreases BOARD_HEIGHT as i64 + 1 - gy,
                    {
                        proof {
                            crate::pieces::lemma_shape_bounds(p.piece_type, p.rotation as int);
                            assert(shape_offsets(p.piece_type, p.rotation as int)[0].1 >= 0);
                        }
                        gy += 1;
                    }
                }
                proof {
                    assert(ghost_ok(pre.board@, p, gy as int));
                }
                let m: i64 = gy - p.y as i64;
                if m >= 1 {
                    let award: u64 = (2 * (m - 1)) as u64;
                    self.score = sat_add_u64(self.score, award);
                    self.current_piece = Some(Piece { y: gy as i32, ..p });
                    proof {
                        crate::pieces::lemma_shape_bounds(p.piece_type, p.rotation as int);
                        assert(shape_offsets(p.piece_type, p.rotation as int)[0].1 >= 0);
                        assert(piece_valid(
                            self.board@,
                            p.piece_type,
                            p.rotation as int,
                            p.x as int,
                            gy as int,
                        ));
                    }
                }
                let ghost dropped = *self;
                self.lock_piece();
                proof {
                    assert(lock_post(dropped, *self));
                    assert(ghost_ok(pre.board@, p, gy as int));
                }
            },
        }
    }

    /// A fresh session: empty board, zeroed score at level one, a fully
    /// refilled queue, and the first piece already spawned.
    pub fn new() -> (g: Game)
        ensures
            g.wf(),
            g.board@ == empty_grid(),
            g.score == 0,
            g.level == 1,
            g.lines_cleared == 0,
            !g.game_over,
            !g.paused,
            g.can_hold,
            g.lock_delay is None,
            g.fall_timer == 0,
            g.last_input_time == 0,
            g.hold_piece is None,
            exists|b: Seq<PieceKind>|
                {
                    &&& #[trigger] is_full_bag(b)
                    &&& g.current_piece == Some(spawn_piece_for(b[0]))
                    &&& g.next_pieces@ == b.drop_first()
                    &&& g.next_pieces.dealt() == seq![b[0]]
                },
    {
        let mut g = Game {
            board: Board::new(),
            current_piece: None,
            hold_piece: None,
            can_hold: true,
            next_pieces: PieceBag::new(),
            score: 0,
            level: 1,
            lines_cleared: 0,
            game_over: false,
            paused: false,
            fall_timer: 0,
            lock_delay: None,
            last_input_time: 0,
        };
        let ghost g0 = g;
        g.refill_piece_bag();
        let ghost b = choose|b: Seq<PieceKind>|
            #[trigger] is_full_bag(b) && g.next_pieces@ == g0.next_pieces@ + b;
        proof {
            assert(g.next_pieces@ =~= b);
        }
        let ghost g1 = g;
        g.spawn_piece();
        proof {
            lemma_spawn_fits_empty(b[0]);
            let (b2, k) = choose|b2: Seq<PieceKind>, k: PieceKind|
                {
                    &&& #[trigger] drew_kind(
                        g1.next_pieces@,
                        g1.next_pieces.dealt(),
                        b2,
                        g.next_pieces@,
                        g.next_pieces.dealt(),
                        k,
                    )
                    &&& if piece_valid(g1.board@, k, 0, SPAWN_X as int, 0) {
                        g == Game {
                            current_piece: Some(spawn_piece_for(k)),
                            can_hold: true,
                            lock_delay: None,
                            next_pieces: g.next_pieces,
                            ..g1
                        }
                    } else {
                        g == Game { game_over: true, next_pieces: g.next_pieces, ..g1 }
                    }
                };
            assert(b2 =~= Seq::<PieceKind>::empty());
            assert(g1.next_pieces@ + b2 =~= b);
            assert(k == b[0]);
            assert(g.next_pieces@ =~= b.drop_first());
            assert(g.next_pieces.dealt() =~= seq![b[0]]);
        }
        g
    }

    /// Advance the session by one tick of the external clock: `now_ms` is
    /// the monotonic time, `dt_ms` the time since the previous tick.
    pub fn update(&mut self, now_ms: u64, dt_ms: u64)
        requires
            old(self).wf(),
        ensures
            final(self).wf(),
            update_post(*old(self), *final(self), now_ms, dt_ms),
    {
        if self.game_over || self.paused {
            return ;
        }
        match self.lock_delay {
            Some(t) => {
                if t <= u64::MAX - LOCK_DELAY_MS && now_ms >= t + LOCK_DELAY_MS {
                    self.lock_piece();
                    return ;
                }
            },
            None => {},
        }
        let ft = sat_add_u64(self.fall_timer, dt_ms);
        let delay = self.get_fall_delay();
        if ft >= delay {
            self.fall_timer = 0;
            if self.current_piece.is_some() {
                let _ = self.move_piece(0, 1, now_ms);
            } else {
                if self.lock_delay.is_none() {
                    self.lock_delay = Some(now_ms);
                }
            }
        } else {
            self.fall_timer = ft;
        }
    }

    /// Apply one discrete input command at time `now_ms`.
    pub fn handle_input(&mut self, cmd: InputCommand, now_ms: u64)
        requires
            old(self).wf(),
        ensures
            final(self).wf(),
            input_post(*old(self), *final(self), cmd, now_ms),
    {
        match cmd {
            InputCommand::TogglePause => {
                self.paused = !self.paused;
                return ;
            },
            _ => {},
        }
        if self.game_over || self.paused {
            return ;
        }
        let gate = self.last_input_time <= u64::MAX - INPUT_REPEAT_MS && now_ms
            >= self.last_input_time + INPUT_REPEAT_MS;
        match cmd {
            InputCommand::MoveLeft => {
                if gate {
                    self.last_input_time = now_ms;
                    let _ = self.move_piece(-1, 0, now_ms);
                }
            },
            InputCommand::MoveRight => {
                if gate {
                    self.last_input_time = now_ms;
                    let _ = self.move_piece(1, 0, now_ms);
                }
            },
            InputCommand::SoftDrop => {
                if gate {
                    self.last_input_time = now_ms;
                    self.score = sat_add_u64(self.score, 1);
                    let _ = self.move_piece(0, 1, now_ms);
                }
            },
            InputCommand::RotateCW => {
                let _ = self.rotate_piece(true);
            },
            InputCommand::RotateCCW => {
                let _ = self.rotate_piece(false);
            },
            InputCommand::HardDrop => {
                self.hard_drop();
            },
            InputCommand::Hold => {
                self.hold_piece();
            },
            InputCommand::TogglePause => {},
        }
    }

    /// The grid to draw this frame: board, ghost projection, and live
    /// piece composed read-only; the stored board is never touched.
    pub fn create_display_board(&self) -> (d: Vec<Vec<Cell>>)
        requires
            self.wf(),
        ensures
            crate::board::rows_view(d@) == display_spec(self.board@, self.current_piece),
    {
        let ghost spec_d = display_spec(self.board@, self.current_piece);
        match self.current_piece {
            None => {
                let mut rows: Vec<Vec<Cell>> = Vec::new();
                let mut y: usize = 0;
                while y < BOARD_HEIGHT
                    invariant
                        self.wf(),
                        self.current_piece is None,
                        y <= BOARD_HEIGHT,
                        rows@.len() == y,
                        forall|j: int| 0 <= j < y ==> (#[trigger] rows@[j])@ == self.board@[j],
                    decreases BOARD_HEIGHT - y,
                {
                    let mut row: Vec<Cell> = Vec::new();
                    let mut x: usize = 0;
                    while x < BOARD_WIDTH
                        invariant
                            self.wf(),
                            y < BOARD_HEIGHT,
                            x <= BOARD_WIDTH,
                            row@.len() == x,
                            forall|i: int| 0 <= i < x ==> row@[i] == self.board@[y as int][i],
                        decreases BOARD_WIDTH - x,
                    {
                        row.push(self.board.get_cell(x, y));
                        x += 1;
                    }
                    proof {
                        assert(row@ =~= self.board@[y as int]);
                    }
                    rows.push(row);
                    y += 1;
                }
                proof {
                    assert(crate::board::rows_view(rows@) =~~= spec_d);
                }
                rows
            },
            Some(p) => {
                let gp = match self.get_ghost_piece() {
                    Some(gp) => gp,
                    None => p,
                };
                proof {
                    assert(ghost_ok(self.board@, p, gp.y as int));
                    let lr = landing_row(self.board@, p);
                    assert(ghost_ok(self.board@, p, lr));
                    lemma_ghost_unique(self.board@, p, gp.y as int, lr);
                }
                let mut rows: Vec<Vec<Cell>> = Vec::new();
                let mut y: usize = 0;
                while y < BOARD_HEIGHT
                    invariant
                        self.wf(),
                        self.current_piece == Some(p),
                        piece_wf(p),
                        gp.y as int == landing_row(self.board@, p),
                        gp.piece_type == p.piece_type,
                        gp.x == p.x,
                        gp.rotation == p.rotation,
                        spec_d == display_spec(self.board@, self.current_piece),
                        y <= BOARD_HEIGHT,
                        rows@.len() == y,
                        spec_d.len() == BOARD_HEIGHT,
                        forall|j: int| 0 <= j < y ==> (#[trigger] rows@[j])@ == spec_d[j],
                    decreases BOARD_HEIGHT - y,
                {
                    let mut row: Vec<Cell> = Vec::new();
                    let mut x: usize = 0;
                    while x < BOARD_WIDTH
                        invariant
                            self.wf(),
                            self.current_piece == Some(p),
                            piece_wf(p),
                            gp.y as int == landing_row(self.board@, p),
                            gp.piece_type == p.piece_type,
                            gp.x == p.x,
                            gp.rotation == p.rotation,
                            spec_d == display_spec(self.board@, self.current_piece),
                            y < BOARD_HEIGHT,
                            x <= BOARD_WIDTH,
                            row@.len() == x,
                            spec_d.len() == BOARD_HEIGHT,
                            spec_d[y as int].len() == BOARD_WIDTH,
                            forall|i: int| 0 <= i < x ==> row@[i] == spec_d[y as int][i],
                        decreases BOARD_WIDTH - x,
                    {
                        let base = self.board.get_cell(x, y);
                        let c = if covers_exec(p.piece_type, p.rotation, p.x, p.y, x, y) {
                            Cell::Filled(p.piece_type)
                        } else if gp.y != p.y && covers_exec(p.piece_type, p.rotation, p.x, gp.y, x, y)
                            && matches!(base, Cell::Empty) {
                            Cell::Shadow
                        } else {
                            base
                        };
                        proof {
                            assert(c == spec_d[y as int][x as int]);
                        }
                        row.push(c);
                        x += 1;
                    }
                    proof {
                        assert(row@ =~= spec_d[y as int]);
                    }
                    rows.push(row);
                    y += 1;
                }
                proof {
                    assert(crate::board::rows_view(rows@) =~~= spec_d);
                }
                rows
            },
        }
    }

    /// Gravity delay at the current level, in ms.
    pub fn get_fall_delay(&self) -> (d: u64)
        requires
            self.level >= 1,
        ensures
            d as int == fall_delay_spec(self.level as int),
    {
        let speedup: u64 = (self.level as u64 - 1) * 50;
        if speedup <= 950 {
            1000 - speedup
        } else {
            50
        }
    }
}

} // verus!

