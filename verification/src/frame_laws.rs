//! What the parts of a frame do, stated in terms of where pieces fit: turns
//! with their kick tests, the lock delay, gravity and soft drop, and the
//! sideways repeat.
use vstd::prelude::*;

use crate::engine::{
    after_fall, after_spawn, after_lock_ghost, after_move, after_rotate, after_set_active, after_slide,
    after_try_lock, core_ok, placed_ok, dir_offset, fall_limit, fires, fits, height, lemma_fits_pivot, moved,
    rotate_from, same_controls, slide_room, stage_das, stage_fall, stage_lock, ticked, try_move,
    Board, Direction, HoldPiece, Timer, after_timers, stage_clear, stage_spawn, QueuePos,
};
use crate::piece::{piece_at, Orientation, PieceKind};
use crate::engine::{after_input, Action, Input, MovementState};
use crate::pile::{cell_at, cleared, has_full_row, Pile};
use crate::{PILE_HEIGHT, PILE_WIDTH};
use crate::laws::law_ghost_marks_landing;
use crate::piece::{kick, rotated, Piece};

verus! {

/// `p` turned `count` times clockwise and shifted by kick test `n` for that
/// turn.
pub open spec fn kicked(p: Piece, count: int, n: int) -> Piece {
    let k = kick(p.kind, p.orientation, rotated(p.orientation, count), n);
    moved(p, k.0 as int, k.1 as int, count)
}

proof fn lemma_rotate_from_first_fit(b: Board, p: Piece, count: int, n0: int, n: int)
    requires
        b.active_piece == Some(p),
        0 <= n0 <= n < 5,
        forall|m: int| n0 <= m < n ==> !#[trigger] fits(b.pile, kicked(p, count, m)),
        fits(b.pile, kicked(p, count, n)),
    ensures
        rotate_from(b, p, count, n0) == after_set_active(b, Some(kicked(p, count, n))),
    decreases n - n0,
{
    if n0 < n {
        assert(!fits(b.pile, kicked(p, count, n0)));
        lemma_rotate_from_first_fit(b, p, count, n0 + 1, n);
    }
}

proof fn lemma_rotate_from_none_fit(b: Board, p: Piece, count: int, n0: int)
    requires
        b.active_piece == Some(p),
        0 <= n0 <= 5,
        forall|m: int| n0 <= m < 5 ==> !#[trigger] fits(b.pile, kicked(p, count, m)),
    ensures
        rotate_from(b, p, count, n0) == b,
    decreases 5 - n0,
{
    if n0 < 5 {
        assert(!fits(b.pile, kicked(p, count, n0)));
        lemma_rotate_from_none_fit(b, p, count, n0 + 1);
    }
}

/// A turn tries the five kick tests in order and takes the first at which
/// the turned piece fits: the piece then faces `count` quarter turns
/// clockwise from where it faced, shifted by that test's kick.
pub proof fn law_turn_takes_first_fitting_kick(b: Board, count: int, n: int)
    requires
        core_ok(b),
        0 <= b.resets <= 14,
        b.active_piece is Some,
        0 <= n < 5,
        forall|m: int| 0 <= m < n ==> !#[trigger] fits(b.pile, kicked(b.active_piece->0, count, m)),
        fits(b.pile, kicked(b.active_piece->0, count, n)),
    ensures
        ({
            let p = b.active_piece->0;
            let r = after_rotate(b, count).active_piece->0;
            let k = kick(p.kind, p.orientation, rotated(p.orientation, count), n);
            &&& after_rotate(b, count).active_piece is Some
            &&& r == moved(p, k.0 as int, k.1 as int, count)
            &&& r.kind == p.kind
            &&& r.orientation == rotated(p.orientation, count)
            &&& fits(b.pile, r)
            &&& after_rotate(b, count).pile == b.pile
        }),
{
    let p = b.active_piece->0;
    let k = kick(p.kind, p.orientation, rotated(p.orientation, count), n);
    let q = kicked(p, count, n);
    assert(after_rotate(b, count) == rotate_from(b, p, count, 0)) by {
        reveal(after_rotate);
    }
    lemma_rotate_from_first_fit(b, p, count, 0, n);
    lemma_fits_pivot(b.pile, p, k.0 as int, k.1 as int, count);
    law_ghost_marks_landing(b, q);
    assert(after_set_active(b, Some(q)).active_piece == Some(q));
}

/// A turn is refused, leaving everything as it was, only when the turned
/// piece collides at all five kick tests.
pub proof fn law_turn_refused_when_no_kick_fits(b: Board, count: int)
    requires
        b.active_piece is Some,
        forall|m: int| 0 <= m < 5 ==> !#[trigger] fits(b.pile, kicked(b.active_piece->0, count, m)),
    ensures
        after_rotate(b, count) == b,
{
    reveal(after_rotate);
    lemma_rotate_from_none_fit(b, b.active_piece->0, count, 0);
}

proof fn lemma_set_active_controls(b: Board, p: Piece)
    requires
        -900 <= p.x <= 900,
        0 <= p.y <= 900,
    ensures
        same_controls(b, after_set_active(b, Some(p))),
    decreases height(Some(p)), 2int,
{
    crate::engine::lemma_set_active_column(b, p);
    let b1 = Board { active_piece: Some(p), ..b };
    let lim = fall_limit(b.pile, p, 0);
    let b2 = if lim == 0 {
        b1
    } else {
        Board { ghost_piece: Some(moved(p, 0, -(lim - 1), 0)), ..b1 }
    };
    let low = if b.lowest_y <= crate::piece::lowest(p) {
        b.lowest_y
    } else {
        crate::piece::lowest(p)
    };
    let b3 = Board {
        lowest_y: low,
        resets: if low < b.lowest_y {
            0
        } else {
            b.resets
        },
        ..b2
    };
    let b4 = if Some(p) != b.active_piece {
        Board {
            lock_timer: Timer(
                if fits(b.pile, moved(p, 0, -1, 0)) {
                    0
                } else {
                    30
                },
            ),
            ..b3
        }
    } else {
        b3
    };
    let b5 = Board { resets: (b4.resets + 1) as i32, ..b4 };
    if b5.resets > 15 {
        lemma_try_lock_controls(b5);
    }
}

proof fn lemma_try_lock_controls(b: Board)
    requires
        b.active_piece matches Some(a) ==> -900 <= a.x <= 900 && 0 <= a.y <= 900,
    ensures
        same_controls(b, after_try_lock(b)),
    decreases height(b.active_piece), 1int,
{
    reveal(after_lock_ghost);
    match try_move(b, 0, -1, 0) {
        None => {},
        Some(q) => {
            let a = b.active_piece->0;
            lemma_fits_pivot(b.pile, a, 0, -1, 0);
            crate::engine::lemma_placed_pivot(q);
            assert(q.y == a.y - 1);
            lemma_set_active_controls(b, q);
        },
    }
}

proof fn lemma_fall_controls(b: Board)
    ensures
        same_controls(b, after_fall(b)),
{
    reveal(after_fall);
    match try_move(b, 0, -1, 0) {
        None => {},
        Some(q) => {
            lemma_fits_pivot(b.pile, b.active_piece->0, 0, -1, 0);
            crate::engine::lemma_placed_pivot(q);
            lemma_set_active_controls(b, q);
        },
    }
}

/// The sideways slide ends where one more column would not fit (or where the
/// piece locked on the way).
proof fn lemma_slide_ends_blocked(b: Board, d: Direction)
    requires
        b.active_piece matches Some(a) ==> -900 <= a.x <= 900 && 0 <= a.y <= 900,
    ensures
        try_move(after_slide(b, d), dir_offset(d) as int, 0, 0) is None,
    decreases slide_room(b.active_piece, d),
{
    match try_move(b, dir_offset(d) as int, 0, 0) {
        None => {},
        Some(q) => {
            lemma_fits_pivot(b.pile, b.active_piece->0, dir_offset(d) as int, 0, 0);
            crate::engine::lemma_placed_pivot(q);
            crate::engine::lemma_set_active_column(b, q);
            lemma_slide_ends_blocked(after_set_active(b, Some(q)), d);
        },
    }
}

/// When the lock delay runs out on a piece that cannot move down, it locks
/// where its ghost is: the ghost's cells are filled with its kind and every
/// other cell is kept, no piece is active, a locked hold is released, and
/// the next spawn is timed (after the line-clear delay when a row is full,
/// else after the entry delay).
pub proof fn law_lock_delay_locks_grounded_piece(b: Board, x: int, y: int)
    requires
        core_ok(b),
        fires(b.lock_timer),
        b.active_piece is Some,
        !fits(b.pile, moved(b.active_piece->0, 0, -1, 0)),
        b.ghost_piece is Some,
        0 <= x < PILE_WIDTH,
        0 <= y < PILE_HEIGHT,
    ensures
        ({
            let g = b.ghost_piece->0;
            let a = stage_lock(b);
            &&& a.active_piece is None
            &&& a.ghost_piece is None
            &&& cell_at(a.pile, x, y) == if (exists|i: int|
                0 <= i < 4 && #[trigger] g.blocks[i] == (x as i32, y as i32)) {
                Some(g.kind)
            } else {
                cell_at(b.pile, x, y)
            }
            &&& a.spawn_timer == Timer(
                if has_full_row(a.pile) {
                    b.config.clear_delay
                } else {
                    b.config.are
                },
            )
            &&& b.hold matches HoldPiece::Locked(k) ==> a.hold == HoldPiece::Unlocked(k)
        }),
{
    reveal(stage_lock);
    let b1 = Board { lock_timer: ticked(b.lock_timer), ..b };
    crate::engine::lemma_placed_pivot(b.active_piece->0);
    assert(try_move(b1, 0, -1, 0) is None);
    assert(after_try_lock(b1) == after_lock_ghost(b1));
    crate::laws::law_hard_drop_fills_ghost(b1, x, y);
    reveal(after_lock_ghost);
}

/// When the fall timer runs out, the piece falls a row if it fits (keeping
/// it, with few lock resets, as the active piece) and the timer restarts: at
/// the soft-drop delay while soft drop is held, else at the gravity delay.
/// So a held soft drop keeps the piece falling every `softdrop` frames.
pub proof fn law_fall_timer_restarts(b: Board)
    requires
        core_ok(b),
        fires(b.fall_timer),
    ensures
        stage_fall(b).fall_timer == Timer(
            if b.movement.soft_dropping {
                b.config.softdrop
            } else {
                b.config.gravity
            },
        ),
        stage_fall(b).movement == b.movement,
        b.active_piece matches Some(p) ==> (fits(b.pile, moved(p, 0, -1, 0)) && 0 <= b.resets
            <= 14 ==> stage_fall(b).active_piece == Some(moved(p, 0, -1, 0))),
{
    reveal(stage_fall);
    let b1 = Board { fall_timer: ticked(b.fall_timer), ..b };
    lemma_fall_controls(b1);
    if let Some(p) = b.active_piece {
        if fits(b.pile, moved(p, 0, -1, 0)) && 0 <= b.resets <= 14 {
            reveal(after_fall);
            lemma_fits_pivot(b.pile, p, 0, -1, 0);
            law_ghost_marks_landing(b1, moved(p, 0, -1, 0));
        }
    }
}

/// When the sideways repeat timer runs out with a direction held: with a
/// repeat delay, the piece moves one column that way if it fits (keeping it,
/// with few lock resets, as the active piece) and the timer restarts at the
/// repeat delay, so it moves again every `arr` frames; with no repeat delay
/// it slides until one more column would not fit.
pub proof fn law_repeat_moves_every_arr_frames(b: Board, d: Direction)
    requires
        core_ok(b),
        fires(b.das_timer),
        b.movement.das == Some(d),
    ensures
        b.config.arr > 0 ==> stage_das(b).das_timer == Timer(b.config.arr),
        b.config.arr > 0 ==> (b.active_piece matches Some(p) ==> (fits(
            b.pile,
            moved(p, dir_offset(d) as int, 0, 0),
        ) && 0 <= b.resets <= 14 ==> stage_das(b).active_piece == Some(
            moved(p, dir_offset(d) as int, 0, 0),
        ))),
        b.config.arr == 0 ==> try_move(stage_das(b), dir_offset(d) as int, 0, 0) is None,
{
    reveal(stage_das);
    reveal(after_move);
    let b1 = Board { das_timer: ticked(b.das_timer), ..b };
    if let Some(p) = b.active_piece {
        crate::engine::lemma_placed_pivot(p);
        if fits(b.pile, moved(p, dir_offset(d) as int, 0, 0)) {
            lemma_fits_pivot(b.pile, p, dir_offset(d) as int, 0, 0);
            crate::engine::lemma_placed_pivot(moved(p, dir_offset(d) as int, 0, 0));
            lemma_set_active_controls(b1, moved(p, dir_offset(d) as int, 0, 0));
            crate::engine::lemma_set_active_column(b1, moved(p, dir_offset(d) as int, 0, 0));
            if 0 <= b.resets <= 14 {
                law_ghost_marks_landing(b1, moved(p, dir_offset(d) as int, 0, 0));
            }
        }
    }
    let m = after_move(b1, d);
    if b.config.arr == 0 {
        lemma_slide_ends_blocked(Board { das_timer: Timer(1), ..m }, d);
    }
}

/// A frame in which only the lock delay runs out locks a piece that cannot
/// move down, as `law_lock_delay_locks_grounded_piece` says: its ghost's
/// cells are filled, no piece is active and the next spawn is timed.
pub proof fn law_frame_locks_grounded_piece(
    b: Board,
    q: QueuePos,
    deck: Seq<PieceKind>,
    x: int,
    y: int,
)
    requires
        core_ok(b),
        !fires(b.line_clear_timer),
        !fires(b.spawn_timer),
        !fires(b.fall_timer),
        !fires(b.das_timer),
        fires(b.lock_timer),
        b.active_piece is Some,
        !fits(b.pile, moved(b.active_piece->0, 0, -1, 0)),
        b.ghost_piece is Some,
        0 <= x < PILE_WIDTH,
        0 <= y < PILE_HEIGHT,
    ensures
        ({
            let g = b.ghost_piece->0;
            let (a, q1) = after_timers(b, q, deck);
            &&& q1 == q
            &&& a.active_piece is None
            &&& a.ghost_piece is None
            &&& cell_at(a.pile, x, y) == if (exists|i: int|
                0 <= i < 4 && #[trigger] g.blocks[i] == (x as i32, y as i32)) {
                Some(g.kind)
            } else {
                cell_at(b.pile, x, y)
            }
            &&& a.spawn_timer == Timer(
                if has_full_row(a.pile) {
                    b.config.clear_delay
                } else {
                    b.config.are
                },
            )
        }),
{
    reveal(after_timers);
    reveal(stage_clear);
    reveal(stage_spawn);
    reveal(stage_fall);
    reveal(stage_das);
    let b4 = Board {
        line_clear_timer: ticked(b.line_clear_timer),
        spawn_timer: ticked(b.spawn_timer),
        fall_timer: ticked(b.fall_timer),
        das_timer: ticked(b.das_timer),
        ..b
    };
    assert(stage_das(stage_fall(stage_spawn(stage_clear(b), q, deck).0)) == b4);
    assert(stage_spawn(stage_clear(b), q, deck).1 == q);
    law_lock_delay_locks_grounded_piece(b4, x, y);
}

/// The direction opposite to `d`.
pub open spec fn opposite(d: Direction) -> Direction {
    if d == Direction::Left {
        Direction::Right
    } else {
        Direction::Left
    }
}

/// Whether the key for direction `d` is held.
pub open spec fn key_held(b: Board, d: Direction) -> bool {
    if d == Direction::Left {
        b.movement.move_left
    } else {
        b.movement.move_right
    }
}

/// Pressing a sideways key moves the piece one column that way if it fits
/// (keeping it, with few lock resets, as the active piece), marks the key
/// held, makes it the repeat direction and starts the repeat delay.
pub proof fn law_press_sideways(b: Board, q: QueuePos, deck: Seq<PieceKind>, d: Direction)
    requires
        core_ok(b),
    ensures
        ({
            let r = after_input(b, q, deck, Input::Begin(Action::Move(d)));
            &&& r.1 == q
            &&& r.0.das_timer == Timer(b.config.das)
            &&& r.0.movement.das == Some(d)
            &&& key_held(r.0, d)
            &&& key_held(r.0, opposite(d)) == key_held(b, opposite(d))
            &&& r.0.movement.soft_dropping == b.movement.soft_dropping
            &&& b.active_piece matches Some(p) ==> (fits(b.pile, moved(p, dir_offset(d) as int, 0, 0))
                && 0 <= b.resets <= 14 ==> r.0.active_piece == Some(moved(p, dir_offset(d) as int, 0, 0)))
            &&& b.active_piece matches Some(p) ==> (!fits(b.pile, moved(p, dir_offset(d) as int, 0, 0))
                ==> r.0.active_piece == b.active_piece && r.0.pile == b.pile)
        }),
{
    reveal(after_input);
    reveal(after_move);
    let m = if d == Direction::Left {
        MovementState { move_left: true, das: Some(d), ..b.movement }
    } else {
        MovementState { move_right: true, das: Some(d), ..b.movement }
    };
    let b1 = Board { movement: m, ..b };
    if let Some(p) = b.active_piece {
        crate::engine::lemma_placed_pivot(p);
        if fits(b.pile, moved(p, dir_offset(d) as int, 0, 0)) {
            let t = moved(p, dir_offset(d) as int, 0, 0);
            lemma_fits_pivot(b.pile, p, dir_offset(d) as int, 0, 0);
            crate::engine::lemma_placed_pivot(t);
            lemma_set_active_controls(b1, t);
            if 0 <= b.resets <= 14 {
                law_ghost_marks_landing(b1, t);
            }
        }
    }
}

/// Releasing a sideways key marks it released; the repeat turns to the other
/// direction, restarting its delay, if that key is still held, and stops
/// otherwise. The piece does not move.
pub proof fn law_release_sideways(b: Board, q: QueuePos, deck: Seq<PieceKind>, d: Direction)
    ensures
        ({
            let r = after_input(b, q, deck, Input::End(Action::Move(d)));
            &&& r.1 == q
            &&& !key_held(r.0, d)
            &&& key_held(r.0, opposite(d)) == key_held(b, opposite(d))
            &&& r.0.movement.das == if key_held(b, opposite(d)) {
                Some(opposite(d))
            } else {
                None
            }
            &&& r.0.das_timer == Timer(
                if key_held(b, opposite(d)) {
                    b.config.das
                } else {
                    0
                },
            )
            &&& r.0.active_piece == b.active_piece
            &&& r.0.pile == b.pile
        }),
{
    reveal(after_input);
}

/// Pressing soft drop drops the piece a row at once if it fits (keeping it,
/// with few lock resets, as the active piece), and from then on the fall
/// timer runs at the soft-drop delay.
pub proof fn law_press_soft_drop(b: Board, q: QueuePos, deck: Seq<PieceKind>)
    requires
        core_ok(b),
    ensures
        ({
            let r = after_input(b, q, deck, Input::Begin(Action::Softdrop));
            &&& r.1 == q
            &&& r.0.movement.soft_dropping
            &&& r.0.fall_timer == Timer(b.config.softdrop)
            &&& b.active_piece matches Some(p) ==> (fits(b.pile, moved(p, 0, -1, 0)) && 0 <= b.resets
                <= 14 ==> r.0.active_piece == Some(moved(p, 0, -1, 0)))
        }),
{
    reveal(after_input);
    reveal(after_fall);
    lemma_fall_controls(b);
    if let Some(p) = b.active_piece {
        if fits(b.pile, moved(p, 0, -1, 0)) && 0 <= b.resets <= 14 {
            lemma_fits_pivot(b.pile, p, 0, -1, 0);
            law_ghost_marks_landing(b, moved(p, 0, -1, 0));
        }
    }
}

/// Releasing soft drop brings the fall timer back to the gravity delay and
/// leaves the piece where it is.
pub proof fn law_release_soft_drop(b: Board, q: QueuePos, deck: Seq<PieceKind>)
    ensures
        ({
            let r = after_input(b, q, deck, Input::End(Action::Softdrop));
            &&& r.1 == q
            &&& !r.0.movement.soft_dropping
            &&& r.0.fall_timer == Timer(b.config.gravity)
            &&& r.0.active_piece == b.active_piece
            &&& r.0.pile == b.pile
        }),
{
    reveal(after_input);
}

/// Whether kick test `n` is the first at which `p`, turned `count` times,
/// fits the pile.
pub open spec fn first_fitting_kick(pile: Pile, p: Piece, count: int, n: int) -> bool {
    &&& 0 <= n < 5
    &&& forall|m: int| 0 <= m < n ==> !#[trigger] fits(pile, kicked(p, count, m))
    &&& fits(pile, kicked(p, count, n))
}

/// The turn keys: turning right is one quarter turn clockwise, flipping two
/// and turning left three (one counter-clockwise); each takes the first kick
/// test at which the turned piece fits.
pub proof fn law_turn_keys(b: Board, q: QueuePos, deck: Seq<PieceKind>, n: int)
    requires
        core_ok(b),
        0 <= b.resets <= 14,
        b.active_piece is Some,
    ensures
        ({
            let p = b.active_piece->0;
            let right = after_input(b, q, deck, Input::Begin(Action::Rotate(Direction::Right)));
            let flip = after_input(b, q, deck, Input::Begin(Action::Flip));
            let left = after_input(b, q, deck, Input::Begin(Action::Rotate(Direction::Left)));
            &&& first_fitting_kick(b.pile, p, 1, n) ==> right.0.active_piece == Some(kicked(p, 1, n))
                && kicked(p, 1, n).orientation == rotated(p.orientation, 1) && right.1 == q
            &&& first_fitting_kick(b.pile, p, 2, n) ==> flip.0.active_piece == Some(kicked(p, 2, n))
                && kicked(p, 2, n).orientation == rotated(p.orientation, 2) && flip.1 == q
            &&& first_fitting_kick(b.pile, p, 3, n) ==> left.0.active_piece == Some(kicked(p, 3, n))
                && kicked(p, 3, n).orientation == rotated(p.orientation, 3) && left.1 == q
        }),
{
    reveal(after_input);
    let p = b.active_piece->0;
    if first_fitting_kick(b.pile, p, 1, n) {
        law_turn_takes_first_fitting_kick(b, 1, n);
    }
    if first_fitting_kick(b.pile, p, 2, n) {
        law_turn_takes_first_fitting_kick(b, 2, n);
    }
    if first_fitting_kick(b.pile, p, 3, n) {
        law_turn_takes_first_fitting_kick(b, 3, n);
    }
}

/// Pressing hard drop locks the piece where its ghost is: the ghost's cells
/// are filled with its kind, every other cell is kept, and no piece is
/// active.
pub proof fn law_hard_drop_key(b: Board, q: QueuePos, deck: Seq<PieceKind>, x: int, y: int)
    requires
        core_ok(b),
        b.ghost_piece is Some,
        0 <= x < PILE_WIDTH,
        0 <= y < PILE_HEIGHT,
    ensures
        ({
            let g = b.ghost_piece->0;
            let (a, q1) = after_input(b, q, deck, Input::Begin(Action::Harddrop));
            &&& q1 == q
            &&& a.active_piece is None
            &&& a.ghost_piece is None
            &&& cell_at(a.pile, x, y) == if (exists|i: int|
                0 <= i < 4 && #[trigger] g.blocks[i] == (x as i32, y as i32)) {
                Some(g.kind)
            } else {
                cell_at(b.pile, x, y)
            }
        }),
{
    reveal(after_input);
    crate::laws::law_hard_drop_fills_ghost(b, x, y);
}

/// What spawning a piece of kind `k` does: the game is over when the piece
/// does not fit at the spawn position; otherwise it falls a row at once when
/// that fits, and gravity starts.
proof fn lemma_spawn_lands(b: Board, k: PieceKind)
    requires
        core_ok(b),
    ensures
        ({
            let s = piece_at(k, Orientation::N, 4, 22);
            let a = after_spawn(b, k);
            &&& !fits(b.pile, s) ==> a.game_over
            &&& a.hold == b.hold
            &&& fits(b.pile, s) && fits(b.pile, moved(s, 0, -1, 0)) ==> {
                &&& a.active_piece == Some(piece_at(k, Orientation::N, 4, 21))
                &&& a.game_over == b.game_over
                &&& a.pile == b.pile
                &&& a.fall_timer == Timer(
                    if b.movement.soft_dropping {
                        b.config.softdrop
                    } else {
                        b.config.gravity
                    },
                )
            }
        }),
{
    reveal(after_spawn);
    reveal(after_fall);
    let s = crate::engine::spawn_piece(k);
    crate::engine::lemma_spawn_piece_placed(k);
    crate::engine::lemma_placed_pivot(s);
    crate::laws::lemma_spawn_keeps_hold(b, k);
    assert(s == piece_at(k, Orientation::N, 4, 22));
    let b0 = Board { resets: 0, ..b };
    let c = after_set_active(b0, Some(s));
    assert(c.active_piece == Some(s));
    assert(c.pile == b.pile);
    assert(c.resets == 1);
    if fits(b.pile, s) {
        law_ghost_marks_landing(b0, s);
        assert(moved(s, 0, 0, 0) == s);
        crate::engine::lemma_fall_limit_ge(b.pile, s, 1);
        let g = c.ghost_piece->0;
        assert(g == moved(s, 0, -(fall_limit(b.pile, s, 0) - 1), 0));
        lemma_fits_pivot(b.pile, s, 0, -(fall_limit(b.pile, s, 0) - 1), 0);
        let c2 = Board { lowest_y: crate::piece::lowest(s), ..c };
        assert(core_ok(c2));
        if fits(b.pile, moved(s, 0, -1, 0)) {
            let t = moved(s, 0, -1, 0);
            lemma_fits_pivot(b.pile, s, 0, -1, 0);
            law_ghost_marks_landing(c2, t);
            assert(t == piece_at(k, Orientation::N, 4, 21));
            crate::engine::lemma_placed_pivot(t);
            lemma_set_active_controls(c2, t);
        }
    }
}

/// When the spawn timer runs out, the next piece of the deck is taken and
/// spawns facing north with its pivot in column 4, row 22: the game is over
/// when it does not fit there; otherwise it falls a row at once (to row 21)
/// when that fits, and gravity starts.
pub proof fn law_spawn_takes_next_piece(b: Board, q: QueuePos, deck: Seq<PieceKind>)
    requires
        core_ok(b),
        fires(b.spawn_timer),
        q.taken < deck.len(),
    ensures
        ({
            let k = deck[q.taken as int];
            let s = piece_at(k, Orientation::N, 4, 22);
            let (a, q1) = stage_spawn(b, q, deck);
            &&& q1.taken == q.taken + 1
            &&& !fits(b.pile, s) ==> a.game_over
            &&& fits(b.pile, s) && fits(b.pile, moved(s, 0, -1, 0)) ==> {
                &&& a.active_piece == Some(piece_at(k, Orientation::N, 4, 21))
                &&& a.game_over == b.game_over
                &&& a.pile == b.pile
                &&& a.fall_timer == Timer(
                    if b.movement.soft_dropping {
                        b.config.softdrop
                    } else {
                        b.config.gravity
                    },
                )
            }
        }),
{
    reveal(stage_spawn);
    let k = deck[q.taken as int];
    lemma_spawn_lands(Board { spawn_timer: ticked(b.spawn_timer), ..b }, k);
}

/// Pressing hold with a piece falling and the hold not locked swaps it out:
/// the hold then keeps the falling piece's kind, locked, and the piece held
/// before (or, with nothing held, the next piece of the deck) spawns in its
/// place as a spawn timer would spawn it.
pub proof fn law_hold_swaps(b: Board, q: QueuePos, deck: Seq<PieceKind>)
    requires
        core_ok(b),
        b.active_piece is Some,
        !(b.hold is Locked),
        q.taken < deck.len(),
    ensures
        ({
            let a = b.active_piece->0;
            let k = match b.hold {
                HoldPiece::Unlocked(h) => h,
                _ => deck[q.taken as int],
            };
            let s = piece_at(k, Orientation::N, 4, 22);
            let (r, q1) = after_input(b, q, deck, Input::Begin(Action::Hold));
            &&& r.hold == HoldPiece::Locked(a.kind)
            &&& q1.taken == if b.hold is Empty {
                q.taken + 1
            } else {
                q.taken
            }
            &&& !fits(b.pile, s) ==> r.game_over
            &&& fits(b.pile, s) && fits(b.pile, moved(s, 0, -1, 0)) ==> r.active_piece == Some(
                piece_at(k, Orientation::N, 4, 21),
            ) && r.pile == b.pile && r.game_over == b.game_over
        }),
{
    reveal(after_input);
    reveal(crate::engine::after_hold);
    let a = b.active_piece->0;
    let b1 = Board { hold: HoldPiece::Locked(a.kind), fall_timer: Timer(0), ..b };
    let k = match b.hold {
        HoldPiece::Unlocked(h) => h,
        _ => deck[q.taken as int],
    };
    lemma_spawn_lands(b1, k);
}

/// When the line-clear timer runs out, the full rows are cleared: the other
/// rows move down in order, empty rows fill the top, and no row is full.
/// Until then the pile is left as it is.
pub proof fn law_line_clear_timer(b: Board)
    ensures
        fires(b.line_clear_timer) ==> stage_clear(b).pile.0@ == cleared(b.pile.0@) && !has_full_row(
            stage_clear(b).pile,
        ),
        !fires(b.line_clear_timer) ==> stage_clear(b).pile == b.pile,
        stage_clear(b).active_piece == b.active_piece,
{
    reveal(stage_clear);
    crate::play::lemma_cleared_pile(b.pile);
}

/// Placing a fitting piece in a new spot (with few resets) times the lock
/// delay: 30 frames when it cannot move down, none while it can. Reaching a
/// row lower than any before restarts the reset count; otherwise each
/// placement counts one more.
pub proof fn law_lock_delay_starts_on_ground(b: Board, p: Piece)
    requires
        core_ok(b),
        placed_ok(p),
        fits(b.pile, p),
        0 <= b.resets <= 14,
        b.active_piece != Some(p),
    ensures
        after_set_active(b, Some(p)).lock_timer == Timer(
            if fits(b.pile, moved(p, 0, -1, 0)) {
                0
            } else {
                30
            },
        ),
        after_set_active(b, Some(p)).resets == if crate::piece::lowest(p) < b.lowest_y {
            1
        } else {
            b.resets + 1
        },
{
    crate::engine::lemma_placed_pivot(p);
}

/// After fifteen lock resets without reaching a new lowest row, placing the
/// piece once more forces it: if it cannot move down it locks at once, its
/// cells filled into the pile, and no piece is active.
pub proof fn law_reset_limit_locks(b: Board, p: Piece, x: int, y: int)
    requires
        core_ok(b),
        placed_ok(p),
        fits(b.pile, p),
        !fits(b.pile, moved(p, 0, -1, 0)),
        b.resets >= 15,
        b.resets < 1000,
        crate::piece::lowest(p) >= b.lowest_y,
        0 <= x < PILE_WIDTH,
        0 <= y < PILE_HEIGHT,
    ensures
        ({
            let a = after_set_active(b, Some(p));
            &&& a.active_piece is None
            &&& cell_at(a.pile, x, y) == if (exists|i: int|
                0 <= i < 4 && #[trigger] p.blocks[i] == (x as i32, y as i32)) {
                Some(p.kind)
            } else {
                cell_at(b.pile, x, y)
            }
        }),
{
    crate::engine::lemma_placed_pivot(p);
    assert(moved(p, 0, 0, 0) == p);
    crate::engine::lemma_fall_limit_ge(b.pile, p, 1);
    assert(fall_limit(b.pile, p, 1) == 1);
    let b1 = Board { active_piece: Some(p), ghost_piece: Some(p), ..b };
    let b4 = if Some(p) != b.active_piece {
        Board { lock_timer: Timer(30), ..b1 }
    } else {
        b1
    };
    let b5 = Board { resets: (b.resets + 1) as i32, ..b4 };
    assert(after_set_active(b, Some(p)) == after_try_lock(b5));
    assert(try_move(b5, 0, -1, 0) is None);
    crate::laws::law_hard_drop_fills_ghost(b5, x, y);
}

} // verus!
