//! Properties of the engine as a whole, stated over the specifications of its
//! operations and proved from them.
use vstd::prelude::*;

use crate::engine::{
    after_fall, after_spawn, lemma_spawn_piece_placed, spawn_piece,
    after_input, after_hold, after_lock_ghost, after_move, after_set_active, after_update, board_ok,
    core_ok, fall_limit, fires, fits, lemma_fall_limit_ge, lemma_fits_pivot, lemma_placed_pivot, moved,
    placed_ok, ticked, try_move, after_inputs, pulled, Action, Board, Direction, Engine, HoldPiece,
    Input, QueuePos, Timer, after_timers, after_try_lock, after_rotate, after_slide, dir_offset, height,
    rotate_from, slide_room, updated_by, stage_clear, stage_das, stage_fall, stage_lock, stage_spawn,
};
use crate::next_queue::{is_bag, lemma_seeded_deck_prefix, NextQueue};
use crate::piece::{Piece, PieceKind};
use crate::pile::{cell_at, Pile};
use crate::{PILE_HEIGHT, PILE_WIDTH};

verus! {

/// Once the game is over, a frame changes nothing, whatever the inputs.
pub proof fn law_game_over_is_final(
    b: Board,
    q: QueuePos,
    deck: Seq<PieceKind>,
    inputs: Seq<Input>,
)
    requires
        b.game_over,
    ensures
        after_update(b, q, deck, inputs) == (b, q),
{
}

/// The pieces taken from the queue come in bags: each run of seven, counted
/// from the first piece of the game, holds every kind exactly once.
pub proof fn law_pieces_come_in_bags(queue: NextQueue, k: int)
    requires
        queue.wf(),
        0 <= k,
        7 * k + 7 <= queue.taken().len(),
    ensures
        is_bag(queue.taken().subrange(7 * k, 7 * k + 7)),
{
    let d = queue.dealt();
    let t = queue.taken();
    assert(t.len() <= d.len());
    assert(k < d.len() / 7);
    assert(is_bag(d.subrange(7 * k, 7 * k + 7)));
    assert(t.subrange(7 * k, 7 * k + 7) =~= d.subrange(7 * k, 7 * k + 7));
}

/// A locked hold refuses to swap: the hold input then changes nothing.
pub proof fn law_locked_hold_refuses(b: Board, q: QueuePos, deck: Seq<PieceKind>, k: PieceKind)
    requires
        b.hold == HoldPiece::Locked(k),
    ensures
        after_input(b, q, deck, Input::Begin(Action::Hold)) == (b, q),
{
    reveal(after_input);
    reveal(after_hold);
}

/// Spawning a piece leaves the hold as it was.
pub proof fn lemma_spawn_keeps_hold(b: Board, kind: PieceKind)
    requires
        core_ok(b),
    ensures
        after_spawn(b, kind).hold == b.hold,
{
    reveal(after_spawn);
    reveal(after_fall);
    lemma_spawn_piece_placed(kind);
    let p = spawn_piece(kind);
    lemma_placed_pivot(p);
    let b0 = Board { resets: 0, ..b };
    let b1 = after_set_active(b0, Some(p));
    assert(b1.hold == b.hold);
    assert(b1.active_piece == Some(p));
    assert(b1.resets == 1);
    let b2 = Board { lowest_y: crate::piece::lowest(p), ..b1 };
    match try_move(b2, 0, -1, 0) {
        None => {},
        Some(q) => {
            lemma_fits_pivot(b2.pile, p, 0, -1, 0);
            assert(after_set_active(b2, Some(q)).hold == b.hold);
        },
    }
}

/// A hold that goes through locks the hold with the kind of the piece that
/// was active, so that it cannot be used again before the next lock.
pub proof fn law_hold_locks(b: Board, q: QueuePos, deck: Seq<PieceKind>)
    requires
        board_ok(b),
        b.active_piece is Some,
        !(b.hold is Locked),
    ensures
        after_input(b, q, deck, Input::Begin(Action::Hold)).0.hold == HoldPiece::Locked(
            b.active_piece->0.kind,
        ),
{
    reveal(after_input);
    reveal(after_hold);
    let a = b.active_piece->0;
    let b1 = Board { hold: HoldPiece::Locked(a.kind), fall_timer: Timer(0), ..b };
    match b.hold {
        HoldPiece::Unlocked(k) => lemma_spawn_keeps_hold(b1, k),
        HoldPiece::Empty => lemma_spawn_keeps_hold(b1, deck[q.taken as int]),
        HoldPiece::Locked(_) => {},
    }
}

/// Placing a fitting piece with few resets leaves it active, with its ghost
/// straight below it where it would land: the ghost fits, one row lower it
/// would not.
pub proof fn law_ghost_marks_landing(b: Board, p: Piece)
    requires
        core_ok(b),
        placed_ok(p),
        fits(b.pile, p),
        0 <= b.resets <= 14,
    ensures
        after_set_active(b, Some(p)).active_piece == Some(p),
        ({
            let g = after_set_active(b, Some(p)).ghost_piece->0;
            &&& after_set_active(b, Some(p)).ghost_piece is Some
            &&& g.kind == p.kind
            &&& g.orientation == p.orientation
            &&& g.x == p.x
            &&& g.y <= p.y
            &&& fits(b.pile, g)
            &&& !fits(b.pile, moved(g, 0, -1, 0))
        }),
{
    lemma_placed_pivot(p);
    assert(moved(p, 0, 0, 0) == p);
    lemma_fall_limit_ge(b.pile, p, 1);
    let lim = fall_limit(b.pile, p, 0);
    lemma_fall_limit_stops(b.pile, p, 0);
    let g = moved(p, 0, -(lim - 1), 0);
    assert(moved(g, 0, -1, 0) == moved(p, 0, -lim, 0));
}

/// Below the pivot's row plus three, every piece leaves the grid, so the drop
/// search ends at a distance where the piece no longer fits, with all shorter
/// drops fitting.
pub proof fn lemma_fall_limit_stops(pile: Pile, p: Piece, d: int)
    requires
        placed_ok(p),
        0 <= d <= fall_limit(pile, p, 0),
        d <= p.y + 1,
        fall_limit(pile, p, 0) == fall_limit(pile, p, d),
    ensures
        fall_limit(pile, p, 0) <= p.y + 1,
        !fits(pile, moved(p, 0, -fall_limit(pile, p, 0), 0)),
        fall_limit(pile, p, 0) >= 1 ==> fits(pile, moved(p, 0, -(fall_limit(pile, p, 0) - 1), 0)),
    decreases p.y + 1 - d,
{
    lemma_placed_pivot(p);
    if fits(pile, moved(p, 0, -d, 0)) {
        lemma_fits_pivot(pile, p, 0, -d, 0);
        lemma_fall_limit_ge(pile, p, d + 1);
        lemma_fall_limit_stops(pile, p, d + 1);
    } else {
        if d >= 1 {
            lemma_fall_limit_before(pile, p, 0, d);
        }
    }
}

proof fn lemma_fall_limit_before(pile: Pile, p: Piece, e: int, d: int)
    requires
        0 <= e < d <= 64,
        fall_limit(pile, p, e) == d,
    ensures
        fits(pile, moved(p, 0, -(d - 1), 0)),
    decreases d - e,
{
    if e < 64 && fits(pile, moved(p, 0, -e, 0)) {
        if e + 1 < d {
            lemma_fall_limit_before(pile, p, e + 1, d);
        }
    } else {
        assert(fall_limit(pile, p, e) == e);
    }
}

/// Hard drop fills the cells under the ghost with its kind and leaves every
/// other cell as it was; no piece is active afterwards.
pub proof fn law_hard_drop_fills_ghost(b: Board, x: int, y: int)
    requires
        b.ghost_piece is Some,
        0 <= x < PILE_WIDTH,
        0 <= y < PILE_HEIGHT,
        core_ok(b),
    ensures
        ({
            let g = b.ghost_piece->0;
            let a = after_lock_ghost(b);
            &&& a.active_piece is None
            &&& a.ghost_piece is None
            &&& cell_at(a.pile, x, y) == if (exists|i: int|
                0 <= i < 4 && #[trigger] g.blocks[i] == (x as i32, y as i32)) {
                Some(g.kind)
            } else {
                cell_at(b.pile, x, y)
            }
        }),
{
    reveal(after_lock_ghost);
    let g = b.ghost_piece->0;
    assert(crate::pile::in_bounds(g.blocks[0]) && crate::pile::in_bounds(g.blocks[1])
        && crate::pile::in_bounds(g.blocks[2]) && crate::pile::in_bounds(g.blocks[3]));
    if exists|i: int| 0 <= i < 4 && #[trigger] g.blocks[i] == (x as i32, y as i32) {
        let i = choose|i: int| 0 <= i < 4 && #[trigger] g.blocks[i] == (x as i32, y as i32);
        assert(g.blocks[i] == (x as i32, y as i32));
    }
}

/// A move to the left that succeeds, followed by a move to the right, puts
/// the piece back where it was.
pub proof fn law_move_left_then_right(b: Board)
    requires
        board_ok(b),
        b.active_piece is Some,
        fits(b.pile, b.active_piece->0),
        b.resets <= 13,
        try_move(b, -1, 0, 0) is Some,
    ensures
        after_move(after_move(b, Direction::Left), Direction::Right).active_piece == b.active_piece,
{
    reveal(after_move);
    let p = b.active_piece->0;
    lemma_placed_pivot(p);
    let q = moved(p, -1, 0, 0);
    lemma_fits_pivot(b.pile, p, -1, 0, 0);
    let b1 = after_set_active(b, Some(q));
    assert(b1.active_piece == Some(q));
    assert(b1.pile == b.pile);
    assert(moved(q, 1, 0, 0) == p);
    lemma_placed_pivot(q);
    assert(b1.resets <= 14);
}

/// Releasing the hold, flip, rotate or hard-drop key does nothing: such an
/// input leaves the board and the queue as they were, and a frame that ends
/// with one ends as the frame without it.
pub proof fn law_release_is_ignored(
    b: Board,
    q: QueuePos,
    deck: Seq<PieceKind>,
    inputs: Seq<Input>,
    a: Action,
)
    requires
        !(a is Move),
        !(a is Softdrop),
    ensures
        after_input(b, q, deck, Input::End(a)) == (b, q),
        after_update(b, q, deck, inputs.push(Input::End(a))) == after_update(b, q, deck, inputs),
{
    reveal(after_input);
    assert(inputs.push(Input::End(a)).drop_last() =~= inputs);
}

/// The first piece shown in the queue is the next one taken from it, and the
/// pieces shown follow each other in the order they are dealt.
pub proof fn law_queue_front_is_taken_next(e: Engine, deck: Seq<PieceKind>, i: int)
    requires
        e.wf(),
        e.dealt().is_prefix_of(deck),
        0 <= i < e.upcoming().len(),
    ensures
        e.upcoming().len() >= 5,
        pulled(deck, e.queue_pos()).0 == e.upcoming()[0],
        pulled(deck, e.queue_pos()).1.taken == e.queue_pos().taken + 1,
        deck[e.queue_pos().taken + i] == e.upcoming()[i],
{
    Engine::lemma_wf(e);
    let n = e.dealt().len() - e.upcoming().len();
    assert(e.upcoming()[0] == e.dealt().skip(n)[0]);
    assert(e.upcoming()[i] == e.dealt().skip(n)[i]);
}

/// The hold key cannot act: the hold is locked, or no piece is active (nor
/// its ghost).
pub open spec fn hold_idle(b: Board) -> bool {
    b.hold is Locked || (b.active_piece is None && b.ghost_piece is None)
}

/// The active piece, if any, lies where a few more steps cannot overflow.
pub open spec fn steady(b: Board) -> bool {
    b.active_piece matches Some(p) ==> -900 <= p.x <= 900 && 0 <= p.y <= 900
}

/// A piece that fits lies well inside the bounds of `steady`.
proof fn lemma_fits_steady(pile: Pile, p: Piece, dx: int, dy: int, r: int)
    requires
        fits(pile, moved(p, dx, dy, r)),
    ensures
        placed_ok(moved(p, dx, dy, r)),
        -900 <= moved(p, dx, dy, r).x <= 900,
        0 <= moved(p, dx, dy, r).y <= 900,
{
    lemma_fits_pivot(pile, p, dx, dy, r);
}

proof fn lemma_set_active_idle(b: Board, p: Piece)
    requires
        -900 <= p.x <= 900,
        0 <= p.y <= 900,
        b.hold is Locked,
    ensures
        hold_idle(after_set_active(b, Some(p))),
        steady(after_set_active(b, Some(p))),
    decreases height(Some(p)), 2int,
{
    crate::engine::lemma_set_active_column(b, p);
    let b1 = Board { active_piece: Some(p), ..b };
    let lim = fall_limit(b.pile, p, 0);
    let b2 = if lim == 0 {
        b1
    } else {
        Board { ghost_piece: Some(moved(p, 0, -(lim - 1), 0)), ..b1 }
    };
    let low = if b.lowest_y <= crate::piece::lowest(p) {
        b.lowest_y
    } else {
        crate::piece::lowest(p)
    };
    let b3 = Board {
        lowest_y: low,
        resets: if low < b.lowest_y {
            0
        } else {
            b.resets
        },
        ..b2
    };
    let b4 = if Some(p) != b.active_piece {
        Board {
            lock_timer: Timer(
                if fits(b.pile, moved(p, 0, -1, 0)) {
                    0
                } else {
                    30
                },
            ),
            ..b3
        }
    } else {
        b3
    };
    let b5 = Board { resets: (b4.resets + 1) as i32, ..b4 };
    if b5.resets > 15 {
        lemma_try_lock_idle(b5);
    }
}

proof fn lemma_lock_ghost_idle(b: Board)
    requires
        hold_idle(b),
        steady(b),
    ensures
        hold_idle(after_lock_ghost(b)),
        steady(after_lock_ghost(b)),
{
    reveal(after_lock_ghost);
}

proof fn lemma_try_lock_idle(b: Board)
    requires
        hold_idle(b),
        steady(b),
    ensures
        hold_idle(after_try_lock(b)),
        steady(after_try_lock(b)),
    decreases height(b.active_piece), 1int,
{
    lemma_lock_ghost_idle(b);
    match try_move(b, 0, -1, 0) {
        None => {},
        Some(q) => {
            let a = b.active_piece->0;
            lemma_fits_steady(b.pile, a, 0, -1, 0);
            assert(q.y == a.y - 1);
            lemma_set_active_idle(b, q);
        },
    }
}

proof fn lemma_fall_idle(b: Board)
    requires
        hold_idle(b),
        steady(b),
    ensures
        hold_idle(after_fall(b)),
        steady(after_fall(b)),
{
    reveal(after_fall);
    match try_move(b, 0, -1, 0) {
        None => {},
        Some(q) => {
            lemma_fits_steady(b.pile, b.active_piece->0, 0, -1, 0);
            lemma_set_active_idle(b, q);
        },
    }
}

proof fn lemma_move_idle(b: Board, d: Direction)
    requires
        hold_idle(b),
        steady(b),
    ensures
        hold_idle(after_move(b, d)),
        steady(after_move(b, d)),
{
    reveal(after_move);
    match try_move(b, dir_offset(d) as int, 0, 0) {
        None => {},
        Some(q) => {
            lemma_fits_steady(b.pile, b.active_piece->0, dir_offset(d) as int, 0, 0);
            lemma_set_active_idle(b, q);
        },
    }
}

proof fn lemma_slide_idle(b: Board, d: Direction)
    requires
        hold_idle(b),
        steady(b),
    ensures
        hold_idle(after_slide(b, d)),
        steady(after_slide(b, d)),
    decreases slide_room(b.active_piece, d),
{
    match try_move(b, dir_offset(d) as int, 0, 0) {
        None => {},
        Some(q) => {
            lemma_fits_pivot(b.pile, b.active_piece->0, dir_offset(d) as int, 0, 0);
            crate::engine::lemma_set_active_column(b, q);
            lemma_fits_steady(b.pile, b.active_piece->0, dir_offset(d) as int, 0, 0);
            lemma_set_active_idle(b, q);
            lemma_slide_idle(after_set_active(b, Some(q)), d);
        },
    }
}

proof fn lemma_rotate_from_idle(b: Board, p: Piece, count: int, n: int)
    requires
        hold_idle(b),
        steady(b),
    ensures
        hold_idle(rotate_from(b, p, count, n)),
        steady(rotate_from(b, p, count, n)),
    decreases 5 - n,
{
    if 0 <= n < 5 {
        let k = crate::piece::kick(p.kind, p.orientation, crate::piece::rotated(p.orientation, count), n);
        match try_move(b, k.0 as int, k.1 as int, count) {
            Some(q) => {
                lemma_fits_steady(b.pile, b.active_piece->0, k.0 as int, k.1 as int, count);
                lemma_set_active_idle(b, q);
            },
            None => lemma_rotate_from_idle(b, p, count, n + 1),
        }
    }
}

proof fn lemma_spawn_stage_idle(c: Board, q: QueuePos, deck: Seq<PieceKind>)
    requires
        c.hold is Locked,
        steady(c),
    ensures
        hold_idle(stage_spawn(c, q, deck).0),
        steady(stage_spawn(c, q, deck).0),
{
    reveal(stage_spawn);
    let c1 = Board { spawn_timer: ticked(c.spawn_timer), ..c };
    if fires(c.spawn_timer) {
        reveal(after_spawn);
        let k = pulled(deck, q).0;
        let p = spawn_piece(k);
        lemma_spawn_piece_placed(k);
        lemma_placed_pivot(p);
        let s0 = Board { resets: 0, ..c1 };
        lemma_set_active_idle(s0, p);
        let s1 = after_set_active(s0, Some(p));
        let a = s1.active_piece->0;
        lemma_fall_idle(Board { lowest_y: crate::piece::lowest(a), ..s1 });
    }
}

proof fn lemma_das_stage_idle(f: Board)
    requires
        hold_idle(f),
        steady(f),
    ensures
        hold_idle(stage_das(f)),
        steady(stage_das(f)),
{
    reveal(stage_das);
    let d1 = Board { das_timer: ticked(f.das_timer), ..f };
    if fires(f.das_timer) {
        let d = d1.movement.das->0;
        lemma_move_idle(d1, d);
        let m = after_move(d1, d);
        lemma_slide_idle(Board { das_timer: Timer(1), ..m }, d);
    }
}

proof fn lemma_timers_idle(b: Board, q: QueuePos, deck: Seq<PieceKind>)
    requires
        b.hold is Locked,
        steady(b),
    ensures
        hold_idle(after_timers(b, q, deck).0),
        steady(after_timers(b, q, deck).0),
{
    reveal(after_timers);
    reveal(stage_clear);
    reveal(stage_fall);
    reveal(stage_lock);
    let c = stage_clear(b);
    lemma_spawn_stage_idle(c, q, deck);
    let s = stage_spawn(c, q, deck).0;
    lemma_fall_idle(Board { fall_timer: ticked(s.fall_timer), ..s });
    let f = stage_fall(s);
    lemma_das_stage_idle(f);
    let g = stage_das(f);
    lemma_try_lock_idle(Board { lock_timer: ticked(g.lock_timer), ..g });
}

proof fn lemma_input_idle(b: Board, q: QueuePos, deck: Seq<PieceKind>, input: Input)
    requires
        hold_idle(b),
        steady(b),
    ensures
        hold_idle(after_input(b, q, deck, input).0),
        steady(after_input(b, q, deck, input).0),
        input == Input::Begin(Action::Hold) ==> after_input(b, q, deck, input) == (b, q),
{
    reveal(after_input);
    reveal(after_hold);
    reveal(after_rotate);
    lemma_fall_idle(b);
    lemma_lock_ghost_idle(b);
    match input {
        Input::Begin(Action::Move(d)) => {
            let m = if d == Direction::Left {
                crate::engine::MovementState { move_left: true, das: Some(d), ..b.movement }
            } else {
                crate::engine::MovementState { move_right: true, das: Some(d), ..b.movement }
            };
            lemma_move_idle(Board { movement: m, ..b }, d);
        },
        _ => {
            if let Some(p) = b.active_piece {
                lemma_rotate_from_idle(b, p, 1, 0);
                lemma_rotate_from_idle(b, p, 2, 0);
                lemma_rotate_from_idle(b, p, 3, 0);
            }
        },
    }
}

proof fn lemma_inputs_idle(b: Board, q: QueuePos, deck: Seq<PieceKind>, inputs: Seq<Input>)
    requires
        hold_idle(b),
        steady(b),
    ensures
        hold_idle(after_inputs(b, q, deck, inputs).0),
        steady(after_inputs(b, q, deck, inputs).0),
    decreases inputs.len(),
{
    if inputs.len() > 0 {
        lemma_inputs_idle(b, q, deck, inputs.drop_last());
        let (b1, q1) = after_inputs(b, q, deck, inputs.drop_last());
        lemma_input_idle(b1, q1, deck, inputs.last());
    }
}

/// While the hold is locked, pressing hold does nothing for the rest of the
/// frame: a frame that starts with a locked hold ends the same with or
/// without a hold press after its other inputs (the piece may lock during
/// the frame, and then no piece is left to swap).
pub proof fn law_locked_hold_ignored(
    b: Board,
    q: QueuePos,
    deck: Seq<PieceKind>,
    inputs: Seq<Input>,
    k: PieceKind,
)
    requires
        board_ok(b),
        b.hold == HoldPiece::Locked(k),
    ensures
        after_update(b, q, deck, inputs.push(Input::Begin(Action::Hold))) == after_update(
            b,
            q,
            deck,
            inputs,
        ),
        after_update(b, q, deck, seq![Input::Begin(Action::Hold)]) == after_update(
            b,
            q,
            deck,
            Seq::<Input>::empty(),
        ),
{
    if let Some(p) = b.active_piece {
        lemma_placed_pivot(p);
    }
    assert(inputs.push(Input::Begin(Action::Hold)).drop_last() =~= inputs);
    assert(Seq::<Input>::empty().push(Input::Begin(Action::Hold)) =~= seq![Input::Begin(Action::Hold)]);
    assert(Seq::<Input>::empty().push(Input::Begin(Action::Hold)).drop_last() =~= Seq::<Input>::empty());
    if !b.game_over {
        lemma_timers_idle(b, q, deck);
        let (b1, q1) = after_timers(b, q, deck);
        lemma_inputs_idle(b1, q1, deck, inputs);
        lemma_inputs_idle(b1, q1, deck, Seq::<Input>::empty());
        let (b2, q2) = after_inputs(b1, q1, deck, inputs);
        lemma_input_idle(b2, q2, deck, Input::Begin(Action::Hold));
        let (b3, q3) = after_inputs(b1, q1, deck, Seq::<Input>::empty());
        lemma_input_idle(b3, q3, deck, Input::Begin(Action::Hold));
    }
}

/// A frame reads only the pieces dealt by the time it reads them.
proof fn lemma_update_deck(
    b: Board,
    q: QueuePos,
    d1: Seq<PieceKind>,
    d2: Seq<PieceKind>,
    inputs: Seq<Input>,
)
    requires
        d1.is_prefix_of(d2),
        q.taken < d1.len(),
        q.waiting >= 5,
        after_update(b, q, d1, inputs).1.taken + after_update(b, q, d1, inputs).1.waiting
            <= d1.len(),
    ensures
        after_update(b, q, d1, inputs) == after_update(b, q, d2, inputs),
{
    if !b.game_over {
        crate::engine::lemma_timers_deck(b, q, d1, d2);
        crate::engine::lemma_timers_pos(b, q, d1);
        let (b1, q1) = after_timers(b, q, d1);
        crate::engine::lemma_inputs_deck(b1, q1, d1, d2, inputs);
    }
}

proof fn lemma_update_same_deck(
    a0: Engine,
    a1: Engine,
    b1: Engine,
    in_a: Seq<Input>,
    in_b: Seq<Input>,
)
    requires
        a0.wf(),
        a1.wf(),
        b1.wf(),
        updated_by(a0, a1, in_a),
        updated_by(a0, b1, in_b),
        a1.dealt().len() <= b1.dealt().len(),
        forall|d: Seq<PieceKind>|
            #[trigger] after_update(a0.state(), a0.queue_pos(), d, in_a) == after_update(
                a0.state(),
                a0.queue_pos(),
                d,
                in_b,
            ),
    ensures
        a1.dealt() == b1.dealt(),
        a1.state() == b1.state(),
        a1.upcoming() == b1.upcoming(),
{
    Engine::lemma_wf(a0);
    Engine::lemma_wf(a1);
    Engine::lemma_wf(b1);
    let s = a0.seed();
    let d1 = a1.dealt();
    let d2 = b1.dealt();
    lemma_seeded_deck_prefix(s, (d1.len() / 7) as nat, (d2.len() / 7) as nat);
    let q = a0.queue_pos();
    assert(a0.dealt().len() <= d1.len());
    lemma_update_deck(a0.state(), q, d1, d2, in_a);
    assert(after_update(a0.state(), q, d2, in_a) == after_update(a0.state(), q, d2, in_b));
    assert(d1 =~= d2) by {
        assert(d1 == d2.subrange(0, d1.len() as int));
    }
}

/// Two games alike in board, seed and pieces dealt and waiting.
pub open spec fn alike(a: Engine, b: Engine) -> bool {
    &&& a.state() == b.state()
    &&& a.seed() == b.seed()
    &&& a.dealt() == b.dealt()
    &&& a.upcoming() == b.upcoming()
}

/// Where two input sequences have the same effect from two alike games on
/// every deck, the games stay alike.
proof fn lemma_alike_after(
    a0: Engine,
    a1: Engine,
    b0: Engine,
    b1: Engine,
    in_a: Seq<Input>,
    in_b: Seq<Input>,
)
    requires
        a0.wf(),
        a1.wf(),
        b0.wf(),
        b1.wf(),
        alike(a0, b0),
        updated_by(a0, a1, in_a),
        updated_by(b0, b1, in_b),
        forall|d: Seq<PieceKind>|
            #[trigger] after_update(a0.state(), a0.queue_pos(), d, in_a) == after_update(
                a0.state(),
                a0.queue_pos(),
                d,
                in_b,
            ),
    ensures
        alike(a1, b1),
{
    assert(a0.queue_pos() == b0.queue_pos());
    assert(updated_by(a0, b1, in_b));
    if a1.dealt().len() <= b1.dealt().len() {
        lemma_update_same_deck(a0, a1, b1, in_a, in_b);
    } else {
        assert forall|d: Seq<PieceKind>|
            #[trigger] after_update(a0.state(), a0.queue_pos(), d, in_b) == after_update(
                a0.state(),
                a0.queue_pos(),
                d,
                in_a,
            ) by {
            assert(after_update(a0.state(), a0.queue_pos(), d, in_a) == after_update(
                a0.state(),
                a0.queue_pos(),
                d,
                in_b,
            ));
        }
        lemma_update_same_deck(a0, b1, a1, in_b, in_a);
    }
}

/// A frame is determined by what it starts from and its inputs: two alike
/// games are alike again after the same inputs.
pub proof fn law_update_is_determined(
    a0: Engine,
    a1: Engine,
    b0: Engine,
    b1: Engine,
    inputs: Seq<Input>,
)
    requires
        a0.wf(),
        a1.wf(),
        b0.wf(),
        b1.wf(),
        alike(a0, b0),
        updated_by(a0, a1, inputs),
        updated_by(b0, b1, inputs),
    ensures
        alike(a1, b1),
{
    lemma_alike_after(a0, a1, b0, b1, inputs, inputs);
}

/// A hold press while the hold is locked leaves the whole game as a frame
/// without it would, queue included.
pub proof fn law_locked_hold_press_changes_nothing(
    a0: Engine,
    a1: Engine,
    b0: Engine,
    b1: Engine,
    inputs: Seq<Input>,
    k: PieceKind,
)
    requires
        a0.wf(),
        a1.wf(),
        b0.wf(),
        b1.wf(),
        alike(a0, b0),
        a0.state().hold == HoldPiece::Locked(k),
        updated_by(a0, a1, inputs.push(Input::Begin(Action::Hold))),
        updated_by(b0, b1, inputs),
    ensures
        alike(a1, b1),
{
    Engine::lemma_wf(a0);
    assert forall|d: Seq<PieceKind>|
        #[trigger] after_update(a0.state(), a0.queue_pos(), d, inputs.push(Input::Begin(Action::Hold)))
            == after_update(a0.state(), a0.queue_pos(), d, inputs) by {
        law_locked_hold_ignored(a0.state(), a0.queue_pos(), d, inputs, k);
    }
    lemma_alike_after(a0, a1, b0, b1, inputs.push(Input::Begin(Action::Hold)), inputs);
}

/// Releasing the hold, flip, rotate or hard-drop key at the end of a frame
/// leaves the whole game as the frame without it would, queue included.
pub proof fn law_release_changes_nothing(
    a0: Engine,
    a1: Engine,
    b0: Engine,
    b1: Engine,
    inputs: Seq<Input>,
    a: Action,
)
    requires
        a0.wf(),
        a1.wf(),
        b0.wf(),
        b1.wf(),
        alike(a0, b0),
        !(a is Move),
        !(a is Softdrop),
        updated_by(a0, a1, inputs.push(Input::End(a))),
        updated_by(b0, b1, inputs),
    ensures
        alike(a1, b1),
{
    assert forall|d: Seq<PieceKind>|
        #[trigger] after_update(a0.state(), a0.queue_pos(), d, inputs.push(Input::End(a)))
            == after_update(a0.state(), a0.queue_pos(), d, inputs) by {
        law_release_is_ignored(a0.state(), a0.queue_pos(), d, inputs, a);
    }
    lemma_alike_after(a0, a1, b0, b1, inputs.push(Input::End(a)), inputs);
}

/// The order of the pieces depends on the seed alone: two games with the
/// same seed have dealt the same pieces, as far as both have dealt.
pub proof fn law_same_seed_same_pieces(a: Engine, b: Engine, i: int)
    requires
        a.wf(),
        b.wf(),
        a.seed() == b.seed(),
        0 <= i < a.dealt().len(),
        i < b.dealt().len(),
    ensures
        a.dealt()[i] == b.dealt()[i],
{
    Engine::lemma_wf(a);
    Engine::lemma_wf(b);
    let n = (a.dealt().len() / 7) as nat;
    let m = (b.dealt().len() / 7) as nat;
    if n <= m {
        lemma_seeded_deck_prefix(a.seed(), n, m);
    } else {
        lemma_seeded_deck_prefix(a.seed(), m, n);
    }
}

/// A countdown set to `n` fires on its `n`-th tick and not before.
pub proof fn law_timer_fires_after(n: u32, k: nat)
    requires
        0 < k <= n,
    ensures
        ticks(Timer(n), (k - 1) as nat) == Timer((n - (k - 1)) as u32),
        fires(ticks(Timer(n), (k - 1) as nat)) == (k == n),
    decreases k,
{
    if k > 1 {
        law_timer_fires_after(n, (k - 1) as nat);
    }
}

/// The countdown after `k` ticks.
pub open spec fn ticks(t: Timer, k: nat) -> Timer
    decreases k,
{
    if k == 0 {
        t
    } else {
        ticked(ticks(t, (k - 1) as nat))
    }
}

} // verus!
