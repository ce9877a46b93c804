//! What holds of every state that a game reaches: a falling piece always
//! fits, its ghost marks where a hard drop would put it, and no full row
//! stands while a piece is falling.
use vstd::prelude::*;

use crate::engine::{
    after_fall, after_move, after_slide, after_spawn, cleared_pile, dir_offset, lemma_spawn_piece_placed,
    rotate_from, slide_room, spawn_piece, Direction, after_lock_ghost, after_set_active, after_try_lock, fall_limit, fits, height,
    lemma_fall_limit_ge, lemma_fits_pivot, lemma_placed_pivot, moved, placed_ok, try_move, Board,
    Timer, after_hold, after_input, after_inputs, after_rotate, after_timers, after_update, fires,
    initial_board, pulled, stage_clear, stage_das, stage_fall, stage_lock, stage_spawn, ticked, Action,
    Engine, GameConfig, HoldPiece, Input, MovementState, QueuePos,
};
use crate::piece::{Piece, PieceKind};
use crate::PILE_HEIGHT;
use crate::pile::{cleared, collides, has_full_row, row_full, Pile, Row};

verus! {

/// Where `p` lands when dropped straight down as far as it fits.
pub open spec fn landing(pile: Pile, p: Piece) -> Piece {
    moved(p, 0, -(fall_limit(pile, p, 0) - 1), 0)
}

/// The play invariant. The active piece lies on the grid as its kind says,
/// and no row is full while it falls. While the game runs: a falling piece fits, its ghost is its landing spot,
/// no row is full and neither the line-clear nor the spawn countdown runs;
/// with no falling piece there is no ghost, a running line clear ends in the
/// frame the next piece spawns, and a full row waits for a line clear (or
/// nothing spawns at all).
pub open spec fn settled(b: Board) -> bool {
    &&& b.active_piece matches Some(p) ==> placed_ok(p)
    &&& b.active_piece is Some ==> !has_full_row(b.pile)
    &&& !b.game_over ==> match b.active_piece {
        Some(p) => {
            &&& fits(b.pile, p)
            &&& b.ghost_piece == Some(landing(b.pile, p))
            &&& !has_full_row(b.pile)
            &&& b.line_clear_timer.0 == 0
            &&& b.spawn_timer.0 == 0
        },
        None => {
            &&& b.ghost_piece is None
            &&& b.line_clear_timer.0 != 0 ==> b.spawn_timer.0 == b.line_clear_timer.0
            &&& has_full_row(b.pile) ==> b.line_clear_timer.0 != 0 || b.spawn_timer.0 == 0
        },
    }
}

/// What a new piece needs to become the falling piece: it fits, and the pile
/// is ready for it.
pub open spec fn ready_for(b: Board, p: Piece) -> bool {
    &&& fits(b.pile, p)
    &&& !has_full_row(b.pile)
    &&& b.line_clear_timer.0 == 0
    &&& b.spawn_timer.0 == 0
}

proof fn lemma_set_active_settled(b: Board, p: Piece)
    requires
        placed_ok(p),
        !has_full_row(b.pile),
        b.game_over || ready_for(b, p),
    ensures
        settled(after_set_active(b, Some(p))),
        after_set_active(b, Some(p)).game_over == b.game_over,
    decreases height(Some(p)), 2int,
{
    lemma_placed_pivot(p);
    assert(moved(p, 0, 0, 0) == p);
    if fits(b.pile, p) {
        lemma_fall_limit_ge(b.pile, p, 1);
    }
    let b1 = Board { active_piece: Some(p), ..b };
    let lim = fall_limit(b.pile, p, 0);
    let b2 = if lim == 0 {
        b1
    } else {
        Board { ghost_piece: Some(moved(p, 0, -(lim - 1), 0)), ..b1 }
    };
    let low = if b.lowest_y <= crate::piece::lowest(p) {
        b.lowest_y
    } else {
        crate::piece::lowest(p)
    };
    let b3 = Board {
        lowest_y: low,
        resets: if low < b.lowest_y {
            0
        } else {
            b.resets
        },
        ..b2
    };
    let b4 = if Some(p) != b.active_piece {
        Board {
            lock_timer: Timer(
                if fits(b.pile, moved(p, 0, -1, 0)) {
                    0
                } else {
                    30
                },
            ),
            ..b3
        }
    } else {
        b3
    };
    let b5 = Board { resets: (b4.resets + 1) as i32, ..b4 };
    assert(settled(b5));
    if b5.resets > 15 {
        lemma_try_lock_settled(b5);
    }
}

proof fn lemma_lock_ghost_settled(b: Board)
    requires
        settled(b),
    ensures
        settled(after_lock_ghost(b)),
        after_lock_ghost(b).game_over == b.game_over,
{
    reveal(after_lock_ghost);
}

proof fn lemma_try_lock_settled(b: Board)
    requires
        settled(b),
    ensures
        settled(after_try_lock(b)),
        after_try_lock(b).game_over == b.game_over,
    decreases height(b.active_piece), 1int,
{
    if let Some(a) = b.active_piece {
        lemma_placed_pivot(a);
    }
    match try_move(b, 0, -1, 0) {
        None => lemma_lock_ghost_settled(b),
        Some(q) => {
            let a = b.active_piece->0;
            lemma_fits_pivot(b.pile, a, 0, -1, 0);
            assert(q.y == a.y - 1);
            lemma_set_active_settled(b, q);
        },
    }
}

/// `base` with its first `n` rows replaced by those of `rows`.
pub open spec fn with_rows(base: [Row; PILE_HEIGHT], rows: Seq<Row>, n: nat) -> [Row; PILE_HEIGHT]
    decreases n,
{
    if n == 0 {
        base
    } else {
        vstd::array::spec_array_update(with_rows(base, rows, (n - 1) as nat), n - 1, rows[n - 1])
    }
}

proof fn lemma_with_rows(base: [Row; PILE_HEIGHT], rows: Seq<Row>, n: nat)
    requires
        n <= PILE_HEIGHT,
    ensures
        with_rows(base, rows, n)@.len() == PILE_HEIGHT,
        forall|i: int| 0 <= i < n ==> #[trigger] with_rows(base, rows, n)@[i] == rows[i],
    decreases n,
{
    if n > 0 {
        lemma_with_rows(base, rows, (n - 1) as nat);
    }
}

/// A line clear leaves no full row.
pub(crate) proof fn lemma_cleared_pile(p: Pile)
    ensures
        cleared_pile(p).0@ == cleared(p.0@),
        !has_full_row(cleared_pile(p)),
{
    crate::pile::lemma_kept_rows_len(p.0@);
    let rows = cleared(p.0@);
    assert(rows.len() == PILE_HEIGHT);
    lemma_with_rows(p.0, rows, PILE_HEIGHT as nat);
    let w = Pile(with_rows(p.0, rows, PILE_HEIGHT as nat));
    assert(w.0@ =~= rows);
    crate::pile::law_line_clear_leaves_no_full_row(p, cleared_pile(p));
}

proof fn lemma_fall_settled(b: Board)
    requires
        settled(b),
    ensures
        settled(after_fall(b)),
        after_fall(b).game_over == b.game_over,
{
    reveal(after_fall);
    match try_move(b, 0, -1, 0) {
        None => {},
        Some(q) => {
            lemma_fits_pivot(b.pile, b.active_piece->0, 0, -1, 0);
            lemma_set_active_settled(b, q);
        },
    }
}

proof fn lemma_move_settled(b: Board, d: Direction)
    requires
        settled(b),
    ensures
        settled(after_move(b, d)),
        after_move(b, d).game_over == b.game_over,
{
    reveal(after_move);
    match try_move(b, dir_offset(d) as int, 0, 0) {
        None => {},
        Some(q) => {
            lemma_fits_pivot(b.pile, b.active_piece->0, dir_offset(d) as int, 0, 0);
            lemma_set_active_settled(b, q);
        },
    }
}

proof fn lemma_slide_settled(b: Board, d: Direction)
    requires
        settled(b),
    ensures
        settled(after_slide(b, d)),
        after_slide(b, d).game_over == b.game_over,
    decreases slide_room(b.active_piece, d),
{
    if let Some(a) = b.active_piece {
        lemma_placed_pivot(a);
    }
    match try_move(b, dir_offset(d) as int, 0, 0) {
        None => {},
        Some(q) => {
            lemma_fits_pivot(b.pile, b.active_piece->0, dir_offset(d) as int, 0, 0);
            crate::engine::lemma_set_active_column(b, q);
            lemma_set_active_settled(b, q);
            lemma_slide_settled(after_set_active(b, Some(q)), d);
        },
    }
}

proof fn lemma_rotate_from_settled(b: Board, p: Piece, count: int, n: int)
    requires
        settled(b),
    ensures
        settled(rotate_from(b, p, count, n)),
        rotate_from(b, p, count, n).game_over == b.game_over,
    decreases 5 - n,
{
    if 0 <= n < 5 {
        let k = crate::piece::kick(p.kind, p.orientation, crate::piece::rotated(p.orientation, count), n);
        match try_move(b, k.0 as int, k.1 as int, count) {
            Some(q) => {
                lemma_fits_pivot(b.pile, b.active_piece->0, k.0 as int, k.1 as int, count);
                lemma_set_active_settled(b, q);
            },
            None => lemma_rotate_from_settled(b, p, count, n + 1),
        }
    }
}

proof fn lemma_spawn_settled(b: Board, kind: PieceKind)
    requires
        b.active_piece matches Some(a) ==> placed_ok(a),
        !has_full_row(b.pile),
        b.game_over || (b.line_clear_timer.0 == 0 && b.spawn_timer.0 == 0),
    ensures
        settled(after_spawn(b, kind)),
        b.game_over ==> after_spawn(b, kind).game_over,
{
    reveal(after_spawn);
    let p = spawn_piece(kind);
    lemma_spawn_piece_placed(kind);
    lemma_placed_pivot(p);
    let b0 = Board { resets: 0, ..b };
    let b1 = after_set_active(b0, Some(p));
    if b.game_over || fits(b.pile, p) {
        lemma_set_active_settled(b0, p);
    }
    assert(b1.active_piece == Some(p));
    assert(b1.pile == b.pile);
    let a = b1.active_piece->0;
    if !collides(b1.pile, a.blocks@) {
        lemma_set_active_settled(b0, p);
        lemma_fall_settled(Board { lowest_y: crate::piece::lowest(a), ..b1 });
    }
}

proof fn lemma_clear_spawn_settled(b: Board, q: QueuePos, deck: Seq<PieceKind>)
    requires
        settled(b),
        !b.game_over,
    ensures
        settled(stage_spawn(stage_clear(b), q, deck).0),
{
    reveal(stage_clear);
    reveal(stage_spawn);
    lemma_cleared_pile(b.pile);
    let c = stage_clear(b);
    let c1 = Board { spawn_timer: ticked(c.spawn_timer), ..c };
    if fires(c.spawn_timer) {
        lemma_spawn_settled(c1, pulled(deck, q).0);
    }
}

proof fn lemma_das_settled(f: Board)
    requires
        settled(f),
    ensures
        settled(stage_das(f)),
        stage_das(f).game_over == f.game_over,
{
    reveal(stage_das);
    let d1 = Board { das_timer: ticked(f.das_timer), ..f };
    if fires(f.das_timer) {
        let d = d1.movement.das->0;
        lemma_move_settled(d1, d);
        let m = after_move(d1, d);
        lemma_slide_settled(Board { das_timer: Timer(1), ..m }, d);
    }
}

proof fn lemma_timers_settled(b: Board, q: QueuePos, deck: Seq<PieceKind>)
    requires
        settled(b),
        !b.game_over,
    ensures
        settled(after_timers(b, q, deck).0),
{
    reveal(after_timers);
    reveal(stage_fall);
    reveal(stage_lock);
    lemma_clear_spawn_settled(b, q, deck);
    let s = stage_spawn(stage_clear(b), q, deck).0;
    lemma_fall_settled(Board { fall_timer: ticked(s.fall_timer), ..s });
    let f = stage_fall(s);
    lemma_das_settled(f);
    let g = stage_das(f);
    lemma_try_lock_settled(Board { lock_timer: ticked(g.lock_timer), ..g });
}

proof fn lemma_hold_settled(b: Board, q: QueuePos, deck: Seq<PieceKind>)
    requires
        settled(b),
    ensures
        settled(after_hold(b, q, deck).0),
        b.game_over ==> after_hold(b, q, deck).0.game_over,
{
    reveal(after_hold);
    if let Some(a) = b.active_piece {
        let b1 = Board { hold: HoldPiece::Locked(a.kind), fall_timer: Timer(0), ..b };
        match b.hold {
            HoldPiece::Unlocked(k) => lemma_spawn_settled(b1, k),
            HoldPiece::Empty => lemma_spawn_settled(b1, pulled(deck, q).0),
            HoldPiece::Locked(_) => {},
        }
    }
}

proof fn lemma_rotate_settled(b: Board, count: int)
    requires
        settled(b),
    ensures
        settled(after_rotate(b, count)),
        after_rotate(b, count).game_over == b.game_over,
{
    reveal(after_rotate);
    if let Some(p) = b.active_piece {
        lemma_rotate_from_settled(b, p, count, 0);
    }
}

proof fn lemma_input_settled(b: Board, q: QueuePos, deck: Seq<PieceKind>, input: Input)
    requires
        settled(b),
    ensures
        settled(after_input(b, q, deck, input).0),
        b.game_over ==> after_input(b, q, deck, input).0.game_over,
{
    reveal(after_input);
    lemma_fall_settled(b);
    lemma_lock_ghost_settled(b);
    lemma_hold_settled(b, q, deck);
    lemma_rotate_settled(b, 1);
    lemma_rotate_settled(b, 2);
    lemma_rotate_settled(b, 3);
    if let Input::Begin(Action::Move(d)) = input {
        let m = if d == Direction::Left {
            MovementState { move_left: true, das: Some(d), ..b.movement }
        } else {
            MovementState { move_right: true, das: Some(d), ..b.movement }
        };
        lemma_move_settled(Board { movement: m, ..b }, d);
    }
}

proof fn lemma_inputs_settled(b: Board, q: QueuePos, deck: Seq<PieceKind>, inputs: Seq<Input>)
    requires
        settled(b),
    ensures
        settled(after_inputs(b, q, deck, inputs).0),
        b.game_over ==> after_inputs(b, q, deck, inputs).0.game_over,
    decreases inputs.len(),
{
    if inputs.len() > 0 {
        lemma_inputs_settled(b, q, deck, inputs.drop_last());
        let (b1, q1) = after_inputs(b, q, deck, inputs.drop_last());
        lemma_input_settled(b1, q1, deck, inputs.last());
    }
}

/// Every frame keeps the play invariant.
pub proof fn lemma_update_settled(b: Board, q: QueuePos, deck: Seq<PieceKind>, inputs: Seq<Input>)
    requires
        settled(b),
    ensures
        settled(after_update(b, q, deck, inputs).0),
{
    if !b.game_over {
        lemma_timers_settled(b, q, deck);
        let (b1, q1) = after_timers(b, q, deck);
        lemma_inputs_settled(b1, q1, deck, inputs);
    }
}

/// A new game starts in the play invariant.
pub proof fn lemma_initial_settled(config: GameConfig)
    ensures
        settled(initial_board(config)),
{
    let b = initial_board(config);
    assert(!has_full_row(b.pile)) by {
        assert forall|r: int| 0 <= r < PILE_HEIGHT implies !#[trigger] row_full(b.pile.0@[r]) by {
            assert(b.pile.0@[r]@[0] is None);
        }
    }
}

/// Every drop shorter than the drop search's result fits.
proof fn lemma_fall_limit_fits(pile: Pile, p: Piece, d: int, e: int)
    requires
        0 <= d <= e < fall_limit(pile, p, d),
    ensures
        fits(pile, moved(p, 0, -e, 0)),
    decreases e - d,
{
    if d < e {
        lemma_fall_limit_fits(pile, p, d + 1, e);
    }
}

/// In every state a game reaches, while it is not over: with no falling
/// piece there is no ghost; a falling piece fits, and its ghost is the piece
/// dropped straight down as far as it goes: every drop down to the ghost
/// fits, and one row further does not.
pub proof fn law_ghost_is_hard_drop_spot(e: Engine)
    requires
        e.wf(),
        !e.state().game_over,
    ensures
        e.state().active_piece is None ==> e.state().ghost_piece is None,
        e.state().active_piece matches Some(p) ==> {
            let pile = e.state().pile;
            let g = e.state().ghost_piece->0;
            &&& e.state().ghost_piece is Some
            &&& fits(pile, p)
            &&& g.y <= p.y
            &&& g == moved(p, 0, -(p.y - g.y), 0)
            &&& forall|d: int| 0 <= d <= p.y - g.y ==> #[trigger] fits(pile, moved(p, 0, -d, 0))
            &&& !fits(pile, moved(p, 0, -(p.y - g.y + 1), 0))
        },
{
    Engine::lemma_wf(e);
    let b = e.state();
    if let Some(p) = b.active_piece {
        let pile = b.pile;
        lemma_placed_pivot(p);
        assert(moved(p, 0, 0, 0) == p);
        lemma_fall_limit_ge(pile, p, 1);
        let lim = fall_limit(pile, p, 0);
        crate::laws::lemma_fall_limit_stops(pile, p, 0);
        let g = b.ghost_piece->0;
        assert(g.y == p.y - (lim - 1));
        assert forall|d: int| 0 <= d <= p.y - g.y implies #[trigger] fits(pile, moved(p, 0, -d, 0)) by {
            lemma_fall_limit_fits(pile, p, 0, d);
        }
    }
}

/// In every state a game reaches, the frame that ends the game included, no
/// row is full while a piece is falling: full rows are cleared before the
/// next piece spawns.
pub proof fn law_no_full_row_while_falling(e: Engine)
    requires
        e.wf(),
        e.state().active_piece is Some,
    ensures
        forall|y: int| 0 <= y < PILE_HEIGHT ==> !#[trigger] row_full(e.state().pile.0@[y]),
{
    Engine::lemma_wf(e);
}

} // verus!
