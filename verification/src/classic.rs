//! A simpler game mode: only `T` pieces, fixed timings (a fall every 60
//! frames, every 5 while soft dropping; sideways repeat after 6 frames, then
//! every frame), turning without kicks, and no hold, queue or game over.
use vstd::prelude::*;

use crate::engine::{
    dir_offset, fall_limit, fits, lemma_fall_limit_ge, lemma_fits_pivot, lemma_placed_pivot,
    lemma_spawn_piece_placed, moved, place, placed_ok, spawn_piece, Direction,
};
use crate::piece::{piece_at, rotated, Orientation, Piece, PieceKind};
use crate::pile::{cell_at, in_bounds, Cell, Pile};
use crate::{PILE_HEIGHT, PILE_WIDTH};

verus! {

/// Frames per second of the simulation.
pub const ENGINE_FPS: i32 = 60;

/// Nanoseconds per frame.
pub const FRAME_TIME: u128 = 16_666_666;

/// Frames a sideways key is held before the piece starts repeating.
pub const ENGINE_DAS: i32 = 6;

/// Frames between repeated sideways moves.
pub const ENGINE_ARR: i32 = 1;

/// Frames between falls while soft dropping.
pub const SOFTDROP_FRAMES: i32 = 5;

/// Key presses and releases seen since the last frame.
#[derive(Debug, Clone, Copy, PartialEq, Eq, Default, Structural)]
pub struct PlayerActions {
    pub flip: bool,
    pub hold: bool,
    pub rotate_left: bool,
    pub rotate_right: bool,
    pub harddrop: bool,
    pub begin_move_right: bool,
    pub end_move_right: bool,
    pub begin_move_left: bool,
    pub end_move_left: bool,
    pub begin_softdrop: bool,
    pub end_softdrop: bool,
}

/// The simpler game.
pub struct Engine {
    pub pile: Pile,
    pub active_piece: Piece,
    /// Nanoseconds left over from the last update, less than a frame.
    pub residue_time: u128,
    /// Inputs gathered for the next frame; each is cleared when handled.
    pub frame_actions: PlayerActions,
    /// Frames since the last fall.
    pub gravity_time: i32,
    /// The direction of sideways repeat, if a sideways key is held.
    pub das: Option<Direction>,
    pub move_left: bool,
    pub move_right: bool,
    pub softdrop: bool,
    /// Frames the sideways key has been held, stepping back after each repeat.
    pub das_time: i32,
}

/// `cand` if it fits in the pile, otherwise `cur`.
#[verifier::opaque]
pub open spec fn accept(pile: Pile, cur: Piece, cand: Piece) -> Piece {
    if fits(pile, cand) {
        cand
    } else {
        cur
    }
}

/// The piece dropped straight down as far as it fits (not below where it is).
pub open spec fn dropped(pile: Pile, p: Piece) -> Piece {
    moved(p, 0, -(fall_limit(pile, p, 1) - 1), 0)
}

/// The engine invariant: the piece lies on the grid as its kind and
/// orientation say, the counters are in range, and the leftover time is less
/// than a frame.
pub open spec fn classic_ok(e: Engine) -> bool {
    &&& placed_ok(e.active_piece)
    &&& 0 <= e.das_time < ENGINE_DAS
    &&& e.das is None ==> e.das_time == 0
    &&& 0 <= e.gravity_time < ENGINE_FPS
    &&& e.residue_time < FRAME_TIME
}

/// Sideways repeat: the counter runs while a direction is held; at 6 it steps
/// back by one and the piece moves one column if it fits.
#[verifier::opaque]
pub open spec fn step_repeat(e: Engine) -> Engine {
    let t: int = if e.das is Some {
        e.das_time + 1
    } else {
        e.das_time as int
    };
    if t >= ENGINE_DAS {
        Engine {
            das_time: (t - ENGINE_ARR) as i32,
            active_piece: accept(
                e.pile,
                e.active_piece,
                moved(e.active_piece, dir_offset(e.das->0) as int, 0, 0),
            ),
            ..e
        }
    } else {
        Engine { das_time: t as i32, ..e }
    }
}

/// Key releases of the sideways keys: repeating stops or turns to the other
/// key if it is still held.
#[verifier::opaque]
pub open spec fn step_releases(e: Engine) -> Engine {
    let a = e.frame_actions;
    let e1 = if a.end_move_left {
        Engine {
            frame_actions: PlayerActions { end_move_left: false, ..e.frame_actions },
            move_left: false,
            das: if e.move_right {
                Some(Direction::Right)
            } else {
                None
            },
            das_time: 0,
            ..e
        }
    } else {
        e
    };
    if a.end_move_right {
        Engine {
            frame_actions: PlayerActions { end_move_right: false, ..e1.frame_actions },
            move_right: false,
            das: if e1.move_left {
                Some(Direction::Left)
            } else {
                None
            },
            das_time: 0,
            ..e1
        }
    } else {
        e1
    }
}

/// Turns: half turn, quarter turn left, quarter turn right, each taken only
/// if the turned piece fits.
#[verifier::opaque]
pub open spec fn step_turns(e: Engine) -> Engine {
    let a = e.frame_actions;
    let e1 = if a.flip {
        Engine {
            frame_actions: PlayerActions { flip: false, ..e.frame_actions },
            active_piece: accept(e.pile, e.active_piece, moved(e.active_piece, 0, 0, 2)),
            ..e
        }
    } else {
        e
    };
    let e2 = if a.rotate_left {
        Engine {
            frame_actions: PlayerActions { rotate_left: false, ..e1.frame_actions },
            active_piece: accept(e1.pile, e1.active_piece, moved(e1.active_piece, 0, 0, 3)),
            ..e1
        }
    } else {
        e1
    };
    if a.rotate_right {
        Engine {
            frame_actions: PlayerActions { rotate_right: false, ..e2.frame_actions },
            active_piece: accept(e2.pile, e2.active_piece, moved(e2.active_piece, 0, 0, 1)),
            ..e2
        }
    } else {
        e2
    }
}

/// Presses of the sideways keys: the piece moves a column if it fits and the
/// repeat counter restarts for that direction.
#[verifier::opaque]
pub open spec fn step_presses(e: Engine) -> Engine {
    let a = e.frame_actions;
    let e1 = if a.begin_move_left {
        Engine {
            frame_actions: PlayerActions { begin_move_left: false, ..e.frame_actions },
            move_left: true,
            active_piece: accept(e.pile, e.active_piece, moved(e.active_piece, -1, 0, 0)),
            das: Some(Direction::Left),
            das_time: 0,
            ..e
        }
    } else {
        e
    };
    if a.begin_move_right {
        Engine {
            frame_actions: PlayerActions { begin_move_right: false, ..e1.frame_actions },
            move_right: true,
            active_piece: accept(e1.pile, e1.active_piece, moved(e1.active_piece, 1, 0, 0)),
            das: Some(Direction::Right),
            das_time: 0,
            ..e1
        }
    } else {
        e1
    }
}

/// Hard drop (the piece drops, locks, and a new `T` spawns), then soft drop
/// on and off.
#[verifier::opaque]
pub open spec fn step_drops(e: Engine) -> Engine {
    let a = e.frame_actions;
    let e1 = if a.harddrop {
        let d = dropped(e.pile, e.active_piece);
        Engine {
            frame_actions: PlayerActions { harddrop: false, ..e.frame_actions },
            pile: place(e.pile, d),
            active_piece: spawn_piece(PieceKind::T),
            ..e
        }
    } else {
        e
    };
    let e2 = if a.begin_softdrop {
        Engine {
            frame_actions: PlayerActions { begin_softdrop: false, ..e1.frame_actions },
            softdrop: true,
            gravity_time: 0,
            active_piece: accept(e1.pile, e1.active_piece, moved(e1.active_piece, 0, -1, 0)),
            ..e1
        }
    } else {
        e1
    };
    if a.end_softdrop {
        Engine {
            frame_actions: PlayerActions { end_softdrop: false, ..e2.frame_actions },
            softdrop: false,
            ..e2
        }
    } else {
        e2
    }
}

/// Gravity: the counter runs every frame; at 60 (5 while soft dropping) it
/// restarts and the piece falls a row if it fits.
#[verifier::opaque]
pub open spec fn step_gravity(e: Engine) -> Engine {
    let g = e.gravity_time + 1;
    let limit = if e.softdrop {
        SOFTDROP_FRAMES
    } else {
        ENGINE_FPS
    };
    if g >= limit {
        Engine {
            gravity_time: 0,
            active_piece: accept(e.pile, e.active_piece, moved(e.active_piece, 0, -1, 0)),
            ..e
        }
    } else {
        Engine { gravity_time: g as i32, ..e }
    }
}

/// One frame: repeat, releases, turns, presses, drops, gravity, in that order.
pub open spec fn after_frame(e: Engine) -> Engine {
    step_gravity(step_drops(step_presses(step_turns(step_releases(step_repeat(e))))))
}

/// `n` frames.
pub open spec fn after_frames(e: Engine, n: nat) -> Engine
    decreases n,
{
    if n == 0 {
        e
    } else {
        after_frame(after_frames(e, (n - 1) as nat))
    }
}

/// The engine after `delta` nanoseconds: the time, with what was left over
/// from before, is split into whole frames, which run, and a new remainder.
pub open spec fn after_time(e: Engine, delta: u128) -> Engine {
    let nanos = delta + e.residue_time;
    after_frames(
        Engine { residue_time: (nanos % FRAME_TIME as int) as u128, ..e },
        (nanos / FRAME_TIME as int) as nat,
    )
}

/// Whether `p` moved and turned still lies near the grid.
proof fn lemma_accept_placed(pile: Pile, p: Piece, dx: int, dy: int, r: int)
    requires
        placed_ok(p),
    ensures
        placed_ok(accept(pile, p, moved(p, dx, dy, r))),
{
    reveal(accept);
    if fits(pile, moved(p, dx, dy, r)) {
        lemma_fits_pivot(pile, p, dx, dy, r);
    }
}

impl Engine {
    pub open spec fn wf(&self) -> bool {
        classic_ok(*self)
    }

    /// A new game: empty pile and a `T` piece at the spawn position.
    pub fn new() -> (r: Engine)
        ensures
            r.wf(),
            r.active_piece == spawn_piece(PieceKind::T),
            r.frame_actions == PlayerActions::default_value(),
            r.pile == Pile([[None; PILE_WIDTH]; PILE_HEIGHT]),
            r.residue_time == 0,
            r.gravity_time == 0,
            r.das is None,
            !r.move_left,
            !r.move_right,
            !r.softdrop,
            r.das_time == 0,
    {
        proof {
            lemma_spawn_piece_placed(PieceKind::T);
        }
        Engine {
            pile: Pile([[None; PILE_WIDTH]; PILE_HEIGHT]),
            active_piece: Piece::spawn(PieceKind::T),
            residue_time: 0,
            gravity_time: 0,
            frame_actions: PlayerActions::new(),
            das: None,
            move_left: false,
            move_right: false,
            softdrop: false,
            das_time: 0,
        }
    }

    /// The falling piece.
    pub fn active_piece(&self) -> (r: &Piece)
        ensures
            *r == self.active_piece,
    {
        &self.active_piece
    }

    /// The settled cells, row by row from the bottom.
    pub fn pile(&self) -> (r: &[[Cell; PILE_WIDTH]; PILE_HEIGHT])
        ensures
            *r == self.pile.0,
    {
        &self.pile.0
    }

    /// `p` moved and turned, if it fits.
    fn accept_move(&self, dx: i32, dy: i32, r: i32) -> (res: Piece)
        requires
            placed_ok(self.active_piece),
            -2 <= dx <= 2,
            -2 <= dy <= 2,
        ensures
            res == accept(self.pile, self.active_piece, moved(self.active_piece, dx as int, dy as int, r as int)),
            placed_ok(res),
    {
        proof {
            lemma_placed_pivot(self.active_piece);
            lemma_accept_placed(self.pile, self.active_piece, dx as int, dy as int, r as int);
        }
        reveal(accept);
        let branched = self.active_piece.changed_by(dx, dy, r);
        if !self.pile.check_collision(&branched.blocks) {
            branched
        } else {
            self.active_piece
        }
    }
}

impl Engine {
    fn run_repeat(&mut self)
        requires
            old(self).wf(),
        ensures
            final(self).wf(),
            *final(self) == step_repeat(*old(self)),
    {
        reveal(step_repeat);
        if self.das.is_some() {
            self.das_time = self.das_time + 1;
        }
        if self.das_time >= ENGINE_DAS {
            self.das_time = self.das_time - ENGINE_ARR;
            let d = match self.das {
                Some(d) => d,
                None => Direction::Left,
            };
            self.active_piece = self.accept_move(d.offset(), 0, 0);
        }
    }

    fn run_releases(&mut self)
        requires
            old(self).wf(),
        ensures
            final(self).wf(),
            *final(self) == step_releases(*old(self)),
    {
        reveal(step_releases);
        let a = self.frame_actions;
        if a.end_move_left {
            self.frame_actions.end_move_left = false;
            self.move_left = false;
            if self.move_right {
                self.das = Some(Direction::Right);
            } else {
                self.das = None;
            }
            self.das_time = 0;
        }
        if a.end_move_right {
            self.frame_actions.end_move_right = false;
            self.move_right = false;
            if self.move_left {
                self.das = Some(Direction::Left);
            } else {
                self.das = None;
            }
            self.das_time = 0;
        }
    }

    #[verifier::rlimit(60)]
    fn run_turns(&mut self)
        requires
            old(self).wf(),
        ensures
            final(self).wf(),
            *final(self) == step_turns(*old(self)),
    {
        reveal(step_turns);
        let a = self.frame_actions;
        if a.flip {
            self.frame_actions.flip = false;
            self.active_piece = self.accept_move(0, 0, 2);
        }
        if a.rotate_left {
            self.frame_actions.rotate_left = false;
            self.active_piece = self.accept_move(0, 0, 3);
        }
        if a.rotate_right {
            self.frame_actions.rotate_right = false;
            self.active_piece = self.accept_move(0, 0, 1);
        }
    }

    fn run_presses(&mut self)
        requires
            old(self).wf(),
        ensures
            final(self).wf(),
            *final(self) == step_presses(*old(self)),
    {
        reveal(step_presses);
        let a = self.frame_actions;
        if a.begin_move_left {
            self.frame_actions.begin_move_left = false;
            self.move_left = true;
            self.active_piece = self.accept_move(-1, 0, 0);
            self.das = Some(Direction::Left);
            self.das_time = 0;
        }
        if a.begin_move_right {
            self.frame_actions.begin_move_right = false;
            self.move_right = true;
            self.active_piece = self.accept_move(1, 0, 0);
            self.das = Some(Direction::Right);
            self.das_time = 0;
        }
    }

    /// Drops the piece as far as it fits and fills its cells in the pile.
    fn hard_drop(&mut self)
        requires
            placed_ok(old(self).active_piece),
        ensures
            *final(self) == (Engine {
                pile: place(old(self).pile, dropped(old(self).pile, old(self).active_piece)),
                active_piece: dropped(old(self).pile, old(self).active_piece),
                ..*old(self)
            }),
    {
        let p = self.active_piece;
        proof {
            lemma_placed_pivot(p);
            lemma_fall_limit_ge(self.pile, p, 1);
            assert(moved(p, 0, 0, 0) == p);
        }
        let ghost pile = self.pile;
        let ghost e0 = *self;
        let mut d: i32 = 1;
        loop
            invariant
                *self == (Engine { active_piece: self.active_piece, ..e0 }),
                placed_ok(p),
                0 <= p.x < PILE_WIDTH,
                0 <= p.y < PILE_HEIGHT,
                1 <= d <= p.y + 1,
                self.pile == pile,
                fall_limit(pile, p, 1) == fall_limit(pile, p, d as int),
                self.active_piece == moved(p, 0, -(d - 1), 0),
                placed_ok(self.active_piece),
            ensures
                *self == (Engine { active_piece: self.active_piece, ..e0 }),
                fall_limit(pile, p, 1) == d,
                self.pile == pile,
                self.active_piece == moved(p, 0, -(d - 1), 0),
                placed_ok(self.active_piece),
            decreases p.y + 1 - d,
        {
            let branched = p.changed_by(0, -d, 0);
            if self.pile.check_collision(&branched.blocks) {
                break;
            }
            proof {
                lemma_fits_pivot(pile, p, 0, -d as int, 0);
            }
            self.active_piece = branched;
            d = d + 1;
        }
        let g = self.active_piece;
        let k: Cell = Some(g.kind);
        assert(in_bounds(g.blocks[0]) && in_bounds(g.blocks[1]) && in_bounds(g.blocks[2]) && in_bounds(
            g.blocks[3],
        ));
        let (x0, y0) = g.blocks[0];
        self.pile.0[y0 as usize][x0 as usize] = k;
        let (x1, y1) = g.blocks[1];
        self.pile.0[y1 as usize][x1 as usize] = k;
        let (x2, y2) = g.blocks[2];
        self.pile.0[y2 as usize][x2 as usize] = k;
        let (x3, y3) = g.blocks[3];
        self.pile.0[y3 as usize][x3 as usize] = k;
    }

    fn run_drops(&mut self)
        requires
            old(self).wf(),
        ensures
            final(self).wf(),
            *final(self) == step_drops(*old(self)),
    {
        reveal(step_drops);
        let a = self.frame_actions;
        if a.harddrop {
            self.frame_actions.harddrop = false;
            self.hard_drop();
            self.active_piece = Piece::spawn(PieceKind::T);
            proof {
                lemma_spawn_piece_placed(PieceKind::T);
            }
        }
        if a.begin_softdrop {
            self.frame_actions.begin_softdrop = false;
            self.softdrop = true;
            self.gravity_time = 0;
            self.active_piece = self.accept_move(0, -1, 0);
        }
        if a.end_softdrop {
            self.frame_actions.end_softdrop = false;
            self.softdrop = false;
        }
    }

    fn run_gravity(&mut self)
        requires
            old(self).wf(),
        ensures
            final(self).wf(),
            *final(self) == step_gravity(*old(self)),
    {
        reveal(step_gravity);
        self.gravity_time = self.gravity_time + 1;
        if self.gravity_time >= if self.softdrop {
            SOFTDROP_FRAMES
        } else {
            ENGINE_FPS
        } {
            self.gravity_time = 0;
            self.active_piece = self.accept_move(0, -1, 0);
        }
    }

    /// Advances the game by one frame (see `after_frame`).
    pub fn frame(&mut self)
        requires
            old(self).wf(),
        ensures
            final(self).wf(),
            *final(self) == after_frame(*old(self)),
    {
        self.run_repeat();
        self.run_releases();
        self.run_turns();
        self.run_presses();
        self.run_drops();
        self.run_gravity();
    }

    /// Lets `delta` nanoseconds pass: runs every whole frame they complete,
    /// with the time left over from before, and keeps the rest.
    pub fn update(&mut self, delta: u128)
        requires
            old(self).wf(),
            delta + old(self).residue_time <= u128::MAX,
        ensures
            final(self).wf(),
            *final(self) == after_time(*old(self), delta),
    {
        let nanos = delta + self.residue_time;
        self.residue_time = nanos % FRAME_TIME;
        let frames = nanos / FRAME_TIME;
        let ghost start = *self;
        let mut i: u128 = 0;
        while i < frames
            invariant
                i <= frames,
                self.wf(),
                *self == after_frames(start, i as nat),
            decreases frames - i,
        {
            self.frame();
            i = i + 1;
        }
    }
}

impl PlayerActions {
    /// No input.
    pub open spec fn default_value() -> PlayerActions {
        PlayerActions {
            flip: false,
            hold: false,
            rotate_left: false,
            rotate_right: false,
            harddrop: false,
            begin_move_right: false,
            end_move_right: false,
            begin_move_left: false,
            end_move_left: false,
            begin_softdrop: false,
            end_softdrop: false,
        }
    }

    /// No input.
    pub fn new() -> (r: PlayerActions)
        ensures
            r == PlayerActions::default_value(),
    {
        PlayerActions {
            flip: false,
            hold: false,
            rotate_left: false,
            rotate_right: false,
            harddrop: false,
            begin_move_right: false,
            end_move_right: false,
            begin_move_left: false,
            end_move_left: false,
            begin_softdrop: false,
            end_softdrop: false,
        }
    }
}

proof fn lemma_step_repeat_keeps_residue(e: Engine, r: u128)
    ensures
        step_repeat(Engine { residue_time: r, ..e }) == (Engine { residue_time: r, ..step_repeat(e) }),
{
    reveal(step_repeat);
}

proof fn lemma_step_releases_keeps_residue(e: Engine, r: u128)
    ensures
        step_releases(Engine { residue_time: r, ..e }) == (Engine { residue_time: r, ..step_releases(e) }),
{
    reveal(step_releases);
}

proof fn lemma_step_turns_keeps_residue(e: Engine, r: u128)
    ensures
        step_turns(Engine { residue_time: r, ..e }) == (Engine { residue_time: r, ..step_turns(e) }),
{
    reveal(step_turns);
}

proof fn lemma_step_presses_keeps_residue(e: Engine, r: u128)
    ensures
        step_presses(Engine { residue_time: r, ..e }) == (Engine { residue_time: r, ..step_presses(e) }),
{
    reveal(step_presses);
}

proof fn lemma_step_drops_keeps_residue(e: Engine, r: u128)
    ensures
        step_drops(Engine { residue_time: r, ..e }) == (Engine { residue_time: r, ..step_drops(e) }),
{
    reveal(step_drops);
}

proof fn lemma_step_gravity_keeps_residue(e: Engine, r: u128)
    ensures
        step_gravity(Engine { residue_time: r, ..e }) == (Engine { residue_time: r, ..step_gravity(e) }),
{
    reveal(step_gravity);
}

/// A frame neither reads nor changes the leftover time.
pub proof fn lemma_frame_keeps_residue(e: Engine, r: u128)
    ensures
        after_frame(Engine { residue_time: r, ..e }) == (Engine { residue_time: r, ..after_frame(e) }),
{
    lemma_step_repeat_keeps_residue(e, r);
    let b1 = step_repeat(e);
    lemma_step_releases_keeps_residue(b1, r);
    let b2 = step_releases(b1);
    lemma_step_turns_keeps_residue(b2, r);
    let b3 = step_turns(b2);
    lemma_step_presses_keeps_residue(b3, r);
    let b4 = step_presses(b3);
    lemma_step_drops_keeps_residue(b4, r);
    let b5 = step_drops(b4);
    lemma_step_gravity_keeps_residue(b5, r);
}

pub proof fn lemma_frames_keep_residue(e: Engine, r: u128, n: nat)
    ensures
        after_frames(Engine { residue_time: r, ..e }, n) == (Engine {
            residue_time: r,
            ..after_frames(e, n)
        }),
    decreases n,
{
    if n > 0 {
        lemma_frames_keep_residue(e, r, (n - 1) as nat);
        lemma_frame_keeps_residue(after_frames(e, (n - 1) as nat), r);
    }
}

pub proof fn lemma_frames_add(e: Engine, n1: nat, n2: nat)
    ensures
        after_frames(after_frames(e, n1), n2) == after_frames(e, n1 + n2),
    decreases n2,
{
    if n2 > 0 {
        lemma_frames_add(e, n1, (n2 - 1) as nat);
    }
}

/// Splitting elapsed time over two updates gives the same game as one update
/// with the sum: leftover time carries over, so no frame is lost or gained.
pub proof fn law_time_splits(e: Engine, a: u128, b: u128)
    requires
        e.residue_time < FRAME_TIME,
        a + b + e.residue_time <= u128::MAX,
    ensures
        after_time(after_time(e, a), b) == after_time(e, (a + b) as u128),
{
    let f = FRAME_TIME as int;
    let r = e.residue_time as int;
    let n1 = (a + r) / f;
    let r1 = (a + r) % f;
    assert(0 <= r1 < f);
    let e1 = after_time(e, a);
    lemma_frames_keep_residue(e, r1 as u128, n1 as nat);
    assert(e1.residue_time == r1);
    let n2 = (b + r1) / f;
    let r2 = (b + r1) % f;
    assert(0 <= r2 < f);
    assert(a + r == n1 * f + r1) by (nonlinear_arith)
        requires
            n1 == (a + r) / f,
            r1 == (a + r) % f,
            f > 0,
    ;
    assert(b + r1 == n2 * f + r2) by (nonlinear_arith)
        requires
            n2 == (b + r1) / f,
            r2 == (b + r1) % f,
            f > 0,
    ;
    assert(a + b + r == (n1 + n2) * f + r2) by (nonlinear_arith)
        requires
            a + r == n1 * f + r1,
            b + r1 == n2 * f + r2,
    ;
    vstd::arithmetic::div_mod::lemma_fundamental_div_mod_converse(a + b + r, f, n1 + n2, r2);
    assert(n1 >= 0 && n2 >= 0) by (nonlinear_arith)
        requires
            a + r >= 0,
            b + r1 >= 0,
            f > 0,
            n1 == (a + r) / f,
            n2 == (b + r1) / f,
    ;
    lemma_frames_keep_residue(e, r2 as u128, n1 as nat);
    lemma_frames_keep_residue(after_frames(e, n1 as nat), r2 as u128, n2 as nat);
    lemma_frames_keep_residue(after_frames(e, n1 as nat), r1 as u128, n2 as nat);
    lemma_frames_keep_residue(e, r2 as u128, (n1 + n2) as nat);
    lemma_frames_add(e, n1 as nat, n2 as nat);
}

/// A move that is only taken where it fits keeps a fitting piece fitting.
proof fn lemma_accept_fits(pile: Pile, cur: Piece, cand: Piece)
    requires
        fits(pile, cur),
    ensures
        fits(pile, accept(pile, cur, cand)),
{
    reveal(accept);
}

/// The piece fits the pile.
pub open spec fn clear_of_pile(e: Engine) -> bool {
    fits(e.pile, e.active_piece)
}

proof fn lemma_repeat_clear(e: Engine)
    requires
        clear_of_pile(e),
    ensures
        clear_of_pile(step_repeat(e)),
        step_repeat(e).pile == e.pile,
{
    reveal(step_repeat);
    lemma_accept_fits(e.pile, e.active_piece, moved(e.active_piece, dir_offset(e.das->0) as int, 0, 0));
}

proof fn lemma_releases_clear(e: Engine)
    requires
        clear_of_pile(e),
    ensures
        clear_of_pile(step_releases(e)),
        step_releases(e).pile == e.pile,
        step_releases(e).frame_actions.harddrop == e.frame_actions.harddrop,
{
    reveal(step_releases);
}

proof fn lemma_turns_clear(e: Engine)
    requires
        clear_of_pile(e),
    ensures
        clear_of_pile(step_turns(e)),
        step_turns(e).pile == e.pile,
        step_turns(e).frame_actions.harddrop == e.frame_actions.harddrop,
{
    reveal(step_turns);
    let pile = e.pile;
    let p1 = e.active_piece;
    lemma_accept_fits(pile, p1, moved(p1, 0, 0, 2));
    let q1 = if e.frame_actions.flip {
        accept(pile, p1, moved(p1, 0, 0, 2))
    } else {
        p1
    };
    lemma_accept_fits(pile, q1, moved(q1, 0, 0, 3));
    let q2 = if e.frame_actions.rotate_left {
        accept(pile, q1, moved(q1, 0, 0, 3))
    } else {
        q1
    };
    lemma_accept_fits(pile, q2, moved(q2, 0, 0, 1));
}

proof fn lemma_presses_clear(e: Engine)
    requires
        clear_of_pile(e),
    ensures
        clear_of_pile(step_presses(e)),
        step_presses(e).pile == e.pile,
        step_presses(e).frame_actions.harddrop == e.frame_actions.harddrop,
{
    reveal(step_presses);
    let pile = e.pile;
    let p2 = e.active_piece;
    lemma_accept_fits(pile, p2, moved(p2, -1, 0, 0));
    let r1 = if e.frame_actions.begin_move_left {
        accept(pile, p2, moved(p2, -1, 0, 0))
    } else {
        p2
    };
    lemma_accept_fits(pile, r1, moved(r1, 1, 0, 0));
}

proof fn lemma_drops_clear(e: Engine)
    requires
        clear_of_pile(e),
        !e.frame_actions.harddrop,
    ensures
        clear_of_pile(step_drops(e)),
        step_drops(e).pile == e.pile,
{
    reveal(step_drops);
    lemma_accept_fits(e.pile, e.active_piece, moved(e.active_piece, 0, -1, 0));
}

proof fn lemma_gravity_clear(e: Engine)
    requires
        clear_of_pile(e),
    ensures
        clear_of_pile(step_gravity(e)),
        step_gravity(e).pile == e.pile,
{
    reveal(step_gravity);
    lemma_accept_fits(e.pile, e.active_piece, moved(e.active_piece, 0, -1, 0));
}

/// A frame without a hard drop leaves the pile as it was and keeps a piece
/// that fits the pile fitting: moves, turns, soft drop, gravity and sideways
/// repeat only ever take positions where the piece fits.
pub proof fn law_frame_keeps_piece_clear(e: Engine)
    requires
        fits(e.pile, e.active_piece),
        !e.frame_actions.harddrop,
    ensures
        after_frame(e).pile == e.pile,
        fits(after_frame(e).pile, after_frame(e).active_piece),
{
    reveal(step_repeat);
    let e0 = step_repeat(e);
    lemma_repeat_clear(e);
    lemma_releases_clear(e0);
    let e1 = step_releases(e0);
    lemma_turns_clear(e1);
    let e2 = step_turns(e1);
    lemma_presses_clear(e2);
    let e3 = step_presses(e2);
    lemma_drops_clear(e3);
    lemma_gravity_clear(step_drops(e3));
}

/// The frame's inputs when only the turn key for `count` clockwise quarter
/// turns (1: turn right, 2: flip, 3: turn left) was pressed.
pub open spec fn only_turn(a: PlayerActions, count: int) -> bool {
    &&& a.rotate_right == (count == 1)
    &&& a.flip == (count == 2)
    &&& a.rotate_left == (count == 3)
}

/// With one turn key pressed, the piece turns that way in place when the
/// turned piece fits: a right turn is one quarter turn clockwise, a flip two
/// and a left turn three (one counter-clockwise). Otherwise it stays.
pub proof fn law_turn_in_place(e: Engine, count: int)
    requires
        1 <= count <= 3,
        only_turn(e.frame_actions, count),
    ensures
        ({
            let p = e.active_piece;
            let r = step_turns(e).active_piece;
            &&& fits(e.pile, moved(p, 0, 0, count)) ==> r == moved(p, 0, 0, count)
                && r.orientation == rotated(p.orientation, count) && r.x == p.x && r.y == p.y
                && r.kind == p.kind
            &&& !fits(e.pile, moved(p, 0, 0, count)) ==> r == p
            &&& step_turns(e).pile == e.pile
        }),
{
    reveal(step_turns);
    reveal(accept);
}

/// A frame whose only input is one turn key, with no sideways repeat
/// running and no fall due, turns the piece in place as `law_turn_in_place`
/// says, when the turned piece fits, and leaves it otherwise.
pub proof fn law_frame_turn_in_place(e: Engine, count: int)
    requires
        classic_ok(e),
        1 <= count <= 3,
        e.frame_actions == (PlayerActions {
            rotate_right: count == 1,
            flip: count == 2,
            rotate_left: count == 3,
            ..PlayerActions::default_value()
        }),
        e.das is None,
        e.gravity_time + 1 < (if e.softdrop {
            SOFTDROP_FRAMES
        } else {
            ENGINE_FPS
        }),
    ensures
        ({
            let p = e.active_piece;
            let r = after_frame(e).active_piece;
            &&& fits(e.pile, moved(p, 0, 0, count)) ==> r == moved(p, 0, 0, count)
                && r.orientation == rotated(p.orientation, count) && r.x == p.x && r.y == p.y
            &&& !fits(e.pile, moved(p, 0, 0, count)) ==> r == p
            &&& after_frame(e).pile == e.pile
        }),
{
    reveal(step_repeat);
    reveal(step_releases);
    reveal(step_presses);
    reveal(step_drops);
    reveal(step_gravity);
    let e0 = step_repeat(e);
    let e1 = step_releases(e0);
    assert(e1.active_piece == e.active_piece && e1.pile == e.pile);
    assert(only_turn(e1.frame_actions, count));
    law_turn_in_place(e1, count);
    let e2 = step_turns(e1);
    assert(!e2.frame_actions.begin_move_left && !e2.frame_actions.begin_move_right) by {
        reveal(step_turns);
    }
    assert(!e2.frame_actions.harddrop && !e2.frame_actions.begin_softdrop
        && !e2.frame_actions.end_softdrop) by {
        reveal(step_turns);
    }
    assert(e2.gravity_time == e.gravity_time && e2.softdrop == e.softdrop) by {
        reveal(step_turns);
    }
}

/// A hard drop moves the piece straight down to where it rests (it fits
/// there and one row lower it would not), fills its cells into the pile
/// (keeping every other cell), and a fresh `T` spawns facing north with its
/// pivot at column 4, row 22.
pub proof fn law_hard_drop(e: Engine, x: int, y: int)
    requires
        placed_ok(e.active_piece),
        fits(e.pile, e.active_piece),
        e.frame_actions.harddrop,
        !e.frame_actions.begin_softdrop,
        0 <= x < PILE_WIDTH,
        0 <= y < PILE_HEIGHT,
    ensures
        ({
            let p = e.active_piece;
            let d = dropped(e.pile, p);
            let a = step_drops(e);
            &&& d.kind == p.kind && d.orientation == p.orientation && d.x == p.x && d.y <= p.y
            &&& fits(e.pile, d)
            &&& !fits(e.pile, moved(d, 0, -1, 0))
            &&& a.active_piece == piece_at(PieceKind::T, Orientation::N, 4, 22)
            &&& cell_at(a.pile, x, y) == if (exists|i: int|
                0 <= i < 4 && #[trigger] d.blocks[i] == (x as i32, y as i32)) {
                Some(p.kind)
            } else {
                cell_at(e.pile, x, y)
            }
        }),
{
    reveal(step_drops);
    let p = e.active_piece;
    let pile = e.pile;
    lemma_placed_pivot(p);
    assert(moved(p, 0, 0, 0) == p);
    lemma_fall_limit_ge(pile, p, 1);
    assert(fall_limit(pile, p, 0) == fall_limit(pile, p, 1));
    crate::laws::lemma_fall_limit_stops(pile, p, 0);
    let d = dropped(pile, p);
    assert(moved(d, 0, -1, 0) == moved(p, 0, -fall_limit(pile, p, 0), 0));
    lemma_fits_pivot(pile, p, 0, -(fall_limit(pile, p, 1) - 1), 0);
    lemma_spawn_piece_placed(PieceKind::T);
    let b = crate::engine::Board {
        pile,
        active_piece: None,
        ghost_piece: Some(d),
        hold: crate::engine::HoldPiece::Empty,
        movement: crate::engine::MovementState {
            das: None,
            move_left: false,
            move_right: false,
            soft_dropping: false,
        },
        config: crate::engine::GameConfig { das: 0, arr: 0, are: 0, gravity: 0, softdrop: 0, clear_delay: 0 },
        spawn_timer: crate::engine::Timer(0),
        fall_timer: crate::engine::Timer(0),
        das_timer: crate::engine::Timer(0),
        line_clear_timer: crate::engine::Timer(0),
        lowest_y: 0,
        resets: 0,
        lock_timer: crate::engine::Timer(0),
        game_over: false,
    };
    crate::laws::law_hard_drop_fills_ghost(b, x, y);
    reveal(crate::engine::after_lock_ghost);
}

/// Gravity: each frame the counter goes up; when it reaches 60 (5 while
/// soft dropping) it restarts at 0 and the piece falls a row if that fits.
pub proof fn law_gravity(e: Engine)
    ensures
        ({
            let p = e.active_piece;
            let a = step_gravity(e);
            let limit = if e.softdrop {
                5int
            } else {
                60int
            };
            &&& e.gravity_time + 1 >= limit ==> a.gravity_time == 0 && a.active_piece == (if fits(
                e.pile,
                moved(p, 0, -1, 0),
            ) {
                moved(p, 0, -1, 0)
            } else {
                p
            })
            &&& e.gravity_time + 1 < limit ==> a.gravity_time == e.gravity_time + 1
                && a.active_piece == p
            &&& a.pile == e.pile
        }),
{
    reveal(step_gravity);
    reveal(accept);
}

/// Sideways repeat: while a direction is held the counter goes up each
/// frame; when it reaches 6 the piece moves a column that way if that fits
/// and the counter steps back to 5, so the moves then come every frame.
pub proof fn law_sideways_repeat(e: Engine, d: Direction)
    requires
        e.das == Some(d),
    ensures
        ({
            let p = e.active_piece;
            let a = step_repeat(e);
            let cand = moved(p, dir_offset(d) as int, 0, 0);
            &&& e.das_time + 1 >= 6 ==> a.das_time == e.das_time && a.active_piece == (if fits(
                e.pile,
                cand,
            ) {
                cand
            } else {
                p
            })
            &&& e.das_time + 1 < 6 ==> a.das_time == e.das_time + 1 && a.active_piece == p
            &&& a.pile == e.pile
        }),
{
    reveal(step_repeat);
    reveal(accept);
}

/// Pressing a sideways key moves the piece a column that way if that fits,
/// marks the key held, makes it the repeat direction and restarts the
/// repeat counter.
pub proof fn law_press_sideways(e: Engine)
    requires
        e.frame_actions.begin_move_left != e.frame_actions.begin_move_right,
    ensures
        ({
            let p = e.active_piece;
            let a = step_presses(e);
            let left = e.frame_actions.begin_move_left;
            let cand = moved(p, if left { -1 } else { 1 }, 0, 0);
            &&& a.active_piece == (if fits(e.pile, cand) {
                cand
            } else {
                p
            })
            &&& a.das == Some(if left { Direction::Left } else { Direction::Right })
            &&& a.das_time == 0
            &&& left ==> a.move_left
            &&& !left ==> a.move_right
            &&& a.pile == e.pile
        }),
{
    reveal(step_presses);
    reveal(accept);
}

/// Pressing soft drop drops the piece a row if that fits, restarts the
/// gravity counter and turns soft drop on; releasing it turns it off.
pub proof fn law_soft_drop(e: Engine)
    requires
        !e.frame_actions.harddrop,
    ensures
        ({
            let p = e.active_piece;
            let a = step_drops(e);
            &&& e.frame_actions.begin_softdrop ==> a.active_piece == (if fits(
                e.pile,
                moved(p, 0, -1, 0),
            ) {
                moved(p, 0, -1, 0)
            } else {
                p
            }) && a.gravity_time == 0
            &&& e.frame_actions.begin_softdrop && !e.frame_actions.end_softdrop ==> a.softdrop
            &&& e.frame_actions.end_softdrop ==> !a.softdrop
            &&& a.pile == e.pile
        }),
{
    reveal(step_drops);
    reveal(accept);
}

/// Releasing one sideways key marks it released and restarts the repeat
/// counter; the repeat turns to the other direction if that key is held and
/// stops otherwise. The piece does not move.
pub proof fn law_release_sideways(e: Engine)
    requires
        e.frame_actions.end_move_left != e.frame_actions.end_move_right,
    ensures
        ({
            let a = step_releases(e);
            let left = e.frame_actions.end_move_left;
            let other_held = if left {
                e.move_right
            } else {
                e.move_left
            };
            &&& left ==> !a.move_left && a.move_right == e.move_right
            &&& !left ==> !a.move_right && a.move_left == e.move_left
            &&& a.das == (if other_held {
                Some(if left { Direction::Right } else { Direction::Left })
            } else {
                None
            })
            &&& a.das_time == 0
            &&& a.active_piece == e.active_piece
            &&& a.pile == e.pile
        }),
{
    reveal(step_releases);
}

} // verus!
