//! The game engine: one call of `Engine::update` advances the game by a frame.
use vstd::prelude::*;

use crate::next_queue::NextQueue;
use crate::piece::{
    kick, kick_offset, lowest, piece_at, rotated, spawn_x, spawn_y, Orientation, Piece, PieceKind,
};
use crate::pile::{blocked, collides, has_full_row, in_bounds, Cell, Pile};
use crate::{PILE_HEIGHT, PILE_WIDTH};

verus! {

/// Timing settings, in frames.
#[derive(Debug, Clone, Copy, PartialEq, Eq, Structural)]
pub struct GameConfig {
    /// Delay before a held sideways move starts repeating.
    pub das: u32,
    /// Delay between repeated sideways moves; 0 slides to the wall at once.
    pub arr: u32,
    /// Delay between a lock and the next spawn.
    pub are: u32,
    /// Delay between falls.
    pub gravity: u32,
    /// Delay between falls while soft dropping.
    pub softdrop: u32,
    /// Delay of a line clear (and of the spawn after it).
    pub clear_delay: u32,
}

#[derive(Debug, Clone, Copy, PartialEq, Eq, Structural)]
pub enum Direction {
    Left,
    Right,
}

#[derive(Debug, Clone, Copy, PartialEq, Eq, Structural)]
pub enum Action {
    Flip,
    Hold,
    Rotate(Direction),
    Move(Direction),
    Harddrop,
    Softdrop,
}

/// A key press (`Begin`) or release (`End`) of an action.
#[derive(Debug, Clone, Copy, PartialEq, Eq, Structural)]
pub enum Input {
    Begin(Action),
    End(Action),
}

/// The held piece; a `Locked` one cannot be swapped back until the next lock.
#[derive(Debug, Clone, Copy, PartialEq, Eq, Structural)]
pub enum HoldPiece {
    Empty,
    Locked(PieceKind),
    Unlocked(PieceKind),
}

/// The column step of a sideways move.
pub open spec fn dir_offset(d: Direction) -> i32 {
    match d {
        Direction::Left => -1i32,
        Direction::Right => 1i32,
    }
}

impl Direction {
    /// The column step of a move in this direction.
    pub fn offset(&self) -> (r: i32)
        ensures
            r == dir_offset(*self),
    {
        match self {
            Direction::Left => -1,
            Direction::Right => 1,
        }
    }
}

/// Which sideways keys are held and whether soft drop is on.
#[derive(Debug, Clone, Copy, PartialEq, Eq, Structural)]
pub struct MovementState {
    pub das: Option<Direction>,
    pub move_left: bool,
    pub move_right: bool,
    pub soft_dropping: bool,
}

/// A countdown in frames; 0 means stopped.
#[derive(Debug, Clone, Copy, PartialEq, Eq, Structural)]
pub struct Timer(pub u32);

impl Timer {
    pub fn new() -> (r: Timer)
        ensures
            r == Timer(0),
    {
        Timer(0)
    }

    /// Counts down one frame; true exactly when the count reaches zero now.
    pub fn tick(&mut self) -> (r: bool)
        ensures
            *final(self) == Timer(if old(self).0 == 0 { 0 } else { (old(self).0 - 1) as u32 }),
            r == (old(self).0 == 1),
    {
        if self.0 == 0 {
            return false;
        }
        self.0 = self.0 - 1;
        if self.0 == 0 {
            return true;
        }
        false
    }

    pub fn set(&mut self, n: u32)
        ensures
            *final(self) == Timer(n),
    {
        self.0 = n;
    }

    pub fn stop(&mut self)
        ensures
            *final(self) == Timer(0),
    {
        self.0 = 0;
    }
}

/// The timer after one tick.
pub open spec fn ticked(t: Timer) -> Timer {
    Timer(if t.0 == 0 { 0 } else { (t.0 - 1) as u32 })
}

/// Whether the tick fires.
pub open spec fn fires(t: Timer) -> bool {
    t.0 == 1
}

/// Everything the engine keeps but the queue of upcoming pieces.
#[derive(Debug, Clone, Copy, PartialEq, Eq)]
pub struct Board {
    pub pile: Pile,
    pub active_piece: Option<Piece>,
    pub ghost_piece: Option<Piece>,
    pub hold: HoldPiece,
    pub movement: MovementState,
    pub config: GameConfig,
    pub spawn_timer: Timer,
    pub fall_timer: Timer,
    pub das_timer: Timer,
    pub line_clear_timer: Timer,
    pub lowest_y: i32,
    pub resets: i32,
    pub lock_timer: Timer,
    pub game_over: bool,
}

/// `p` moved by `(dx, dy)` and turned `r` times clockwise.
pub open spec fn moved(p: Piece, dx: int, dy: int, r: int) -> Piece {
    piece_at(p.kind, rotated(p.orientation, r), (p.x + dx) as i32, (p.y + dy) as i32)
}

/// Whether `p` fits in the pile: every cell on the grid and empty.
pub open spec fn fits(pile: Pile, p: Piece) -> bool {
    !collides(pile, p.blocks@)
}

/// A piece whose cells match its kind, orientation and pivot, all on the grid.
pub open spec fn placed_ok(p: Piece) -> bool {
    &&& p == piece_at(p.kind, p.orientation, p.x, p.y)
    &&& forall|i: int| 0 <= i < 4 ==> #[trigger] in_bounds(p.blocks[i])
}

/// The active piece moved by `(dx, dy)` and turned `r` times, if it fits.
pub open spec fn try_move(b: Board, dx: int, dy: int, r: int) -> Option<Piece> {
    match b.active_piece {
        None => None,
        Some(p) => if fits(b.pile, moved(p, dx, dy, r)) {
            Some(moved(p, dx, dy, r))
        } else {
            None
        },
    }
}

/// The first drop distance `>= d` at which `p` no longer fits (at most 64).
pub open spec fn fall_limit(pile: Pile, p: Piece, d: int) -> int
    decreases 64 - d,
{
    if d >= 64 || !fits(pile, moved(p, 0, -d, 0)) {
        d
    } else {
        fall_limit(pile, p, d + 1)
    }
}

/// The recursion measure of piece placement: one more than the pivot's row.
pub open spec fn height(p: Option<Piece>) -> int {
    match p {
        Some(q) => if q.y + 1 >= 0 {
            q.y + 1
        } else {
            0
        },
        None => 0,
    }
}

/// Whether a piece, if any, lies where moving it a few cells cannot overflow.
pub open spec fn sane(p: Option<Piece>) -> bool {
    match p {
        Some(q) => -900 <= q.x <= 900 && -900 <= q.y <= 900,
        None => true,
    }
}

pub proof fn lemma_fits_pivot(pile: Pile, p: Piece, dx: int, dy: int, r: int)
    requires
        fits(pile, moved(p, dx, dy, r)),
    ensures
        0 <= moved(p, dx, dy, r).x < PILE_WIDTH,
        0 <= moved(p, dx, dy, r).y < PILE_HEIGHT,
        placed_ok(moved(p, dx, dy, r)),
{
    let q = moved(p, dx, dy, r);
    crate::piece::law_shape_cells_distinct(q.kind, q.orientation);
    crate::piece::lemma_shape_small(q.kind, q.orientation);
    assert(!blocked(pile, q.blocks@[0]));
    assert forall|i: int| 0 <= i < 4 implies #[trigger] in_bounds(q.blocks[i]) by {
        assert(!blocked(pile, q.blocks@[i]));
    }
}

pub proof fn lemma_fall_limit_ge(pile: Pile, p: Piece, d: int)
    ensures
        fall_limit(pile, p, d) >= d,
    decreases 64 - d,
{
    if d < 64 && fits(pile, moved(p, 0, -d, 0)) {
        lemma_fall_limit_ge(pile, p, d + 1);
    }
}

pub proof fn lemma_placed_pivot(p: Piece)
    requires
        placed_ok(p),
    ensures
        0 <= p.x < PILE_WIDTH,
        0 <= p.y < PILE_HEIGHT,
        sane(Some(p)),
{
    crate::piece::law_shape_cells_distinct(p.kind, p.orientation);
    assert(in_bounds(p.blocks[0]));
}

/// The board after making `piece` the active piece: the ghost follows it down,
/// the lowest row reached and the lock-reset count are updated, and after too
/// many resets the piece is pushed down (or locked).
pub open spec fn after_set_active(b: Board, piece: Option<Piece>) -> Board
    decreases height(piece), 2int,
    when sane(piece)
{
    match piece {
        None => Board { active_piece: None, ghost_piece: None, ..b },
        Some(p) => {
            let b1 = Board { active_piece: Some(p), ..b };
            let lim = fall_limit(b.pile, p, 0);
            let b2 = if lim == 0 {
                b1
            } else {
                Board { ghost_piece: Some(moved(p, 0, -(lim - 1), 0)), ..b1 }
            };
            let low = if b.lowest_y <= lowest(p) {
                b.lowest_y
            } else {
                lowest(p)
            };
            let b3 = Board {
                lowest_y: low,
                resets: if low < b.lowest_y {
                    0
                } else {
                    b.resets
                },
                ..b2
            };
            let b4 = if Some(p) != b.active_piece {
                Board {
                    lock_timer: Timer(
                        if fits(b.pile, moved(p, 0, -1, 0)) {
                            0
                        } else {
                            30
                        },
                    ),
                    ..b3
                }
            } else {
                b3
            };
            let b5 = Board { resets: (b4.resets + 1) as i32, ..b4 };
            if b5.resets > 15 {
                after_try_lock(b5)
            } else {
                b5
            }
        },
    }
}

/// The board after trying to push the active piece down one row: it moves if
/// it fits, and locks where its ghost is otherwise.
pub open spec fn after_try_lock(b: Board) -> Board
    decreases height(b.active_piece), 1int,
    when sane(b.active_piece)
{
    match try_move(b, 0, -1, 0) {
        None => after_lock_ghost(b),
        Some(q) => {
            proof {
                lemma_fits_pivot(b.pile, b.active_piece->0, 0, -1, 0);
            }
            after_set_active(b, Some(q))
        },
    }
}

/// `p` with the cell in column `x` of row `y` set to `c`.
pub open spec fn with_cell(p: Pile, x: int, y: int, c: Cell) -> Pile {
    Pile(vstd::array::spec_array_update(p.0, y, vstd::array::spec_array_update(p.0[y], x, c)))
}

/// The pile with the cells of `g` filled by its kind.
pub open spec fn place(p: Pile, g: Piece) -> Pile {
    let c = Some(g.kind);
    let p1 = with_cell(p, g.blocks[0].0 as int, g.blocks[0].1 as int, c);
    let p2 = with_cell(p1, g.blocks[1].0 as int, g.blocks[1].1 as int, c);
    let p3 = with_cell(p2, g.blocks[2].0 as int, g.blocks[2].1 as int, c);
    with_cell(p3, g.blocks[3].0 as int, g.blocks[3].1 as int, c)
}

/// The board after locking the ghost piece into the pile: the active piece is
/// gone, a locked hold is released, and the spawn (and line clear) is timed.
#[verifier::opaque]
pub open spec fn after_lock_ghost(b: Board) -> Board {
    match b.ghost_piece {
        None => b,
        Some(g) => {
            let pile = place(b.pile, g);
            let line_clear = has_full_row(pile);
            let hold = match b.hold {
                HoldPiece::Locked(k) => HoldPiece::Unlocked(k),
                h => h,
            };
            let b1 = Board {
                pile,
                hold,
                fall_timer: Timer(0),
                active_piece: None,
                ghost_piece: None,
                ..b
            };
            if line_clear {
                Board {
                    line_clear_timer: Timer(b.config.clear_delay),
                    spawn_timer: Timer(b.config.clear_delay),
                    ..b1
                }
            } else {
                Board { spawn_timer: Timer(b.config.are), ..b1 }
            }
        },
    }
}

/// The board after the active piece falls one row, if it fits.
#[verifier::opaque]
pub open spec fn after_fall(b: Board) -> Board {
    match try_move(b, 0, -1, 0) {
        None => b,
        Some(q) => after_set_active(b, Some(q)),
    }
}

/// The board after the active piece moves one column, if it fits.
#[verifier::opaque]
pub open spec fn after_move(b: Board, d: Direction) -> Board {
    match try_move(b, dir_offset(d) as int, 0, 0) {
        None => b,
        Some(q) => after_set_active(b, Some(q)),
    }
}

/// The fall timer restarted at the gravity (or soft drop) delay.
pub open spec fn with_fall_timer(b: Board) -> Board {
    Board {
        fall_timer: Timer(
            if b.movement.soft_dropping {
                b.config.softdrop
            } else {
                b.config.gravity
            },
        ),
        ..b
    }
}

/// The board after turning `p` (the active piece) `count` times clockwise,
/// trying kick tests `n` to 4 in order and taking the first that fits.
pub open spec fn rotate_from(b: Board, p: Piece, count: int, n: int) -> Board
    decreases 5 - n,
{
    if n >= 5 || n < 0 {
        b
    } else {
        let k = kick(p.kind, p.orientation, rotated(p.orientation, count), n);
        match try_move(b, k.0 as int, k.1 as int, count) {
            Some(q) => after_set_active(b, Some(q)),
            None => rotate_from(b, p, count, n + 1),
        }
    }
}

/// The board after turning the active piece `count` times clockwise.
#[verifier::opaque]
pub open spec fn after_rotate(b: Board, count: int) -> Board {
    match b.active_piece {
        None => b,
        Some(p) => rotate_from(b, p, count, 0),
    }
}

/// A fresh piece of the given kind at the spawn position.
pub open spec fn spawn_piece(kind: PieceKind) -> Piece {
    piece_at(kind, Orientation::N, spawn_x(), spawn_y())
}

/// The board after spawning a piece of `kind`: the game is over when it does
/// not fit; otherwise it falls a row at once and gravity starts.
#[verifier::opaque]
pub open spec fn after_spawn(b: Board, kind: PieceKind) -> Board {
    let b1 = after_set_active(Board { resets: 0, ..b }, Some(spawn_piece(kind)));
    let a = b1.active_piece->0;
    if collides(b1.pile, a.blocks@) {
        Board { game_over: true, ..b1 }
    } else {
        with_fall_timer(after_fall(Board { lowest_y: lowest(a), ..b1 }))
    }
}

/// How far the active piece can still slide toward `d` before leaving the grid.
pub open spec fn slide_room(p: Option<Piece>, d: Direction) -> int {
    match p {
        None => 0,
        Some(q) => {
            let v = if d == Direction::Left {
                q.x + 3
            } else {
                12 - q.x
            };
            if v >= 0 {
                v
            } else {
                0
            }
        },
    }
}

/// The board after moving the active piece toward `d` until it no longer fits.
pub open spec fn after_slide(b: Board, d: Direction) -> Board
    decreases slide_room(b.active_piece, d),
    when sane(b.active_piece)
{
    match try_move(b, dir_offset(d) as int, 0, 0) {
        None => b,
        Some(q) => {
            proof {
                lemma_fits_pivot(b.pile, b.active_piece->0, dir_offset(d) as int, 0, 0);
                lemma_set_active_column(b, q);
            }
            after_slide(after_set_active(b, Some(q)), d)
        },
    }
}

/// Placing a piece leaves it, or a piece below it in the same column, active.
pub proof fn lemma_set_active_column(b: Board, q: Piece)
    requires
        0 <= q.y <= 900,
        -900 <= q.x <= 900,
    ensures
        after_set_active(b, Some(q)).active_piece matches Some(r) ==> r.x == q.x && 0 <= r.y <= q.y,
    decreases height(Some(q)), 2int,
{
    let b1 = Board { active_piece: Some(q), ..b };
    let lim = fall_limit(b.pile, q, 0);
    let b2 = if lim == 0 {
        b1
    } else {
        Board { ghost_piece: Some(moved(q, 0, -(lim - 1), 0)), ..b1 }
    };
    let low = if b.lowest_y <= lowest(q) {
        b.lowest_y
    } else {
        lowest(q)
    };
    let b3 = Board {
        lowest_y: low,
        resets: if low < b.lowest_y {
            0
        } else {
            b.resets
        },
        ..b2
    };
    let b4 = if Some(q) != b.active_piece {
        Board {
            lock_timer: Timer(
                if fits(b.pile, moved(q, 0, -1, 0)) {
                    0
                } else {
                    30
                },
            ),
            ..b3
        }
    } else {
        b3
    };
    let b5 = Board { resets: (b4.resets + 1) as i32, ..b4 };
    if b5.resets > 15 {
        lemma_try_lock_column(b5);
    }
}

pub proof fn lemma_try_lock_column(b: Board)
    requires
        b.active_piece matches Some(a) && 0 <= a.y <= 900 && -900 <= a.x <= 900,
    ensures
        after_try_lock(b).active_piece matches Some(r) ==> r.x == b.active_piece->0.x && 0 <= r.y
            <= b.active_piece->0.y,
    decreases height(b.active_piece), 1int,
{
    reveal(after_lock_ghost);
    match try_move(b, 0, -1, 0) {
        None => {},
        Some(q) => {
            lemma_fits_pivot(b.pile, b.active_piece->0, 0, -1, 0);
            lemma_set_active_column(b, q);
        },
    }
}

pub proof fn lemma_spawn_piece_placed(kind: PieceKind)
    ensures
        placed_ok(spawn_piece(kind)),
        spawn_piece(kind).y == 22,
{
    let p = spawn_piece(kind);
    crate::piece::lemma_shape_small(kind, Orientation::N);
    assert forall|i: int| 0 <= i < 4 implies #[trigger] in_bounds(p.blocks[i]) by {
        assert(p.blocks[i] == crate::piece::offset_cell(crate::piece::shape(kind, Orientation::N)[i], 4, 22));
    }
}

/// The invariant of the board: the active and ghost pieces lie on the grid as
/// their kind and orientation say, a moving active piece has had at most 15
/// resets, and a running repeat timer has a direction.
pub open spec fn board_ok(b: Board) -> bool {
    &&& core_ok(b)
    &&& b.active_piece is Some ==> 0 <= b.resets <= 15
}

pub open spec fn core_ok(b: Board) -> bool {
    &&& b.active_piece matches Some(p) ==> placed_ok(p)
    &&& b.ghost_piece matches Some(g) ==> placed_ok(g)
    &&& b.das_timer.0 != 0 ==> b.movement.das is Some
}

/// The controls and settings that piece placement leaves alone.
pub open spec fn same_controls(a: Board, b: Board) -> bool {
    &&& a.movement == b.movement
    &&& a.config == b.config
    &&& a.das_timer == b.das_timer
    &&& a.game_over == b.game_over
}

/// Whether two optional pieces are equal.
fn same_piece(a: &Option<Piece>, b: &Option<Piece>) -> (r: bool)
    ensures
        r == (*a == *b),
{
    match (a, b) {
        (Some(p), Some(q)) => *p == *q,
        (None, None) => true,
        _ => false,
    }
}

impl Board {
    /// The active piece moved and turned, if it fits.
    fn can_move(&self, dx: i32, dy: i32, rotate_cw: i32) -> (r: Option<Piece>)
        requires
            sane(self.active_piece),
            -64 <= dx <= 64,
            -64 <= dy <= 64,
        ensures
            r == try_move(*self, dx as int, dy as int, rotate_cw as int),
    {
        let active_piece = match self.active_piece {
            Some(p) => p,
            None => {
                return None;
            },
        };
        let branched = active_piece.changed_by(dx, dy, rotate_cw);
        if self.pile.check_collision(&branched.blocks) {
            return None;
        }
        Some(branched)
    }

    /// Makes `piece` the active piece (see `after_set_active`).
    fn set_active(&mut self, piece: Option<Piece>)
        requires
            core_ok(*old(self)),
            piece matches Some(p) ==> {
                &&& placed_ok(p)
                &&& 0 <= old(self).resets
                &&& old(self).resets + p.y <= 60
                &&& !fits(old(self).pile, p) ==> old(self).resets == 0
            },
        ensures
            same_controls(*old(self), *final(self)),
            *final(self) == after_set_active(*old(self), piece),
            board_ok(*final(self)),
        decreases height(piece), 2int,
    {
        let p = match piece {
            None => {
                self.active_piece = None;
                self.ghost_piece = None;
                return;
            },
            Some(p) => p,
        };
        let ghost b0 = *self;
        proof {
            lemma_placed_pivot(p);
        }
        let previous_piece = self.active_piece;
        let previous_lowest_y = self.lowest_y;
        self.active_piece = Some(p);
        proof {
            assert(moved(p, 0, 0, 0) == p);
        }
        let ghost pre = *self;
        let mut dy: i32 = 0;
        loop
            invariant
                placed_ok(p),
                sane(Some(p)),
                0 <= p.y < PILE_HEIGHT,
                0 <= dy <= p.y + 1,
                *self == (Board { ghost_piece: self.ghost_piece, ..pre }),
                pre.active_piece == Some(p),
                pre.pile == b0.pile,
                fall_limit(b0.pile, p, 0) == fall_limit(b0.pile, p, dy as int),
                self.ghost_piece == (if dy == 0 {
                    b0.ghost_piece
                } else {
                    Some(moved(p, 0, -(dy - 1), 0))
                }),
                dy > 0 ==> fits(b0.pile, moved(p, 0, -(dy - 1), 0)),
            ensures
                fall_limit(b0.pile, p, 0) == dy,
                *self == (Board { ghost_piece: self.ghost_piece, ..pre }),
                self.ghost_piece == (if dy == 0 {
                    b0.ghost_piece
                } else {
                    Some(moved(p, 0, -(dy - 1), 0))
                }),
                dy > 0 ==> fits(b0.pile, moved(p, 0, -(dy - 1), 0)),
            decreases p.y + 1 - dy,
        {
            match self.can_move(0, -dy, 0) {
                None => {
                    break;
                },
                Some(g) => {
                    proof {
                        lemma_fits_pivot(b0.pile, p, 0, -dy, 0);
                    }
                    self.ghost_piece = Some(g);
                    dy = dy + 1;
                },
            }
        }
        proof {
            if dy > 0 {
                lemma_fits_pivot(b0.pile, p, 0, -(dy - 1), 0);
            }
        }
        proof {
            if fits(b0.pile, p) {
                assert(moved(p, 0, -0, 0) == p);
                lemma_fall_limit_ge(b0.pile, p, 1);
            }
        }
        let low = p.lowest_y();
        if low < self.lowest_y {
            self.lowest_y = low;
        }
        if self.lowest_y < previous_lowest_y {
            self.resets = 0;
        }
        if !same_piece(&self.active_piece, &previous_piece) {
            if self.can_move(0, -1, 0).is_none() {
                self.lock_timer.set(30);
            } else {
                self.lock_timer.stop();
            }
        }
        self.resets = self.resets + 1;
        if self.resets > 15 {
            self.try_lock();
        }
    }

    /// Pushes the active piece down one row, or locks it (see `after_try_lock`).
    fn try_lock(&mut self)
        requires
            core_ok(*old(self)),
            old(self).active_piece matches Some(a) ==> {
                &&& 0 <= old(self).resets
                &&& old(self).resets + a.y <= 61
                &&& old(self).resets > 15 ==> old(self).ghost_piece is Some
            },
        ensures
            same_controls(*old(self), *final(self)),
            *final(self) == after_try_lock(*old(self)),
            board_ok(*final(self)),
        decreases height(old(self).active_piece), 1int,
    {
        proof {
            if let Some(a) = self.active_piece {
                lemma_placed_pivot(a);
            }
        }
        match self.can_move(0, -1, 0) {
            None => {
                self.lock_ghost();
            },
            Some(q) => {
                proof {
                    lemma_fits_pivot(self.pile, self.active_piece->0, 0, -1, 0);
                }
                self.set_active(Some(q));
            },
        }
    }

    /// Moves the active piece down one row if it fits.
    fn fall(&mut self)
        requires
            board_ok(*old(self)),
        ensures
            same_controls(*old(self), *final(self)),
            *final(self) == after_fall(*old(self)),
            board_ok(*final(self)),
    {
        reveal(after_fall);
        proof {
            if let Some(a) = self.active_piece {
                lemma_placed_pivot(a);
            }
        }
        let piece = match self.can_move(0, -1, 0) {
            Some(piece) => piece,
            None => {
                return;
            },
        };
        proof {
            lemma_fits_pivot(self.pile, self.active_piece->0, 0, -1, 0);
        }
        self.set_active(Some(piece));
    }

    /// Moves the active piece one column toward `direction` if it fits.
    fn do_move(&mut self, direction: Direction)
        requires
            board_ok(*old(self)),
        ensures
            same_controls(*old(self), *final(self)),
            *final(self) == after_move(*old(self), direction),
            board_ok(*final(self)),
    {
        reveal(after_move);
        proof {
            if let Some(a) = self.active_piece {
                lemma_placed_pivot(a);
            }
        }
        let piece = match self.can_move(direction.offset(), 0, 0) {
            Some(piece) => piece,
            None => {
                return;
            },
        };
        proof {
            lemma_fits_pivot(self.pile, self.active_piece->0, dir_offset(direction) as int, 0, 0);
        }
        self.set_active(Some(piece));
    }

    /// Restarts the fall timer at the gravity or soft drop delay.
    fn set_fall_timer(&mut self)
        ensures
            *final(self) == with_fall_timer(*old(self)),
    {
        self.fall_timer.set(
            if self.movement.soft_dropping {
                self.config.softdrop
            } else {
                self.config.gravity
            },
        );
    }

    /// Turns the active piece `count` times clockwise, taking the first kick
    /// test that fits.
    fn rotate(&mut self, count: i32)
        requires
            board_ok(*old(self)),
        ensures
            same_controls(*old(self), *final(self)),
            *final(self) == after_rotate(*old(self), count as int),
            board_ok(*final(self)),
    {
        reveal(after_rotate);
        let active_piece = match self.active_piece {
            Some(p) => p,
            None => {
                return;
            },
        };
        proof {
            lemma_placed_pivot(active_piece);
        }
        let new_orientation = active_piece.orientation.rotate_cw(count);
        let mut n: i32 = 0;
        while n < 5
            invariant
                0 <= n <= 5,
                *self == *old(self),
                board_ok(*self),
                self.active_piece == Some(active_piece),
                placed_ok(active_piece),
                sane(Some(active_piece)),
                0 <= active_piece.x < PILE_WIDTH,
                0 <= active_piece.y < PILE_HEIGHT,
                new_orientation == rotated(active_piece.orientation, count as int),
                after_rotate(*old(self), count as int) == rotate_from(
                    *old(self),
                    active_piece,
                    count as int,
                    n as int,
                ),
            decreases 5 - n,
        {
            let (kick_x, kick_y) = kick_offset(
                active_piece.kind,
                active_piece.orientation,
                new_orientation,
                n,
            );
            if let Some(piece) = self.can_move(kick_x, kick_y, count) {
                proof {
                    lemma_fits_pivot(self.pile, active_piece, kick_x as int, kick_y as int, count as int);
                }
                self.set_active(Some(piece));
                return;
            }
            n = n + 1;
        }
    }

    /// Spawns a piece of `kind` (see `after_spawn`).
    fn spawn(&mut self, kind: PieceKind)
        requires
            core_ok(*old(self)),
        ensures
            *final(self) == after_spawn(*old(self), kind),
            board_ok(*final(self)),
    {
        reveal(after_spawn);
        self.resets = 0;
        let piece = Piece::spawn(kind);
        proof {
            lemma_spawn_piece_placed(kind);
        }
        self.set_active(Some(piece));
        assert(self.active_piece == Some(piece));
        let active = self.active_piece.unwrap();
        if self.pile.check_collision(&active.blocks) {
            self.game_over = true;
            return;
        }
        self.lowest_y = active.lowest_y();
        self.fall();
        self.set_fall_timer();
    }

    /// Slides the active piece toward `direction` until it no longer fits.
    fn slide(&mut self, direction: Direction)
        requires
            board_ok(*old(self)),
        ensures
            same_controls(*old(self), *final(self)),
            *final(self) == after_slide(*old(self), direction),
            board_ok(*final(self)),
    {
        proof {
            if let Some(a) = self.active_piece {
                lemma_placed_pivot(a);
            }
        }
        loop
            invariant
                board_ok(*self),
                same_controls(*old(self), *self),
                sane(self.active_piece),
                after_slide(*old(self), direction) == after_slide(*self, direction),
            ensures
                board_ok(*self),
                same_controls(*old(self), *self),
                *self == after_slide(*old(self), direction),
            decreases slide_room(self.active_piece, direction),
        {
            proof {
                if let Some(a) = self.active_piece {
                    lemma_placed_pivot(a);
                }
            }
            if let Some(piece) = self.can_move(direction.offset(), 0, 0) {
                proof {
                    lemma_fits_pivot(self.pile, self.active_piece->0, dir_offset(direction) as int, 0, 0);
                    lemma_set_active_column(*self, piece);
                }
                self.set_active(Some(piece));
                proof {
                    if let Some(a) = self.active_piece {
                        lemma_placed_pivot(a);
                    }
                }
            } else {
                assert(after_slide(*self, direction) == *self);
                break;
            }
        }
    }

    /// Locks the ghost piece into the pile (see `after_lock_ghost`).
    fn lock_ghost(&mut self)
        requires
            core_ok(*old(self)),
        ensures
            same_controls(*old(self), *final(self)),
            *final(self) == after_lock_ghost(*old(self)),
            core_ok(*final(self)),
            old(self).ghost_piece is Some ==> final(self).active_piece is None,
            old(self).ghost_piece is None ==> *final(self) == *old(self),
    {
        reveal(after_lock_ghost);
        let ghost_piece = match self.ghost_piece {
            Some(g) => g,
            None => {
                return;
            },
        };
        let k: Cell = Some(ghost_piece.kind);
        assert(in_bounds(ghost_piece.blocks[0]) && in_bounds(ghost_piece.blocks[1]) && in_bounds(
            ghost_piece.blocks[2],
        ) && in_bounds(ghost_piece.blocks[3]));
        let (x0, y0) = ghost_piece.blocks[0];
        self.pile.0[y0 as usize][x0 as usize] = k;
        let (x1, y1) = ghost_piece.blocks[1];
        self.pile.0[y1 as usize][x1 as usize] = k;
        let (x2, y2) = ghost_piece.blocks[2];
        self.pile.0[y2 as usize][x2 as usize] = k;
        let (x3, y3) = ghost_piece.blocks[3];
        self.pile.0[y3 as usize][x3 as usize] = k;
        let line_clear = self.pile.any_lines_to_clear();
        if let HoldPiece::Locked(piece) = self.hold {
            self.hold = HoldPiece::Unlocked(piece);
        }
        self.fall_timer.stop();
        self.active_piece = None;
        self.ghost_piece = None;
        if line_clear {
            self.line_clear_timer.set(self.config.clear_delay);
            self.spawn_timer.set(self.config.clear_delay);
        } else {
            self.spawn_timer.set(self.config.are);
        }
    }
}

/// How many pieces have been taken from the queue, and how many are waiting.
pub ghost struct QueuePos {
    pub taken: nat,
    pub waiting: nat,
}

/// Taking the next piece of `deck` (every piece dealt, in order): a new bag of
/// seven joins the waiting pieces when fewer than five would be left.
pub open spec fn pulled(deck: Seq<PieceKind>, q: QueuePos) -> (PieceKind, QueuePos) {
    (
        deck[q.taken as int],
        QueuePos {
            taken: q.taken + 1,
            waiting: if q.waiting - 1 < 5 {
                (q.waiting + 6) as nat
            } else {
                (q.waiting - 1) as nat
            },
        },
    )
}

/// A pile whose rows are `cleared` of the rows of `p`.
pub open spec fn cleared_pile(p: Pile) -> Pile {
    choose|q: Pile| q.0@ == crate::pile::cleared(p.0@)
}

/// The line-clear timer ticks; when it runs out, full rows are cleared.
#[verifier::opaque]
pub open spec fn stage_clear(b: Board) -> Board {
    let b1 = Board { line_clear_timer: ticked(b.line_clear_timer), ..b };
    if fires(b.line_clear_timer) {
        Board { pile: cleared_pile(b.pile), ..b1 }
    } else {
        b1
    }
}

/// The spawn timer ticks; when it runs out, the next piece spawns.
#[verifier::opaque]
pub open spec fn stage_spawn(b: Board, q: QueuePos, deck: Seq<PieceKind>) -> (Board, QueuePos) {
    let b1 = Board { spawn_timer: ticked(b.spawn_timer), ..b };
    if fires(b.spawn_timer) {
        let (k, q1) = pulled(deck, q);
        (after_spawn(b1, k), q1)
    } else {
        (b1, q)
    }
}

/// The fall timer ticks; when it runs out, the piece falls and it restarts.
#[verifier::opaque]
pub open spec fn stage_fall(b: Board) -> Board {
    let b1 = Board { fall_timer: ticked(b.fall_timer), ..b };
    if fires(b.fall_timer) {
        with_fall_timer(after_fall(b1))
    } else {
        b1
    }
}

/// The repeat timer ticks; when it runs out, the piece moves again (or slides
/// to the wall when the repeat delay is 0) and it restarts.
#[verifier::opaque]
pub open spec fn stage_das(b: Board) -> Board {
    let b1 = Board { das_timer: ticked(b.das_timer), ..b };
    if fires(b.das_timer) {
        let d = b1.movement.das->0;
        let m = after_move(b1, d);
        if m.config.arr > 0 {
            Board { das_timer: Timer(m.config.arr), ..m }
        } else {
            after_slide(Board { das_timer: Timer(1), ..m }, d)
        }
    } else {
        b1
    }
}

/// The lock timer ticks; when it runs out, the piece is pushed down or locked.
#[verifier::opaque]
pub open spec fn stage_lock(b: Board) -> Board {
    let b1 = Board { lock_timer: ticked(b.lock_timer), ..b };
    if fires(b.lock_timer) {
        after_try_lock(b1)
    } else {
        b1
    }
}

/// The timed part of a frame: line clear, spawn, gravity, sideways repeat and
/// lock delay, each acting when its timer runs out, in that order.
#[verifier::opaque]
pub open spec fn after_timers(b: Board, q: QueuePos, deck: Seq<PieceKind>) -> (Board, QueuePos) {
    let (b2, q2) = stage_spawn(stage_clear(b), q, deck);
    (stage_lock(stage_das(stage_fall(b2))), q2)
}

/// Swapping the active piece with the held one (or with the next piece when
/// nothing is held); refused while the hold is locked or nothing is active.
#[verifier::opaque]
pub open spec fn after_hold(b: Board, q: QueuePos, deck: Seq<PieceKind>) -> (Board, QueuePos) {
    match b.active_piece {
        None => (b, q),
        Some(a) => {
            let b1 = Board { hold: HoldPiece::Locked(a.kind), fall_timer: Timer(0), ..b };
            match b.hold {
                HoldPiece::Locked(_) => (b, q),
                HoldPiece::Unlocked(k) => (after_spawn(b1, k), q),
                HoldPiece::Empty => {
                    let (k, q1) = pulled(deck, q);
                    (after_spawn(b1, k), q1)
                },
            }
        },
    }
}

/// Pressing a sideways key: the piece moves at once and the repeat delay starts.
pub open spec fn after_press_move(b: Board, d: Direction) -> Board {
    let m = if d == Direction::Left {
        MovementState { move_left: true, das: Some(d), ..b.movement }
    } else {
        MovementState { move_right: true, das: Some(d), ..b.movement }
    };
    Board { das_timer: Timer(b.config.das), ..after_move(Board { movement: m, ..b }, d) }
}

/// Releasing a sideways key: repeating stops, or turns to the other key if it
/// is still held.
pub open spec fn after_release_move(b: Board, d: Direction) -> Board {
    let other_held = if d == Direction::Left {
        b.movement.move_right
    } else {
        b.movement.move_left
    };
    let other = if d == Direction::Left {
        Direction::Right
    } else {
        Direction::Left
    };
    let m = if d == Direction::Left {
        MovementState { move_left: false, ..b.movement }
    } else {
        MovementState { move_right: false, ..b.movement }
    };
    if other_held {
        Board {
            movement: MovementState { das: Some(other), ..m },
            das_timer: Timer(b.config.das),
            ..b
        }
    } else {
        Board { movement: MovementState { das: None, ..m }, das_timer: Timer(0), ..b }
    }
}

/// The effect of one input.
#[verifier::opaque]
pub open spec fn after_input(b: Board, q: QueuePos, deck: Seq<PieceKind>, input: Input) -> (
    Board,
    QueuePos,
) {
    match input {
        Input::Begin(Action::Rotate(Direction::Right)) => (after_rotate(b, 1), q),
        Input::Begin(Action::Flip) => (after_rotate(b, 2), q),
        Input::Begin(Action::Rotate(Direction::Left)) => (after_rotate(b, 3), q),
        Input::Begin(Action::Hold) => after_hold(b, q, deck),
        Input::Begin(Action::Harddrop) => (after_lock_ghost(b), q),
        Input::Begin(Action::Move(d)) => (after_press_move(b, d), q),
        Input::End(Action::Move(d)) => (after_release_move(b, d), q),
        Input::Begin(Action::Softdrop) => {
            let f = after_fall(b);
            (
                Board {
                    movement: MovementState { soft_dropping: true, ..f.movement },
                    fall_timer: Timer(f.config.softdrop),
                    ..f
                },
                q,
            )
        },
        Input::End(Action::Softdrop) => (
            Board {
                movement: MovementState { soft_dropping: false, ..b.movement },
                fall_timer: Timer(b.config.gravity),
                ..b
            },
            q,
        ),
        _ => (b, q),
    }
}

/// The effect of the inputs, in order.
pub open spec fn after_inputs(b: Board, q: QueuePos, deck: Seq<PieceKind>, inputs: Seq<Input>) -> (
    Board,
    QueuePos,
)
    decreases inputs.len(),
{
    if inputs.len() == 0 {
        (b, q)
    } else {
        let (b1, q1) = after_inputs(b, q, deck, inputs.drop_last());
        after_input(b1, q1, deck, inputs.last())
    }
}

/// One frame: nothing happens once the game is over; otherwise the timers act
/// and then the inputs, in order.
pub open spec fn after_update(b: Board, q: QueuePos, deck: Seq<PieceKind>, inputs: Seq<Input>) -> (
    Board,
    QueuePos,
) {
    if b.game_over {
        (b, q)
    } else {
        let (b1, q1) = after_timers(b, q, deck);
        after_inputs(b1, q1, deck, inputs)
    }
}

/// The board of a new game.
pub open spec fn initial_board(config: GameConfig) -> Board {
    Board {
        pile: Pile([[None; PILE_WIDTH]; PILE_HEIGHT]),
        active_piece: None,
        ghost_piece: None,
        hold: HoldPiece::Empty,
        movement: MovementState {
            das: None,
            move_left: false,
            move_right: false,
            soft_dropping: false,
        },
        config,
        spawn_timer: Timer(60),
        fall_timer: Timer(0),
        das_timer: Timer(0),
        line_clear_timer: Timer(0),
        lowest_y: 0,
        resets: 0,
        lock_timer: Timer(0),
        game_over: false,
    }
}

/// Where a queue stands in the pieces it has dealt.
pub open spec fn queue_pos_of(q: NextQueue) -> QueuePos {
    QueuePos { taken: (q.dealt().len() - q@.len()) as nat, waiting: q@.len() }
}

/// Takes the next piece (see `pulled`).
fn pull_piece(queue: &mut NextQueue) -> (r: PieceKind)
    requires
        old(queue).wf(),
    ensures
        final(queue).wf(),
        old(queue).dealt().is_prefix_of(final(queue).dealt()),
        final(queue).seed() == old(queue).seed(),
        (r, queue_pos_of(*final(queue))) == pulled(final(queue).dealt(), queue_pos_of(*old(queue))),
{
    let ghost d0 = queue.dealt();
    let ghost v0 = queue@;
    let r = queue.pull();
    proof {
        let d1 = queue.dealt();
        let taken = d0.len() - v0.len();
        assert(v0[0] == d0.skip(taken)[0]);
        if v0.len() - 1 >= 5 {
            assert(d0 =~= d1.subrange(0, d0.len() as int));
        } else {
            let bag = d1.skip(d0.len() as int);
            assert(d1 == d0 + bag);
            assert(d0 =~= d1.subrange(0, d0.len() as int));
            assert(d1[taken] == d0[taken]);
        }
    }
    r
}

impl Board {
    fn tick_clear(&mut self)
        requires
            board_ok(*old(self)),
        ensures
            board_ok(*final(self)),
            *final(self) == stage_clear(*old(self)),
    {
        reveal(stage_clear);
        if self.line_clear_timer.tick() {
            self.pile.line_clear();
            proof {
                assert(self.pile.0 =~= cleared_pile(old(self).pile).0);
            }
        }
    }

    fn tick_spawn(&mut self, queue: &mut NextQueue)
        requires
            board_ok(*old(self)),
            old(queue).wf(),
        ensures
            board_ok(*final(self)),
            final(queue).wf(),
            old(queue).dealt().is_prefix_of(final(queue).dealt()),
            final(queue).seed() == old(queue).seed(),
            (*final(self), queue_pos_of(*final(queue))) == stage_spawn(
                *old(self),
                queue_pos_of(*old(queue)),
                final(queue).dealt(),
            ),
    {
        reveal(stage_spawn);
        proof {
            assert(queue.dealt() =~= queue.dealt().subrange(0, queue.dealt().len() as int));
        }
        if self.spawn_timer.tick() {
            let piece = pull_piece(queue);
            self.spawn(piece);
        }
    }

    fn tick_fall(&mut self)
        requires
            board_ok(*old(self)),
        ensures
            board_ok(*final(self)),
            *final(self) == stage_fall(*old(self)),
    {
        reveal(stage_fall);
        if self.fall_timer.tick() {
            self.fall();
            self.set_fall_timer();
        }
    }

    fn tick_das(&mut self)
        requires
            board_ok(*old(self)),
        ensures
            board_ok(*final(self)),
            *final(self) == stage_das(*old(self)),
    {
        reveal(stage_das);
        if self.das_timer.tick() {
            let direction = self.movement.das.unwrap();
            self.do_move(direction);
            if self.config.arr > 0 {
                self.das_timer.set(self.config.arr);
            } else {
                self.das_timer.set(1);
                self.slide(direction);
            }
        }
    }

    fn tick_lock(&mut self)
        requires
            board_ok(*old(self)),
        ensures
            board_ok(*final(self)),
            *final(self) == stage_lock(*old(self)),
    {
        reveal(stage_lock);
        proof {
            if let Some(a) = self.active_piece {
                lemma_placed_pivot(a);
            }
        }
        if self.lock_timer.tick() {
            self.try_lock();
        }
    }

    /// The timed part of a frame (see `after_timers`).
    fn step_timers(&mut self, queue: &mut NextQueue)
        requires
            board_ok(*old(self)),
            old(queue).wf(),
        ensures
            board_ok(*final(self)),
            final(queue).wf(),
            old(queue).dealt().is_prefix_of(final(queue).dealt()),
            final(queue).seed() == old(queue).seed(),
            (*final(self), queue_pos_of(*final(queue))) == after_timers(
                *old(self),
                queue_pos_of(*old(queue)),
                final(queue).dealt(),
            ),
    {
        reveal(after_timers);
        self.tick_clear();
        self.tick_spawn(queue);
        self.tick_fall();
        self.tick_das();
        self.tick_lock();
    }

    /// Swaps the active piece with the held one (see `after_hold`).
    fn hold_swap(&mut self, queue: &mut NextQueue)
        requires
            board_ok(*old(self)),
            old(queue).wf(),
        ensures
            board_ok(*final(self)),
            final(queue).wf(),
            old(queue).dealt().is_prefix_of(final(queue).dealt()),
            final(queue).seed() == old(queue).seed(),
            (*final(self), queue_pos_of(*final(queue))) == after_hold(
                *old(self),
                queue_pos_of(*old(queue)),
                final(queue).dealt(),
            ),
    {
        reveal(after_hold);
        proof {
            assert(queue.dealt() =~= queue.dealt().subrange(0, queue.dealt().len() as int));
        }
        let active_piece = match self.active_piece {
            Some(a) => a,
            None => {
                return;
            },
        };
        let piece = match self.hold {
            HoldPiece::Unlocked(piece) => piece,
            HoldPiece::Empty => pull_piece(queue),
            HoldPiece::Locked(..) => {
                return;
            },
        };
        self.hold = HoldPiece::Locked(active_piece.kind);
        self.fall_timer.stop();
        self.spawn(piece);
    }

    /// The effect of one input (see `after_input`).
    fn handle_input(&mut self, queue: &mut NextQueue, input: Input)
        requires
            board_ok(*old(self)),
            old(queue).wf(),
        ensures
            board_ok(*final(self)),
            final(queue).wf(),
            old(queue).dealt().is_prefix_of(final(queue).dealt()),
            final(queue).seed() == old(queue).seed(),
            (*final(self), queue_pos_of(*final(queue))) == after_input(
                *old(self),
                queue_pos_of(*old(queue)),
                final(queue).dealt(),
                input,
            ),
    {
        reveal(after_input);
        proof {
            assert(queue.dealt() =~= queue.dealt().subrange(0, queue.dealt().len() as int));
        }
        match input {
            Input::Begin(Action::Rotate(Direction::Right)) => {
                self.rotate(1);
            },
            Input::Begin(Action::Flip) => {
                self.rotate(2);
            },
            Input::Begin(Action::Rotate(Direction::Left)) => {
                self.rotate(3);
            },
            Input::Begin(Action::Hold) => {
                self.hold_swap(queue);
            },
            Input::Begin(Action::Harddrop) => {
                self.lock_ghost();
            },
            Input::Begin(Action::Move(Direction::Left)) => {
                self.movement.move_left = true;
                self.movement.das = Some(Direction::Left);
                self.do_move(Direction::Left);
                self.das_timer.set(self.config.das);
            },
            Input::Begin(Action::Move(Direction::Right)) => {
                self.movement.move_right = true;
                self.movement.das = Some(Direction::Right);
                self.do_move(Direction::Right);
                self.das_timer.set(self.config.das);
            },
            Input::End(Action::Move(Direction::Left)) => {
                self.movement.move_left = false;
                self.das_timer.stop();
                if self.movement.move_right {
                    self.movement.das = Some(Direction::Right);
                    self.das_timer.set(self.config.das);
                } else {
                    self.movement.das = None;
                }
            },
            Input::End(Action::Move(Direction::Right)) => {
                self.movement.move_right = false;
                self.das_timer.stop();
                if self.movement.move_left {
                    self.movement.das = Some(Direction::Left);
                    self.das_timer.set(self.config.das);
                } else {
                    self.movement.das = None;
                }
            },
            Input::Begin(Action::Softdrop) => {
                self.fall();
                self.movement.soft_dropping = true;
                self.fall_timer.set(self.config.softdrop);
            },
            Input::End(Action::Softdrop) => {
                self.movement.soft_dropping = false;
                self.fall_timer.set(self.config.gravity);
            },
            _ => {},
        }
    }
}

/// The timed part of a frame reads only the pieces dealt so far.
pub proof fn lemma_timers_deck(b: Board, q: QueuePos, d1: Seq<PieceKind>, d2: Seq<PieceKind>)
    requires
        d1.is_prefix_of(d2),
        q.taken < d1.len(),
    ensures
        after_timers(b, q, d1) == after_timers(b, q, d2),
{
    reveal(after_timers);
    reveal(stage_spawn);
    assert(d1[q.taken as int] == d2[q.taken as int]);
}

/// The timed part of a frame keeps at least five pieces waiting and never
/// takes back a piece.
pub proof fn lemma_timers_pos(b: Board, q: QueuePos, deck: Seq<PieceKind>)
    requires
        q.waiting >= 5,
    ensures
        after_timers(b, q, deck).1.waiting >= 5,
        after_timers(b, q, deck).1.taken + after_timers(b, q, deck).1.waiting >= q.taken + q.waiting,
{
    reveal(after_timers);
    reveal(stage_spawn);
}

/// One input reads only the pieces dealt so far.
pub proof fn lemma_input_deck(
    b: Board,
    q: QueuePos,
    d1: Seq<PieceKind>,
    d2: Seq<PieceKind>,
    input: Input,
)
    requires
        d1.is_prefix_of(d2),
        q.taken < d1.len(),
    ensures
        after_input(b, q, d1, input) == after_input(b, q, d2, input),
{
    reveal(after_input);
    reveal(after_hold);
    assert(d1[q.taken as int] == d2[q.taken as int]);
}

/// One input keeps at least five pieces waiting and never takes back a piece.
pub proof fn lemma_input_pos(b: Board, q: QueuePos, deck: Seq<PieceKind>, input: Input)
    requires
        q.waiting >= 5,
    ensures
        after_input(b, q, deck, input).1.waiting >= 5,
        after_input(b, q, deck, input).1.taken + after_input(b, q, deck, input).1.waiting >= q.taken
            + q.waiting,
{
    reveal(after_input);
    reveal(after_hold);
}

/// The inputs of a frame keep at least five pieces waiting, never take back a
/// piece, and read only the pieces dealt by the time they are handled.
pub proof fn lemma_inputs_deck(
    b: Board,
    q: QueuePos,
    d1: Seq<PieceKind>,
    d2: Seq<PieceKind>,
    inputs: Seq<Input>,
)
    requires
        d1.is_prefix_of(d2),
        q.waiting >= 5,
        after_inputs(b, q, d1, inputs).1.taken + after_inputs(b, q, d1, inputs).1.waiting <= d1.len(),
    ensures
        after_inputs(b, q, d1, inputs) == after_inputs(b, q, d2, inputs),
        after_inputs(b, q, d1, inputs).1.waiting >= 5,
    decreases inputs.len(),
{
    if inputs.len() > 0 {
        let pre = inputs.drop_last();
        let (b1, q1) = after_inputs(b, q, d1, pre);
        lemma_inputs_pos(b, q, d1, pre);
        lemma_input_pos(b1, q1, d1, inputs.last());
        lemma_inputs_deck(b, q, d1, d2, pre);
        lemma_input_deck(b1, q1, d1, d2, inputs.last());
    }
}

pub proof fn lemma_inputs_pos(b: Board, q: QueuePos, deck: Seq<PieceKind>, inputs: Seq<Input>)
    requires
        q.waiting >= 5,
    ensures
        after_inputs(b, q, deck, inputs).1.waiting >= 5,
        after_inputs(b, q, deck, inputs).1.taken + after_inputs(b, q, deck, inputs).1.waiting
            >= q.taken + q.waiting,
    decreases inputs.len(),
{
    if inputs.len() > 0 {
        let pre = inputs.drop_last();
        let (b1, q1) = after_inputs(b, q, deck, pre);
        lemma_inputs_pos(b, q, deck, pre);
        lemma_input_pos(b1, q1, deck, inputs.last());
    }
}

/// Whether `after` is what a frame with `inputs` makes of `before`: the
/// board and the queue position follow `after_update` over the pieces dealt
/// by then, which extend those dealt before, from the same seed.
pub open spec fn updated_by(before: Engine, after: Engine, inputs: Seq<Input>) -> bool {
    &&& after.seed() == before.seed()
    &&& before.dealt().is_prefix_of(after.dealt())
    &&& (after.state(), after.queue_pos()) == after_update(
        before.state(),
        before.queue_pos(),
        after.dealt(),
        inputs,
    )
}

/// The game: the board and the queue of upcoming pieces.
#[derive(Clone)]
pub struct Engine {
    board: Board,
    next_queue: NextQueue,
}

impl Engine {
    /// Everything but the upcoming pieces.
    pub closed spec fn state(&self) -> Board {
        self.board
    }

    /// The upcoming pieces, next first.
    pub closed spec fn upcoming(&self) -> Seq<PieceKind> {
        self.next_queue@
    }

    /// Every piece dealt into the queue so far, in order.
    pub closed spec fn dealt(&self) -> Seq<PieceKind> {
        self.next_queue.dealt()
    }

    /// The seed that decides the order of the pieces.
    pub closed spec fn seed(&self) -> u64 {
        self.next_queue.seed()
    }

    /// Where the queue stands in `dealt()`.
    pub open spec fn queue_pos(&self) -> QueuePos {
        QueuePos {
            taken: (self.dealt().len() - self.upcoming().len()) as nat,
            waiting: self.upcoming().len(),
        }
    }

    /// The engine invariant: the board invariant, the play invariant, and a
    /// queue of the seed's bags, in order, of which at least five pieces are
    /// waiting.
    pub closed spec fn wf(&self) -> bool {
        &&& board_ok(self.board)
        &&& crate::play::settled(self.board)
        &&& self.next_queue.wf()
    }

    /// What the engine invariant gives: the board invariant, and a queue of
    /// whole bags whose last pieces are the ones still waiting, five to eleven
    /// of them.
    pub proof fn lemma_wf(e: Engine)
        requires
            e.wf(),
        ensures
            board_ok(e.state()),
            crate::play::settled(e.state()),
            crate::next_queue::whole_bags(e.dealt()),
            e.dealt().len() % 7 == 0,
            e.dealt() == crate::next_queue::seeded_deck(e.seed(), (e.dealt().len() / 7) as nat),
            5 <= e.upcoming().len() <= 11,
            e.upcoming().len() <= e.dealt().len(),
            e.upcoming() == e.dealt().skip(e.dealt().len() - e.upcoming().len()),
    {
    }

    /// A new game: empty pile, one shuffled bag queued, first spawn in 60 frames.
    pub fn new(seed: u64, config: GameConfig) -> (r: Engine)
        ensures
            r.wf(),
            r.state() == initial_board(config),
            r.seed() == seed,
            r.upcoming() == crate::bag_rng::seeded_bag(seed, 0),
            r.upcoming().len() == 7,
            crate::next_queue::is_bag(r.upcoming()),
            r.dealt() == r.upcoming(),
    {
        let mut spawn_timer = Timer::new();
        spawn_timer.set(60);
        let board = Board {
            pile: Pile::new(),
            active_piece: None,
            ghost_piece: None,
            movement: MovementState {
                das: None,
                move_left: false,
                move_right: false,
                soft_dropping: false,
            },
            hold: HoldPiece::Empty,
            config,
            spawn_timer,
            fall_timer: Timer::new(),
            das_timer: Timer::new(),
            line_clear_timer: Timer::new(),
            lowest_y: 0,
            resets: 0,
            lock_timer: Timer::new(),
            game_over: false,
        };
        let r = Engine { board, next_queue: NextQueue::new(seed) };
        proof {
            crate::play::lemma_initial_settled(config);
            let e: Pile = Pile([[None; PILE_WIDTH]; PILE_HEIGHT]);
            assert(r.board.pile.0 =~= e.0) by {
                assert forall|y: int| 0 <= y < PILE_HEIGHT implies r.board.pile.0[y] == e.0[y] by {
                    assert(r.board.pile.0[y] =~= e.0[y]) by {
                        assert forall|x: int| 0 <= x < PILE_WIDTH implies r.board.pile.0[y][x] == e.0[y][x] by {
                            assert(crate::pile::cell_at(r.board.pile, x, y) is None);
                        }
                    }
                }
            }
        }
        r
    }

    /// Advances the game by one frame: the timers act, then the inputs in
    /// order (see `after_update`). New bags dealt into the queue during the
    /// frame are the seed's next bags, and the pieces taken are read from them.
    pub fn update(&mut self, frame_inputs: &[Input])
        requires
            old(self).wf(),
        ensures
            final(self).wf(),
            old(self).dealt().is_prefix_of(final(self).dealt()),
            (final(self).state(), final(self).queue_pos()) == after_update(
                old(self).state(),
                old(self).queue_pos(),
                final(self).dealt(),
                frame_inputs@,
            ),
            board_ok(final(self).state()),
            crate::next_queue::whole_bags(final(self).dealt()),
            final(self).upcoming() == final(self).dealt().skip(
                final(self).dealt().len() - final(self).upcoming().len(),
            ),
            5 <= final(self).upcoming().len() <= 11,
            final(self).upcoming().len() <= final(self).dealt().len(),
            old(self).state().game_over ==> *final(self) == *old(self),
            updated_by(*old(self), *final(self), frame_inputs@),
    {
        proof {
            assert(self.dealt() =~= self.dealt().subrange(0, self.dealt().len() as int));
        }
        if self.board.game_over {
            return;
        }
        let ghost b0 = self.board;
        let ghost q0 = queue_pos_of(self.next_queue);
        self.board.step_timers(&mut self.next_queue);
        let ghost b1 = self.board;
        let ghost q1 = queue_pos_of(self.next_queue);
        let ghost d1 = self.next_queue.dealt();
        proof {
            lemma_timers_pos(b0, q0, d1);
            assert(d1 =~= d1.subrange(0, d1.len() as int));
            assert(frame_inputs@.take(0) =~= Seq::<Input>::empty());
        }
        let mut i: usize = 0;
        while i < frame_inputs.len()
            invariant
                i <= frame_inputs@.len(),
                board_ok(self.board),
                self.next_queue.wf(),
                old(self).dealt().is_prefix_of(self.next_queue.dealt()),
                d1.is_prefix_of(self.next_queue.dealt()),
                self.next_queue.seed() == old(self).next_queue.seed(),
                q1.waiting >= 5,
                (b1, q1) == after_timers(b0, q0, d1),
                q0.taken < old(self).dealt().len(),
                (self.board, queue_pos_of(self.next_queue)) == after_inputs(
                    b1,
                    q1,
                    self.next_queue.dealt(),
                    frame_inputs@.take(i as int),
                ),
            decreases frame_inputs@.len() - i,
        {
            let ghost dprev = self.next_queue.dealt();
            let ghost bprev = self.board;
            let ghost qprev = queue_pos_of(self.next_queue);
            self.board.handle_input(&mut self.next_queue, frame_inputs[i]);
            proof {
                let dnew = self.next_queue.dealt();
                assert(frame_inputs@.take(i + 1).drop_last() =~= frame_inputs@.take(i as int));
                assert(frame_inputs@.take(i + 1).last() == frame_inputs@[i as int]);
                lemma_inputs_deck(b1, q1, dprev, dnew, frame_inputs@.take(i as int));
                assert(d1.is_prefix_of(dnew)) by {
                    assert(d1 =~= dnew.subrange(0, d1.len() as int)) by {
                        assert(forall|k: int| 0 <= k < d1.len() ==> d1[k] == dprev[k]);
                        assert(forall|k: int| 0 <= k < dprev.len() ==> dprev[k] == dnew[k]);
                    }
                }
                assert(old(self).dealt().is_prefix_of(dnew)) by {
                    assert(old(self).dealt() =~= dnew.subrange(0, old(self).dealt().len() as int)) by {
                        assert(forall|k: int| 0 <= k < old(self).dealt().len() ==> old(self).dealt()[k] == dprev[k]);
                        assert(forall|k: int| 0 <= k < dprev.len() ==> dprev[k] == dnew[k]);
                    }
                }
            }
            i = i + 1;
        }
        proof {
            assert(frame_inputs@.take(frame_inputs@.len() as int) =~= frame_inputs@);
            lemma_timers_deck(b0, q0, d1, self.next_queue.dealt());
            crate::play::lemma_update_settled(b0, q0, self.next_queue.dealt(), frame_inputs@);
        }
    }

    /// The falling piece, if any.
    pub fn active_piece(&self) -> (r: &Option<Piece>)
        ensures
            *r == self.state().active_piece,
    {
        &self.board.active_piece
    }

    /// Where the falling piece would land.
    pub fn ghost_piece(&self) -> (r: &Option<Piece>)
        ensures
            *r == self.state().ghost_piece,
    {
        &self.board.ghost_piece
    }

    /// The held piece.
    pub fn hold(&self) -> (r: &HoldPiece)
        ensures
            *r == self.state().hold,
    {
        &self.board.hold
    }

    /// The next five pieces (fewer only if fewer are queued), next first.
    pub fn next_queue(&self) -> (r: Vec<PieceKind>)
        ensures
            self.wf() ==> r@.len() == 5 && r@ == self.upcoming().take(5),
            r@ == self.upcoming().take(
                if self.upcoming().len() < 5 {
                    self.upcoming().len() as int
                } else {
                    5
                },
            ),
    {
        let all = self.next_queue.pieces();
        let n = if all.len() < 5 {
            all.len()
        } else {
            5
        };
        let mut r: Vec<PieceKind> = Vec::new();
        let mut i: usize = 0;
        while i < n
            invariant
                i <= n,
                n <= all@.len(),
                all@ == self.upcoming(),
                n == (if all@.len() < 5 {
                    all@.len() as int
                } else {
                    5
                }),
                r@ == all@.take(i as int),
            decreases n - i,
        {
            r.push(all[i]);
            proof {
                assert(all@.take(i + 1) =~= all@.take(i as int).push(all@[i as int]));
            }
            i = i + 1;
        }
        r
    }

    /// The settled cells, row by row from the bottom.
    pub fn pile(&self) -> (r: &[[Cell; PILE_WIDTH]; PILE_HEIGHT])
        ensures
            *r == self.state().pile.0,
    {
        &self.board.pile.0
    }

    /// Whether the game has ended.
    pub fn game_over(&self) -> (r: bool)
        ensures
            r == self.state().game_over,
    {
        self.board.game_over
    }
}

} // verus!