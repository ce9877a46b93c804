//! Piece kinds, orientations, their block shapes and the rotation offsets.
use vstd::prelude::*;

verus! {

/// A cell position `(x, y)`: `x` grows to the right, `y` grows upwards.
pub type Coords = (i32, i32);

#[derive(Debug, Clone, Copy, PartialEq, Eq, Structural)]
pub enum PieceKind {
    I,
    J,
    L,
    O,
    S,
    T,
    Z,
}

#[derive(Debug, Clone, Copy, PartialEq, Eq, Structural)]
pub enum Orientation {
    N,
    E,
    S,
    W,
}

/// Number of quarter turns clockwise from `N`.
pub open spec fn orientation_index(o: Orientation) -> int {
    match o {
        Orientation::N => 0,
        Orientation::E => 1,
        Orientation::S => 2,
        Orientation::W => 3,
    }
}

/// The orientation reached after `i` quarter turns clockwise from `N`.
pub open spec fn orientation_at(i: int) -> Orientation {
    let r = i % 4;
    if r == 0 {
        Orientation::N
    } else if r == 1 {
        Orientation::E
    } else if r == 2 {
        Orientation::S
    } else {
        Orientation::W
    }
}

/// `o` turned clockwise `n` times; a count that is not positive turns nothing.
pub open spec fn rotated(o: Orientation, n: int) -> Orientation {
    if n <= 0 {
        o
    } else {
        orientation_at(orientation_index(o) + n)
    }
}

impl Orientation {
    /// Turns the orientation clockwise `n` times (not at all when `n <= 0`).
    pub fn rotate_cw(&self, n: i32) -> (r: Orientation)
        ensures
            r == rotated(*self, n as int),
    {
        let mut result = *self;
        let mut i: i32 = 0;
        while i < n
            invariant
                0 <= i,
                i <= n || n < 0,
                n < 0 ==> i == 0,
                result == rotated(*self, i as int),
            decreases n - i,
        {
            result = match result {
                Orientation::N => Orientation::E,
                Orientation::E => Orientation::S,
                Orientation::S => Orientation::W,
                Orientation::W => Orientation::N,
            };
            i = i + 1;
        }
        result
    }
}

/// The four cells of a piece of kind `kind` in orientation `o`, relative to its
/// pivot; the pivot itself is always the first one.
#[verifier::opaque]
pub open spec fn shape(kind: PieceKind, o: Orientation) -> Seq<Coords> {
    match kind {
        PieceKind::I => match o {
            Orientation::N => seq![(0i32, 0i32), (-1i32, 0i32), (1i32, 0i32), (2i32, 0i32)],
            Orientation::E => seq![(0i32, 0i32), (0i32, -2i32), (0i32, -1i32), (0i32, 1i32)],
            Orientation::S => seq![(0i32, 0i32), (-2i32, 0i32), (-1i32, 0i32), (1i32, 0i32)],
            Orientation::W => seq![(0i32, 0i32), (0i32, -1i32), (0i32, 1i32), (0i32, 2i32)],
        },
        PieceKind::J => match o {
            Orientation::N => seq![(0i32, 0i32), (-1i32, 0i32), (-1i32, 1i32), (1i32, 0i32)],
            Orientation::E => seq![(0i32, 0i32), (0i32, 1i32), (1i32, 1i32), (0i32, -1i32)],
            Orientation::S => seq![(0i32, 0i32), (-1i32, 0i32), (1i32, -1i32), (1i32, 0i32)],
            Orientation::W => seq![(0i32, 0i32), (0i32, 1i32), (-1i32, -1i32), (0i32, -1i32)],
        },
        PieceKind::L => match o {
            Orientation::N => seq![(0i32, 0i32), (-1i32, 0i32), (1i32, 1i32), (1i32, 0i32)],
            Orientation::E => seq![(0i32, 0i32), (0i32, 1i32), (1i32, -1i32), (0i32, -1i32)],
            Orientation::S => seq![(0i32, 0i32), (-1i32, 0i32), (-1i32, -1i32), (1i32, 0i32)],
            Orientation::W => seq![(0i32, 0i32), (0i32, 1i32), (-1i32, 1i32), (0i32, -1i32)],
        },
        PieceKind::O => match o {
            Orientation::N => seq![(0i32, 0i32), (0i32, 1i32), (1i32, 1i32), (1i32, 0i32)],
            Orientation::E => seq![(0i32, 0i32), (0i32, -1i32), (1i32, -1i32), (1i32, 0i32)],
            Orientation::S => seq![(0i32, 0i32), (0i32, -1i32), (-1i32, -1i32), (-1i32, 0i32)],
            Orientation::W => seq![(0i32, 0i32), (0i32, 1i32), (-1i32, 1i32), (-1i32, 0i32)],
        },
        PieceKind::S => match o {
            Orientation::N => seq![(0i32, 0i32), (1i32, 1i32), (0i32, 1i32), (-1i32, 0i32)],
            Orientation::E => seq![(0i32, 0i32), (1i32, -1i32), (1i32, 0i32), (0i32, 1i32)],
            Orientation::S => seq![(0i32, 0i32), (1i32, 0i32), (0i32, -1i32), (-1i32, -1i32)],
            Orientation::W => seq![(0i32, 0i32), (0i32, -1i32), (-1i32, 0i32), (-1i32, 1i32)],
        },
        PieceKind::T => match o {
            Orientation::N => seq![(0i32, 0i32), (-1i32, 0i32), (0i32, 1i32), (1i32, 0i32)],
            Orientation::E => seq![(0i32, 0i32), (0i32, 1i32), (1i32, 0i32), (0i32, -1i32)],
            Orientation::S => seq![(0i32, 0i32), (-1i32, 0i32), (0i32, -1i32), (1i32, 0i32)],
            Orientation::W => seq![(0i32, 0i32), (0i32, 1i32), (-1i32, 0i32), (0i32, -1i32)],
        },
        PieceKind::Z => match o {
            Orientation::N => seq![(0i32, 0i32), (-1i32, 1i32), (0i32, 1i32), (1i32, 0i32)],
            Orientation::E => seq![(0i32, 0i32), (1i32, 1i32), (1i32, 0i32), (0i32, -1i32)],
            Orientation::S => seq![(0i32, 0i32), (-1i32, 0i32), (0i32, -1i32), (1i32, -1i32)],
            Orientation::W => seq![(0i32, 0i32), (0i32, 1i32), (-1i32, 0i32), (-1i32, -1i32)],
        },
    }
}

/// Every shape has four cells, each at most two cells away from the pivot.
pub proof fn lemma_shape_small(kind: PieceKind, o: Orientation)
    ensures
        shape(kind, o).len() == 4,
        forall|i: int|
            0 <= i < 4 ==> -2 <= #[trigger] shape(kind, o)[i].0 <= 2 && -2 <= shape(kind, o)[i].1
                <= 2,
{
    reveal(shape);
}

impl PieceKind {
    /// The cells of this kind in the given orientation, relative to the pivot.
    pub fn blocks(self, orientation: Orientation) -> (r: [Coords; 4])
        ensures
            r@ == shape(self, orientation),
    {
        let r: [Coords; 4] = match self {
            PieceKind::I => match orientation {
                Orientation::N => [(0, 0), (-1, 0), (1, 0), (2, 0)],
                Orientation::E => [(0, 0), (0, -2), (0, -1), (0, 1)],
                Orientation::S => [(0, 0), (-2, 0), (-1, 0), (1, 0)],
                Orientation::W => [(0, 0), (0, -1), (0, 1), (0, 2)],
            },
            PieceKind::J => match orientation {
                Orientation::N => [(0, 0), (-1, 0), (-1, 1), (1, 0)],
                Orientation::E => [(0, 0), (0, 1), (1, 1), (0, -1)],
                Orientation::S => [(0, 0), (-1, 0), (1, -1), (1, 0)],
                Orientation::W => [(0, 0), (0, 1), (-1, -1), (0, -1)],
            },
            PieceKind::L => match orientation {
                Orientation::N => [(0, 0), (-1, 0), (1, 1), (1, 0)],
                Orientation::E => [(0, 0), (0, 1), (1, -1), (0, -1)],
                Orientation::S => [(0, 0), (-1, 0), (-1, -1), (1, 0)],
                Orientation::W => [(0, 0), (0, 1), (-1, 1), (0, -1)],
            },
            PieceKind::O => match orientation {
                Orientation::N => [(0, 0), (0, 1), (1, 1), (1, 0)],
                Orientation::E => [(0, 0), (0, -1), (1, -1), (1, 0)],
                Orientation::S => [(0, 0), (0, -1), (-1, -1), (-1, 0)],
                Orientation::W => [(0, 0), (0, 1), (-1, 1), (-1, 0)],
            },
            PieceKind::S => match orientation {
                Orientation::N => [(0, 0), (1, 1), (0, 1), (-1, 0)],
                Orientation::E => [(0, 0), (1, -1), (1, 0), (0, 1)],
                Orientation::S => [(0, 0), (1, 0), (0, -1), (-1, -1)],
                Orientation::W => [(0, 0), (0, -1), (-1, 0), (-1, 1)],
            },
            PieceKind::T => match orientation {
                Orientation::N => [(0, 0), (-1, 0), (0, 1), (1, 0)],
                Orientation::E => [(0, 0), (0, 1), (1, 0), (0, -1)],
                Orientation::S => [(0, 0), (-1, 0), (0, -1), (1, 0)],
                Orientation::W => [(0, 0), (0, 1), (-1, 0), (0, -1)],
            },
            PieceKind::Z => match orientation {
                Orientation::N => [(0, 0), (-1, 1), (0, 1), (1, 0)],
                Orientation::E => [(0, 0), (1, 1), (1, 0), (0, -1)],
                Orientation::S => [(0, 0), (-1, 0), (0, -1), (1, -1)],
                Orientation::W => [(0, 0), (0, 1), (-1, 0), (-1, -1)],
            },
        };
        assert(r@ =~= shape(self, orientation)) by {
            reveal(shape);
        }
        r
    }
}

} // verus!

verus! {

/// A piece on the field: its kind, orientation, pivot position and the four
/// cells it covers.
#[derive(Debug, Clone, Copy, Eq)]
pub struct Piece {
    pub kind: PieceKind,
    pub orientation: Orientation,
    pub x: i32,
    pub y: i32,
    pub blocks: [Coords; 4],
}

impl PartialEq for Piece {
    fn eq(&self, other: &Piece) -> (r: bool) {
        let r = self.kind == other.kind && self.orientation == other.orientation && self.x
            == other.x && self.y == other.y && self.blocks[0].0 == other.blocks[0].0
            && self.blocks[0].1 == other.blocks[0].1 && self.blocks[1].0 == other.blocks[1].0
            && self.blocks[1].1 == other.blocks[1].1 && self.blocks[2].0 == other.blocks[2].0
            && self.blocks[2].1 == other.blocks[2].1 && self.blocks[3].0 == other.blocks[3].0
            && self.blocks[3].1 == other.blocks[3].1;
        proof {
            if r {
                assert(self.blocks =~= other.blocks);
            }
        }
        r
    }
}

impl vstd::std_specs::cmp::PartialEqSpecImpl for Piece {
    open spec fn obeys_eq_spec() -> bool {
        true
    }

    open spec fn eq_spec(&self, other: &Piece) -> bool {
        *self == *other
    }
}

pub open spec fn offset_cell(c: Coords, x: i32, y: i32) -> Coords {
    ((c.0 + x) as i32, (c.1 + y) as i32)
}

/// The piece of kind `kind`, turned to `o`, with its pivot at `(x, y)`.
pub open spec fn piece_at(kind: PieceKind, o: Orientation, x: i32, y: i32) -> Piece {
    let s = shape(kind, o);
    Piece {
        kind,
        orientation: o,
        x,
        y,
        blocks: [
            offset_cell(s[0], x, y),
            offset_cell(s[1], x, y),
            offset_cell(s[2], x, y),
            offset_cell(s[3], x, y),
        ],
    }
}

/// A coordinate from which every cell of a piece, at most two cells away,
/// still fits in an `i32`.
pub open spec fn coord_ok(v: int) -> bool {
    i32::MIN + 2 <= v <= i32::MAX - 2
}

/// The lowest row that a piece covers.
pub open spec fn lowest(p: Piece) -> i32 {
    let a = if p.blocks[0].1 <= p.blocks[1].1 { p.blocks[0].1 } else { p.blocks[1].1 };
    let b = if p.blocks[2].1 <= p.blocks[3].1 { p.blocks[2].1 } else { p.blocks[3].1 };
    if a <= b { a } else { b }
}

/// The pivot of a freshly spawned piece.
pub open spec fn spawn_x() -> i32 {
    (crate::PILE_WIDTH / 2 - 1) as i32
}

pub open spec fn spawn_y() -> i32 {
    (crate::GRID_HEIGHT + 2) as i32
}

impl Piece {
    /// A new piece of the given kind, facing north, at the spawn position.
    pub fn spawn(kind: PieceKind) -> (r: Piece)
        ensures
            r == piece_at(kind, Orientation::N, spawn_x(), spawn_y()),
    {
        let x = crate::PILE_WIDTH as i32 / 2 - 1;
        let y = crate::GRID_HEIGHT + 2;
        let orientation = Orientation::N;
        let mut result = Piece { kind, orientation, x, y, blocks: [(0, 0);4] };
        result.update_blocks();
        result
    }

    /// Recomputes the covered cells from kind, orientation and pivot.
    pub fn update_blocks(&mut self)
        requires
            coord_ok(old(self).x as int),
            coord_ok(old(self).y as int),
        ensures
            *final(self) == piece_at(old(self).kind, old(self).orientation, old(self).x, old(self).y),
    {
        let s = self.kind.blocks(self.orientation);
        proof {
            lemma_shape_small(self.kind, self.orientation);
        }
        let x = self.x;
        let y = self.y;
        self.blocks = [
            (x + s[0].0, y + s[0].1),
            (x + s[1].0, y + s[1].1),
            (x + s[2].0, y + s[2].1),
            (x + s[3].0, y + s[3].1),
        ];
        proof {
            let t = piece_at(self.kind, self.orientation, x, y);
            assert(self.blocks =~= t.blocks);
        }
    }

    /// This piece moved by `(dx, dy)` and turned clockwise `rotate_cw` times.
    pub fn changed_by(&self, dx: i32, dy: i32, rotate_cw: i32) -> (r: Piece)
        requires
            coord_ok(self.x + dx),
            coord_ok(self.y + dy),
        ensures
            r == piece_at(
                self.kind,
                rotated(self.orientation, rotate_cw as int),
                (self.x + dx) as i32,
                (self.y + dy) as i32,
            ),
    {
        let mut branched = *self;
        branched.x = branched.x + dx;
        branched.y = branched.y + dy;
        branched.orientation = branched.orientation.rotate_cw(rotate_cw);
        branched.update_blocks();
        branched
    }

    /// The lowest row covered by this piece.
    pub fn lowest_y(&self) -> (r: i32)
        ensures
            r == lowest(*self),
    {
        let a = if self.blocks[0].1 <= self.blocks[1].1 {
            self.blocks[0].1
        } else {
            self.blocks[1].1
        };
        let b = if self.blocks[2].1 <= self.blocks[3].1 {
            self.blocks[2].1
        } else {
            self.blocks[3].1
        };
        if a <= b {
            a
        } else {
            b
        }
    }
}

/// The rotation offsets of `piece` in orientation `o` for kick test `n`; the
/// `O` piece has a single offset per orientation.
#[verifier::opaque]
pub open spec fn kick_part(piece: PieceKind, o: Orientation, n: int) -> Coords {
    if piece == PieceKind::O {
        match o {
            Orientation::N => (0i32, 0i32),
            Orientation::E => (0i32, -1i32),
            Orientation::S => (-1i32, -1i32),
            Orientation::W => (-1i32, 0i32),
        }
    } else {
        let t: Seq<Coords> = if piece == PieceKind::I {
            match o {
                Orientation::N => seq![(0i32, 0i32), (-1i32, 0i32), (2i32, 0i32), (-1i32, 0i32), (2i32, 0i32)],
                Orientation::E => seq![(-1i32, 0i32), (0i32, 0i32), (0i32, 0i32), (0i32, 1i32), (0i32, -2i32)],
                Orientation::S => seq![(-1i32, 1i32), (1i32, 1i32), (-2i32, 1i32), (1i32, 0i32), (-2i32, 0i32)],
                Orientation::W => seq![(0i32, 1i32), (0i32, 1i32), (0i32, 1i32), (0i32, -1i32), (0i32, 2i32)],
            }
        } else {
            match o {
                Orientation::N => seq![(0i32, 0i32), (0i32, 0i32), (0i32, 0i32), (0i32, 0i32), (0i32, 0i32)],
                Orientation::E => seq![(0i32, 0i32), (1i32, 0i32), (1i32, -1i32), (0i32, 2i32), (1i32, 2i32)],
                Orientation::S => seq![(0i32, 0i32), (0i32, 0i32), (0i32, 0i32), (0i32, 0i32), (0i32, 0i32)],
                Orientation::W => seq![(0i32, 0i32), (-1i32, 0i32), (-1i32, -1i32), (0i32, 2i32), (-1i32, 2i32)],
            }
        };
        t[n]
    }
}

/// The translation tried as kick test `n` when turning `piece` from `from` to `to`.
pub open spec fn kick(piece: PieceKind, from: Orientation, to: Orientation, n: int) -> Coords {
    let a = kick_part(piece, from, n);
    let b = kick_part(piece, to, n);
    ((a.0 - b.0) as i32, (a.1 - b.1) as i32)
}

/// The translation tried as kick test `n` (of five) when turning `piece` from
/// `from` to `to`.
pub fn kick_offset(piece: PieceKind, from: Orientation, to: Orientation, n: i32) -> (r: Coords)
    requires
        piece == PieceKind::O || 0 <= n < 5,
    ensures
        r == kick(piece, from, to, n as int),
        -4 <= r.0 <= 4,
        -4 <= r.1 <= 4,
{
    let (x1, y1) = kick_offset_part(piece, from, n);
    let (x2, y2) = kick_offset_part(piece, to, n);
    (x1 - x2, y1 - y2)
}

/// The offset of `piece` in `orientation` for kick test `n`.
pub fn kick_offset_part(piece: PieceKind, orientation: Orientation, n: i32) -> (r: Coords)
    requires
        piece == PieceKind::O || 0 <= n < 5,
    ensures
        r == kick_part(piece, orientation, n as int),
        -2 <= r.0 <= 2,
        -2 <= r.1 <= 2,
{
    reveal(kick_part);
    if piece == PieceKind::O {
        return match orientation {
            Orientation::N => (0, 0),
            Orientation::E => (0, -1),
            Orientation::S => (-1, -1),
            Orientation::W => (-1, 0),
        };
    }
    let offsets: [Coords; 5] = match (piece, orientation) {
        (PieceKind::I, Orientation::N) => [(0, 0), (-1, 0), (2, 0), (-1, 0), (2, 0)],
        (PieceKind::I, Orientation::E) => [(-1, 0), (0, 0), (0, 0), (0, 1), (0, -2)],
        (PieceKind::I, Orientation::S) => [(-1, 1), (1, 1), (-2, 1), (1, 0), (-2, 0)],
        (PieceKind::I, Orientation::W) => [(0, 1), (0, 1), (0, 1), (0, -1), (0, 2)],
        (_, Orientation::N) => [(0, 0), (0, 0), (0, 0), (0, 0), (0, 0)],
        (_, Orientation::E) => [(0, 0), (1, 0), (1, -1), (0, 2), (1, 2)],
        (_, Orientation::S) => [(0, 0), (0, 0), (0, 0), (0, 0), (0, 0)],
        (_, Orientation::W) => [(0, 0), (-1, 0), (-1, -1), (0, 2), (-1, 2)],
    };
    offsets[n as usize]
}

/// Whether the cell `(x, y)`, relative to the pivot, belongs to the shape of
/// `kind` in orientation `o`.
pub open spec fn in_shape(kind: PieceKind, o: Orientation, x: int, y: int) -> bool {
    let s = shape(kind, o);
    ||| (x, y) == (s[0].0 as int, s[0].1 as int)
    ||| (x, y) == (s[1].0 as int, s[1].1 as int)
    ||| (x, y) == (s[2].0 as int, s[2].1 as int)
    ||| (x, y) == (s[3].0 as int, s[3].1 as int)
}

/// Turning clockwise any number of full turns gives back the orientation, and
/// turns add up.
pub proof fn law_rotations_compose(o: Orientation, n: int, m: int)
    requires
        n >= 0,
        m >= 0,
    ensures
        rotated(rotated(o, n), m) == rotated(o, n + m),
        rotated(o, 4) == o,
        rotated(o, n + 4) == rotated(o, n),
{
}

/// Every shape is its previous orientation turned a quarter turn clockwise
/// about the pivot: `(x, y)` goes to `(y, -x)`.
pub proof fn law_shape_turns_clockwise(kind: PieceKind, o: Orientation, x: int, y: int)
    ensures
        in_shape(kind, rotated(o, 1), y, -x) <==> in_shape(kind, o, x, y),
{
    reveal(shape);
}

/// Every shape covers four different cells, the pivot first.
pub proof fn law_shape_cells_distinct(kind: PieceKind, o: Orientation)
    ensures
        shape(kind, o).len() == 4,
        shape(kind, o)[0] == (0i32, 0i32),
        forall|i: int, j: int|
            0 <= i < j < 4 ==> #[trigger] shape(kind, o)[i] != #[trigger] shape(kind, o)[j],
{
    reveal(shape);
}

/// The first kick test of every piece but `I` keeps the pivot in place.
pub proof fn law_first_kick_in_place(kind: PieceKind, from: Orientation, to: Orientation)
    requires
        kind != PieceKind::I,
        kind != PieceKind::O,
    ensures
        kick(kind, from, to, 0) == (0i32, 0i32),
{
    reveal(kick_part);
}

/// The `O` piece covers the same cells before and after any turn: its kick
/// cancels the turn about the pivot.
pub proof fn law_o_turns_in_place(o: Orientation, n: int, m: int, x: int, y: int)
    requires
        0 <= m < 5,
    ensures
        ({
            let k = kick(PieceKind::O, o, rotated(o, n), m);
            in_shape(PieceKind::O, o, x, y) <==> in_shape(
                PieceKind::O,
                rotated(o, n),
                x - k.0,
                y - k.1,
            )
        }),
{
    reveal(shape);
    reveal(kick_part);
}

} // verus!
