//! The pile: the grid of settled cells, collision tests and line clears.
use vstd::prelude::*;

use crate::piece::{Coords, PieceKind};
use crate::{PILE_HEIGHT, PILE_WIDTH};

verus! {

/// A cell of the pile: empty, or filled by a block of some piece kind.
pub type Cell = Option<PieceKind>;

/// One row of the pile, from column 0 to the right.
pub type Row = [Cell; PILE_WIDTH];

/// The settled cells, indexed by row (0 is the bottom) and then by column.
#[derive(Debug, Clone, Copy, PartialEq, Eq)]
pub struct Pile(pub [[Cell; PILE_WIDTH]; PILE_HEIGHT]);

/// The cell in column `x` of row `y`.
pub open spec fn cell_at(p: Pile, x: int, y: int) -> Cell {
    p.0@[y]@[x]
}

/// Whether `(x, y)` lies on the pile's grid.
pub open spec fn in_bounds(c: Coords) -> bool {
    0 <= c.0 < PILE_WIDTH && 0 <= c.1 < PILE_HEIGHT
}

/// Whether a block at `c` would collide: off the grid or on a filled cell.
pub open spec fn blocked(p: Pile, c: Coords) -> bool {
    !in_bounds(c) || cell_at(p, c.0 as int, c.1 as int) is Some
}

/// Whether any of `cells` collides with the pile.
pub open spec fn collides(p: Pile, cells: Seq<Coords>) -> bool {
    exists|i: int| 0 <= i < cells.len() && #[trigger] blocked(p, cells[i])
}

/// Whether every cell of a row is filled.
pub open spec fn row_full(r: Row) -> bool {
    forall|c: int| 0 <= c < PILE_WIDTH ==> (#[trigger] r@[c]) is Some
}

/// Whether every cell of a row is empty.
pub open spec fn row_empty(r: Row) -> bool {
    forall|c: int| 0 <= c < PILE_WIDTH ==> (#[trigger] r@[c]) is None
}

/// Whether some row of the pile is full.
pub open spec fn has_full_row(p: Pile) -> bool {
    exists|r: int| 0 <= r < PILE_HEIGHT && #[trigger] row_full(p.0@[r])
}

/// The rows that are not full, in their order.
pub open spec fn kept_rows(rows: Seq<Row>) -> Seq<Row>
    decreases rows.len(),
{
    if rows.len() == 0 {
        Seq::empty()
    } else if row_full(rows[0]) {
        kept_rows(rows.drop_first())
    } else {
        seq![rows[0]] + kept_rows(rows.drop_first())
    }
}

/// `n` empty rows.
pub open spec fn empty_rows(n: nat) -> Seq<Row> {
    Seq::new(n, |i: int| [None; PILE_WIDTH])
}

/// The rows after a line clear: the rows that were not full, moved down in
/// their order, and empty rows above them.
pub open spec fn cleared(rows: Seq<Row>) -> Seq<Row> {
    kept_rows(rows) + empty_rows((rows.len() - kept_rows(rows).len()) as nat)
}

/// Whether every cell of the pile is empty.
pub open spec fn pile_empty(p: Pile) -> bool {
    forall|x: int, y: int|
        0 <= x < PILE_WIDTH && 0 <= y < PILE_HEIGHT ==> #[trigger] cell_at(p, x, y) is None
}

pub proof fn lemma_kept_rows_len(rows: Seq<Row>)
    ensures
        kept_rows(rows).len() <= rows.len(),
    decreases rows.len(),
{
    if rows.len() > 0 {
        lemma_kept_rows_len(rows.drop_first());
    }
}

proof fn lemma_cleared_cons(r: Row, rest: Seq<Row>)
    ensures
        row_full(r) ==> cleared(seq![r] + rest) =~= cleared(rest) + seq![[None; PILE_WIDTH]],
        !row_full(r) ==> cleared(seq![r] + rest) =~= seq![r] + cleared(rest),
{
    let all = seq![r] + rest;
    assert(all.drop_first() =~= rest);
    assert(all[0] == r);
    lemma_kept_rows_len(rest);
}

/// Whether a row is full, scanning its cells.
pub fn row_is_full(row: &Row) -> (r: bool)
    ensures
        r == row_full(*row),
{
    let mut c: usize = 0;
    while c < PILE_WIDTH
        invariant
            c <= PILE_WIDTH,
            forall|k: int| 0 <= k < c ==> (#[trigger] row@[k]) is Some,
        decreases PILE_WIDTH - c,
    {
        if row[c].is_none() {
            return false;
        }
        c = c + 1;
    }
    true
}

impl Pile {
    /// An empty pile.
    pub fn new() -> (r: Pile)
        ensures
            pile_empty(r),
    {
        let r = Pile([[None; PILE_WIDTH]; PILE_HEIGHT]);
        r
    }

    /// Whether some row of the pile is full.
    pub fn any_lines_to_clear(&self) -> (r: bool)
        ensures
            r == has_full_row(*self),
    {
        let mut row: usize = 0;
        while row < PILE_HEIGHT
            invariant
                row <= PILE_HEIGHT,
                forall|k: int| 0 <= k < row ==> !#[trigger] row_full(self.0@[k]),
            decreases PILE_HEIGHT - row,
        {
            if row_is_full(&self.0[row]) {
                return true;
            }
            row = row + 1;
        }
        false
    }

    /// Removes every full row: the rows that are not full move down, keeping
    /// their order, and empty rows fill the top.
    pub fn line_clear(&mut self)
        ensures
            final(self).0@ == cleared(old(self).0@),
    {
        let ghost orig = self.0@;
        let mut row: usize = PILE_HEIGHT;
        assert(orig.subrange(PILE_HEIGHT as int, PILE_HEIGHT as int) =~= Seq::<Row>::empty());
        assert(self.0@.subrange(PILE_HEIGHT as int, PILE_HEIGHT as int) =~= Seq::<Row>::empty());
        while row > 0
            invariant
                row <= PILE_HEIGHT,
                orig.len() == PILE_HEIGHT,
                self.0@.subrange(0, row as int) == orig.subrange(0, row as int),
                self.0@.subrange(row as int, PILE_HEIGHT as int) == cleared(
                    orig.subrange(row as int, PILE_HEIGHT as int),
                ),
            decreases row,
        {
            let ghost before = self.0@;
            row = row - 1;
            assert(before[row as int] == orig[row as int]) by {
                assert(before.subrange(0, row + 1) [row as int] == before[row as int]);
            }
            proof {
                assert(orig.subrange(row as int, PILE_HEIGHT as int) =~= seq![orig[row as int]]
                    + orig.subrange(row + 1, PILE_HEIGHT as int));
                lemma_cleared_cons(orig[row as int], orig.subrange(row + 1, PILE_HEIGHT as int));
            }
            if row_is_full(&self.0[row]) {
                let mut ripple = row;
                while ripple < PILE_HEIGHT - 1
                    invariant
                        row <= ripple < PILE_HEIGHT,
                        self.0@.len() == PILE_HEIGHT,
                        forall|k: int| 0 <= k < row ==> self.0@[k] == before[k],
                        forall|k: int| row <= k < ripple ==> self.0@[k] == before[k + 1],
                        forall|k: int| ripple <= k < PILE_HEIGHT ==> self.0@[k] == before[k],
                    decreases PILE_HEIGHT - ripple,
                {
                    self.0[ripple] = self.0[ripple + 1];
                    ripple = ripple + 1;
                }
                self.0[PILE_HEIGHT - 1] = [None; PILE_WIDTH];
                assert(self.0@.subrange(0, row as int) =~= orig.subrange(0, row as int)) by {
                    assert(forall|k: int| 0 <= k < row ==> before[k] == before.subrange(0, row + 1)[k]);
                }
                assert(self.0@.subrange(row as int, PILE_HEIGHT as int) =~= before.subrange(
                    row + 1,
                    PILE_HEIGHT as int,
                ) + seq![[None; PILE_WIDTH]]);
            } else {
                assert(self.0@.subrange(0, row as int) =~= orig.subrange(0, row as int)) by {
                    assert(forall|k: int| 0 <= k < row ==> before[k] == before.subrange(0, row + 1)[k]);
                }
                assert(self.0@.subrange(row as int, PILE_HEIGHT as int) =~= seq![before[row as int]]
                    + before.subrange(row + 1, PILE_HEIGHT as int));
            }
        }
        assert(self.0@ =~= self.0@.subrange(0, PILE_HEIGHT as int));
        assert(orig =~= orig.subrange(0, PILE_HEIGHT as int));
    }

    /// Whether any of `blocks` is off the grid or on a filled cell.
    pub fn check_collision(&self, blocks: &[Coords]) -> (r: bool)
        ensures
            r == collides(*self, blocks@),
    {
        let mut i: usize = 0;
        while i < blocks.len()
            invariant
                i <= blocks@.len(),
                forall|k: int| 0 <= k < i ==> !#[trigger] blocked(*self, blocks@[k]),
            decreases blocks@.len() - i,
        {
            let (x, y) = blocks[i];
            if x < 0 || x >= PILE_WIDTH as i32 || y < 0 || y >= PILE_HEIGHT as i32 {
                assert(blocked(*self, blocks@[i as int]));
                return true;
            }
            if self.0[y as usize][x as usize].is_some() {
                assert(blocked(*self, blocks@[i as int]));
                return true;
            }
            i = i + 1;
        }
        false
    }
}

proof fn lemma_kept_rows_not_full(rows: Seq<Row>)
    ensures
        forall|i: int| 0 <= i < kept_rows(rows).len() ==> !row_full(#[trigger] kept_rows(rows)[i]),
    decreases rows.len(),
{
    if rows.len() > 0 {
        lemma_kept_rows_not_full(rows.drop_first());
        if !row_full(rows[0]) {
            let k = kept_rows(rows.drop_first());
            assert forall|i: int| 0 <= i < kept_rows(rows).len() implies !row_full(
                #[trigger] kept_rows(rows)[i],
            ) by {
                if i > 0 {
                    assert(kept_rows(rows)[i] == k[i - 1]);
                }
            }
        } else {
            assert(kept_rows(rows) == kept_rows(rows.drop_first()));
        }
    }
}

proof fn lemma_kept_rows_identity(rows: Seq<Row>)
    requires
        forall|i: int| 0 <= i < rows.len() ==> !row_full(#[trigger] rows[i]),
    ensures
        kept_rows(rows) == rows,
    decreases rows.len(),
{
    if rows.len() > 0 {
        assert(forall|i: int| 0 <= i < rows.drop_first().len() ==> rows.drop_first()[i] == rows[i + 1]);
        lemma_kept_rows_identity(rows.drop_first());
        assert(rows =~= seq![rows[0]] + rows.drop_first());
    }
}

proof fn lemma_empty_row_not_full()
    ensures
        !row_full([None; PILE_WIDTH]),
{
    let r: Row = [None; PILE_WIDTH];
    assert(r@[0] is None);
}

proof fn lemma_cleared_rows_not_full(rows: Seq<Row>)
    ensures
        forall|i: int| 0 <= i < cleared(rows).len() ==> !row_full(#[trigger] cleared(rows)[i]),
{
    lemma_kept_rows_not_full(rows);
    lemma_kept_rows_len(rows);
    lemma_empty_row_not_full();
    let k = kept_rows(rows);
    assert forall|i: int| 0 <= i < cleared(rows).len() implies !row_full(#[trigger] cleared(rows)[i]) by {
        if i < k.len() {
            assert(cleared(rows)[i] == k[i]);
        } else {
            assert(cleared(rows)[i] == empty_rows((rows.len() - k.len()) as nat)[i - k.len()]);
        }
    }
}

/// After a line clear no row of the pile is full, and the pile keeps its
/// height.
pub proof fn law_line_clear_leaves_no_full_row(before: Pile, after: Pile)
    requires
        after.0@ == cleared(before.0@),
    ensures
        !has_full_row(after),
{
    lemma_cleared_rows_not_full(before.0@);
    assert forall|r: int| 0 <= r < PILE_HEIGHT implies !#[trigger] row_full(after.0@[r]) by {
        assert(after.0@[r] == cleared(before.0@)[r]);
    }
}

/// Clearing lines a second time changes nothing.
pub proof fn law_line_clear_idempotent(rows: Seq<Row>)
    ensures
        cleared(cleared(rows)) == cleared(rows),
{
    lemma_cleared_rows_not_full(rows);
    lemma_kept_rows_identity(cleared(rows));
    assert(empty_rows(0) =~= Seq::<Row>::empty());
    assert(cleared(cleared(rows)) =~= cleared(rows));
}

} // verus!
