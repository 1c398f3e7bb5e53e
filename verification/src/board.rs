//! The play space: an occupancy matrix supporting collision queries, affixing
//! the active piece, and clearing completed rows with compaction.
use vstd::prelude::*;

use crate::{BOARD_COLS, BOARD_ROWS};

verus! {

/// A sequence of rows seen as a sequence of cell sequences.
pub open spec fn seq_rows_view(s: Seq<Vec<u8>>) -> Seq<Seq<u8>> {
    Seq::new(s.len(), |i: int| s[i]@)
}

/// A row is complete when every cell of it is occupied (nonzero).
pub open spec fn row_complete(row: Seq<u8>) -> bool {
    forall|j: int| 0 <= j < row.len() ==> #[trigger] row[j] != 0
}

/// A row is empty when no cell of it is occupied.
pub open spec fn row_empty(row: Seq<u8>) -> bool {
    forall|j: int| 0 <= j < row.len() ==> #[trigger] row[j] == 0
}

/// A fully unoccupied row of board width.
pub open spec fn empty_row() -> Seq<u8> {
    Seq::new(BOARD_COLS as nat, |j: int| 0u8)
}

/// `n` fully unoccupied rows.
pub open spec fn empty_rows(n: int) -> Seq<Seq<u8>> {
    Seq::new(n as nat, |i: int| empty_row())
}

/// The rows of `b` that survive line clearance: the incomplete ones, in their
/// original order.
pub open spec fn surviving_rows(b: Seq<Seq<u8>>) -> Seq<Seq<u8>>
    decreases b.len(),
{
    if b.len() == 0 {
        Seq::empty()
    } else if row_complete(b.last()) {
        surviving_rows(b.drop_last())
    } else {
        surviving_rows(b.drop_last()).push(b.last())
    }
}

/// The board after line clearance: the surviving rows consolidated at the
/// bottom, below as many fresh empty rows as were cleared.
pub open spec fn cleared_board(b: Seq<Seq<u8>>) -> Seq<Seq<u8>> {
    empty_rows(b.len() - surviving_rows(b).len()) + surviving_rows(b)
}

/// A board-space cell either lies outside the board or is occupied.
pub open spec fn cell_blocked(b: Seq<Seq<u8>>, row: int, col: int) -> bool {
    ||| row < 0
    ||| row >= BOARD_ROWS
    ||| col < 0
    ||| col >= BOARD_COLS
    ||| b[row][col] != 0
}

pub proof fn lemma_surviving_len(b: Seq<Seq<u8>>)
    ensures
        surviving_rows(b).len() <= b.len(),
    decreases b.len(),
{
    if b.len() > 0 {
        lemma_surviving_len(b.drop_last());
    }
}

/// Line clearance treats the two halves of a split board independently.
proof fn lemma_surviving_concat(a: Seq<Seq<u8>>, b: Seq<Seq<u8>>)
    ensures
        surviving_rows(a + b) == surviving_rows(a) + surviving_rows(b),
    decreases b.len(),
{
    if b.len() == 0 {
        assert(a + b =~= a);
        assert(surviving_rows(a) + surviving_rows(b) =~= surviving_rows(a));
    } else {
        assert((a + b).last() == b.last());
        assert((a + b).drop_last() =~= a + b.drop_last());
        lemma_surviving_concat(a, b.drop_last());
        if !row_complete(b.last()) {
            assert(surviving_rows(a) + surviving_rows(b) =~= (surviving_rows(a)
                + surviving_rows(b.drop_last())).push(b.last()));
        }
    }
}

/// One step of scanning a board from the bottom upwards: the row in front of
/// the scanned region joins it, surviving if it is incomplete.
proof fn lemma_surviving_scan_step(b: Seq<Seq<u8>>, i: int)
    requires
        0 <= i < b.len(),
    ensures
        surviving_rows(b.subrange(i, b.len() as int)) == (if row_complete(b[i]) {
            surviving_rows(b.subrange(i + 1, b.len() as int))
        } else {
            seq![b[i]] + surviving_rows(b.subrange(i + 1, b.len() as int))
        }),
{
    let len = b.len() as int;
    assert(b.subrange(i, len) =~= seq![b[i]] + b.subrange(i + 1, len));
    lemma_surviving_concat(seq![b[i]], b.subrange(i + 1, len));
    assert(surviving_rows(Seq::<Seq<u8>>::empty()) == Seq::<Seq<u8>>::empty());
    assert(seq![b[i]].drop_last() =~= Seq::<Seq<u8>>::empty());
    assert(seq![b[i]].last() == b[i]);
    if row_complete(b[i]) {
        assert(surviving_rows(seq![b[i]]) + surviving_rows(b.subrange(i + 1, len))
            =~= surviving_rows(b.subrange(i + 1, len)));
    } else {
        assert(surviving_rows(seq![b[i]]) =~= seq![b[i]]);
    }
}

/// The play space: a matrix of cells, one row per sequence element, where a
/// cell is occupied when nonzero. Occupied cells carry the code of the piece
/// kind that produced them, for rendering.
#[derive(Debug, Clone, PartialEq, Eq)]
pub struct Board(pub Vec<Vec<u8>>);

impl View for Board {
    type V = Seq<Seq<u8>>;

    open spec fn view(&self) -> Seq<Seq<u8>> {
        seq_rows_view(self.0@)
    }
}

/// Builds one unoccupied row of board width.
fn make_empty_row() -> (r: Vec<u8>)
    ensures
        r@ == empty_row(),
{
    let mut row: Vec<u8> = Vec::new();
    let mut j: usize = 0;
    while j < BOARD_COLS
        invariant
            j <= BOARD_COLS,
            row@.len() == j,
            forall|k: int| 0 <= k < j ==> #[trigger] row@[k] == 0,
        decreases BOARD_COLS - j,
    {
        row.push(0);
        j += 1;
    }
    proof {
        assert(row@ =~= empty_row());
    }
    row
}

/// Copies the cells of one row.
pub(crate) fn copy_row(row: &Vec<u8>) -> (r: Vec<u8>)
    ensures
        r@ == row@,
{
    let mut out: Vec<u8> = Vec::new();
    let mut j: usize = 0;
    while j < row.len()
        invariant
            j <= row@.len(),
            out@ == row@.take(j as int),
        decreases row@.len() - j,
    {
        out.push(row[j]);
        proof {
            assert(out@ =~= row@.take(j + 1));
        }
        j += 1;
    }
    proof {
        assert(row@.take(row@.len() as int) =~= row@);
    }
    out
}

/// Decides whether no cell of a row is occupied.
fn is_row_empty(row: &Vec<u8>) -> (r: bool)
    ensures
        r == row_empty(row@),
{
    let mut j: usize = 0;
    while j < row.len()
        invariant
            j <= row@.len(),
            forall|k: int| 0 <= k < j ==> #[trigger] row@[k] == 0,
        decreases row@.len() - j,
    {
        if row[j] != 0 {
            return false;
        }
        j += 1;
    }
    true
}

/// Decides whether every cell of a row is occupied.
fn is_row_complete(row: &Vec<u8>) -> (r: bool)
    ensures
        r == row_complete(row@),
{
    let mut j: usize = 0;
    while j < row.len()
        invariant
            j <= row@.len(),
            forall|k: int| 0 <= k < j ==> #[trigger] row@[k] != 0,
        decreases row@.len() - j,
    {
        if row[j] == 0 {
            return false;
        }
        j += 1;
    }
    true
}

impl Board {
    /// A board always holds the full grid of rows and columns.
    pub open spec fn wf(&self) -> bool {
        &&& self@.len() == BOARD_ROWS
        &&& forall|i: int| 0 <= i < self@.len() ==> (#[trigger] self@[i]).len() == BOARD_COLS
    }

    pub fn new() -> (r: Self)
        ensures
            r.wf(),
            r@ == empty_rows(BOARD_ROWS as int),
    {
        let mut rows: Vec<Vec<u8>> = Vec::new();
        let mut i: usize = 0;
        while i < BOARD_ROWS
            invariant
                i <= BOARD_ROWS,
                rows@.len() == i,
                forall|k: int| 0 <= k < i ==> (#[trigger] rows@[k])@ == empty_row(),
            decreases BOARD_ROWS - i,
        {
            rows.push(make_empty_row());
            i += 1;
        }
        let r = Board(rows);
        proof {
            assert(r@ =~= empty_rows(BOARD_ROWS as int));
        }
        r
    }

    /// A board with every cell occupied.
    pub fn new_filled() -> (r: Self)
        ensures
            r.wf(),
            forall|i: int, j: int|
                0 <= i < BOARD_ROWS && 0 <= j < BOARD_COLS ==> r@[i][j] == 1,
    {
        let mut rows: Vec<Vec<u8>> = Vec::new();
        let mut i: usize = 0;
        while i < BOARD_ROWS
            invariant
                i <= BOARD_ROWS,
                rows@.len() == i,
                forall|k: int| 0 <= k < i ==> (#[trigger] rows@[k])@.len() == BOARD_COLS,
                forall|k: int, j: int|
                    0 <= k < i && 0 <= j < BOARD_COLS ==> #[trigger] rows@[k]@[j] == 1,
            decreases BOARD_ROWS - i,
        {
            let mut row: Vec<u8> = Vec::new();
            let mut j: usize = 0;
            while j < BOARD_COLS
                invariant
                    j <= BOARD_COLS,
                    row@.len() == j,
                    forall|k: int| 0 <= k < j ==> #[trigger] row@[k] == 1,
                decreases BOARD_COLS - j,
            {
                row.push(1);
                j += 1;
            }
            rows.push(row);
            i += 1;
        }
        Board(rows)
    }

    /// Builds a board from an explicit grid of cells.
    pub fn from_rows(values: [[u8; BOARD_COLS]; BOARD_ROWS]) -> (r: Self)
        ensures
            r.wf(),
            forall|i: int| 0 <= i < BOARD_ROWS ==> #[trigger] r@[i] == values@[i]@,
    {
        let mut rows: Vec<Vec<u8>> = Vec::new();
        let mut i: usize = 0;
        while i < BOARD_ROWS
            invariant
                i <= BOARD_ROWS,
                rows@.len() == i,
                forall|k: int| 0 <= k < i ==> (#[trigger] rows@[k])@ == values@[k]@,
            decreases BOARD_ROWS - i,
        {
            let mut row: Vec<u8> = Vec::new();
            let mut j: usize = 0;
            while j < BOARD_COLS
                invariant
                    i < BOARD_ROWS,
                    j <= BOARD_COLS,
                    row@ == values@[i as int]@.take(j as int),
                decreases BOARD_COLS - j,
            {
                row.push(values[i][j]);
                proof {
                    assert(row@ =~= values@[i as int]@.take(j + 1));
                }
                j += 1;
            }
            proof {
                assert(values@[i as int]@.take(BOARD_COLS as int) =~= values@[i as int]@);
            }
            rows.push(row);
            i += 1;
        }
        Board(rows)
    }

    /// Read access to all rows in top-to-bottom order, the buffer rows
    /// included, for rendering.
    pub fn rows(&self) -> (r: &Vec<Vec<u8>>)
        ensures
            seq_rows_view(r@) == self@,
    {
        &self.0
    }

    /// Read access to one row, for rendering.
    pub fn row(&self, i: usize) -> (r: &Vec<u8>)
        requires
            self.wf(),
            i < BOARD_ROWS,
        ensures
            r@ == self@[i as int],
    {
        &self.0[i]
    }

    /// Read access to one cell.
    pub fn cell(&self, i: usize, j: usize) -> (r: u8)
        requires
            self.wf(),
            i < BOARD_ROWS,
            j < BOARD_COLS,
        ensures
            r == self@[i as int][j as int],
    {
        proof {
            assert(self@[i as int] == self.0@[i as int]@);
        }
        self.0[i][j]
    }

    /// True when the lower row of the spawn buffer zone holds any occupied
    /// cell; landing a piece there ends the game.
    pub fn buffer_zone_occupied(&self) -> (r: bool)
        requires
            self.wf(),
        ensures
            r == !row_empty(self@[1]),
    {
        proof {
            assert(self@[1] == self.0@[1]@);
        }
        let row = &self.0[1];
        let mut j: usize = 0;
        while j < BOARD_COLS
            invariant
                j <= BOARD_COLS,
                row@ == self@[1],
                row@.len() == BOARD_COLS,
                forall|k: int| 0 <= k < j ==> #[trigger] row@[k] == 0,
            decreases BOARD_COLS - j,
        {
            if row[j] != 0 {
                return true;
            }
            j += 1;
        }
        false
    }

    /// Removes every fully occupied row and consolidates surviving rows
    /// downwards, preserving their order; returns the number of rows cleared.
    /// The board is compacted in place: the walk starts at the topmost
    /// occupied row, works up from the bottom, and bubbles each cleared row
    /// to the top of the occupied region.
    pub fn clear_lines(&mut self) -> (r: u8)
        requires
            old(self).wf(),
        ensures
            final(self).wf(),
            final(self)@ == cleared_board(old(self)@),
            r as int == BOARD_ROWS - surviving_rows(old(self)@).len(),
    {
        let ghost b0 = self@;
        // First, work down the board to find the topmost occupied row. This
        // bounds how far cleared rows can bubble upwards.
        let mut h: usize = 0;
        let mut found = false;
        let mut scan: usize = 0;
        while scan < BOARD_ROWS && !found
            invariant
                self == old(self),
                old(self).wf(),
                b0 == old(self)@,
                scan <= BOARD_ROWS,
                h <= scan,
                !found ==> h == 0 && (forall|m: int| 0 <= m < scan ==> row_empty(#[trigger] b0[m])),
                found ==> forall|m: int| 0 <= m < h ==> row_empty(#[trigger] b0[m]),
            decreases BOARD_ROWS - scan + (if found { 0int } else { 1int }),
        {
            proof {
                assert(self@[scan as int] == self.0@[scan as int]@);
            }
            if !is_row_empty(&self.0[scan]) {
                h = scan;
                found = true;
            } else {
                scan += 1;
            }
        }
        let ghost h0 = h as int;
        let mut count: usize = 0;
        let mut pos: usize = BOARD_ROWS;
        proof {
            assert forall|m: int| 0 <= m < h0 implies #[trigger] self@[m] == empty_row() by {
                assert(row_empty(b0[m]));
                assert(self@[m] =~= empty_row());
            }
            assert(self@.subrange(pos as int, BOARD_ROWS as int) =~= Seq::<Seq<u8>>::empty());
            assert(b0.subrange(h0 + (pos - h), BOARD_ROWS as int) =~= Seq::<Seq<u8>>::empty());
        }
        // Next, work up the board clearing completed rows.
        while pos > h
            invariant
                b0.len() == BOARD_ROWS,
                forall|m: int| 0 <= m < BOARD_ROWS ==> (#[trigger] b0[m]).len() == BOARD_COLS,
                forall|m: int| 0 <= m < h0 ==> row_empty(#[trigger] b0[m]),
                0 <= h0 <= h <= pos <= BOARD_ROWS,
                count == h - h0,
                h0 + (pos - h) <= BOARD_ROWS,
                self@.len() == BOARD_ROWS,
                forall|m: int| 0 <= m < BOARD_ROWS ==> (#[trigger] self@[m]).len() == BOARD_COLS,
                forall|m: int| 0 <= m < h ==> #[trigger] self@[m] == empty_row(),
                forall|m: int| h <= m < pos ==> #[trigger] self@[m] == b0[h0 + (m - h)],
                self@.subrange(pos as int, BOARD_ROWS as int) == surviving_rows(
                    b0.subrange(h0 + (pos - h), BOARD_ROWS as int),
                ),
            decreases pos - h,
        {
            let i = pos - 1;
            let ghost sc = h0 + (pos - h);
            proof {
                assert(self@[i as int] == self.0@[i as int]@);
                assert(self@[i as int] == b0[sc - 1]);
                lemma_surviving_scan_step(b0, sc - 1);
            }
            // Skip incomplete rows.
            if !is_row_complete(&self.0[i]) {
                pos -= 1;
                proof {
                    assert(self@.subrange(pos as int, BOARD_ROWS as int) =~= seq![
                        self@[pos as int],
                    ] + self@.subrange(pos + 1, BOARD_ROWS as int));
                }
                continue ;
            }
            // Clear the completed row.
            let ghost before_clear = self@;
            self.0[i] = make_empty_row();
            count += 1;
            proof {
                assert forall|m: int|
                    0 <= m < BOARD_ROWS && m != i implies #[trigger] self@[m]
                    == before_clear[m] by {
                    assert(self@[m] == self.0@[m]@);
                }
                assert(self@[i as int] == empty_row());
                assert(empty_row().len() == BOARD_COLS);
            }
            // Consolidate the board by bubbling the cleared row upwards to
            // the top of the occupied region.
            let ghost mid = self@;
            let mut j: usize = i;
            while j > h
                invariant
                    b0.len() == BOARD_ROWS,
                    forall|m: int| 0 <= m < BOARD_ROWS ==> (#[trigger] b0[m]).len() == BOARD_COLS,
                    0 <= h0 <= h <= j <= i < BOARD_ROWS,
                    i + 1 == pos,
                    self@.len() == BOARD_ROWS,
                    forall|m: int|
                        0 <= m < BOARD_ROWS ==> (#[trigger] self@[m]).len() == BOARD_COLS,
                    forall|m: int| 0 <= m < h ==> #[trigger] self@[m] == empty_row(),
                    forall|m: int| h <= m < j ==> #[trigger] self@[m] == b0[h0 + (m - h)],
                    self@[j as int] == empty_row(),
                    forall|m: int| j < m <= i ==> #[trigger] self@[m] == b0[h0 + (m - 1 - h)],
                    forall|m: int| i < m < BOARD_ROWS ==> #[trigger] self@[m] == mid[m],
                decreases j,
            {
                let upper = copy_row(&self.0[j - 1]);
                let lower = copy_row(&self.0[j]);
                let ghost before = self@;
                self.0[j - 1] = lower;
                self.0[j] = upper;
                proof {
                    assert(upper@ == before[j - 1]);
                    assert(lower@ == before[j as int]);
                    assert(self@[j - 1] == lower@);
                    assert(self@[j as int] == upper@);
                    assert forall|m: int|
                        0 <= m < BOARD_ROWS && m != j - 1 && m != j implies #[trigger] self@[m]
                        == before[m] by {
                        assert(self@[m] == self.0@[m]@);
                    }
                }
                j -= 1;
            }
            h += 1;
            proof {
                assert forall|m: int| h <= m < pos implies #[trigger] self@[m] == b0[h0 + (m - h)]
                    by {}
                assert(self@.subrange(pos as int, BOARD_ROWS as int) =~= mid.subrange(
                    pos as int,
                    BOARD_ROWS as int,
                ));
            }
        }
        // Every row above the walk's end is empty; everything at or below it
        // is exactly the rows that survived, in their original order.
        proof {
            assert(b0.take(h0) + b0.subrange(h0, BOARD_ROWS as int) =~= b0);
            lemma_surviving_concat(b0.take(h0), b0.subrange(h0, BOARD_ROWS as int));
            assert forall|m: int|
                0 <= m < b0.take(h0).len() implies !row_complete(#[trigger] b0.take(h0)[m]) by {
                assert(b0.take(h0)[m] == b0[m]);
                assert(b0[m][0] == 0);
            }
            lemma_no_complete_row_survives(b0.take(h0));
            let tail = surviving_rows(b0.subrange(h0, BOARD_ROWS as int));
            assert(surviving_rows(b0) == b0.take(h0) + tail);
            assert(tail.len() == BOARD_ROWS - pos);
            assert forall|m: int| 0 <= m < h0 implies #[trigger] b0[m] == empty_row() by {
                assert(b0[m] =~= empty_row());
            }
            assert forall|m: int| pos <= m < BOARD_ROWS implies #[trigger] self@[m] == tail[m
                - pos] by {
                assert(self@.subrange(pos as int, BOARD_ROWS as int)[m - pos] == self@[m]);
            }
            assert(self@ =~= cleared_board(b0));
        }
        count as u8
    }
}

impl Default for Board {
    /// A fresh board is fully unoccupied.
    fn default() -> (r: Self)
        ensures
            r.wf(),
            r@ == empty_rows(BOARD_ROWS as int),
    {
        Board::new()
    }
}

/// Law: after clearance no complete row remains anywhere on the board.
pub proof fn lemma_cleared_no_complete_row(b: Seq<Seq<u8>>)
    ensures
        forall|i: int|
            0 <= i < cleared_board(b).len() ==> !row_complete(#[trigger] cleared_board(b)[i]),
{
    lemma_surviving_len(b);
    assert(!row_complete(empty_row())) by {
        assert(empty_row()[0] == 0);
    }
    lemma_surviving_not_complete(b);
}

/// Every surviving row is incomplete.
proof fn lemma_surviving_not_complete(b: Seq<Seq<u8>>)
    ensures
        forall|i: int|
            0 <= i < surviving_rows(b).len() ==> !row_complete(#[trigger] surviving_rows(b)[i]),
    decreases b.len(),
{
    if b.len() > 0 {
        lemma_surviving_not_complete(b.drop_last());
        let dl = surviving_rows(b.drop_last());
        assert forall|i: int|
            0 <= i < surviving_rows(b).len() implies !row_complete(
            #[trigger] surviving_rows(b)[i],
        ) by {
            if i < dl.len() {
                assert(surviving_rows(b)[i] == dl[i]);
            } else {
                assert(surviving_rows(b)[i] == b.last());
            }
        }
    }
}

/// A board without a complete row survives clearance whole.
pub proof fn lemma_no_complete_row_survives(b: Seq<Seq<u8>>)
    requires
        forall|i: int| 0 <= i < b.len() ==> !row_complete(#[trigger] b[i]),
    ensures
        surviving_rows(b) == b,
        cleared_board(b) == b,
    decreases b.len(),
{
    if b.len() > 0 {
        lemma_no_complete_row_survives(b.drop_last());
        assert(surviving_rows(b) =~= b);
    }
    assert(cleared_board(b) =~= b);
}

/// Law: line clearance is idempotent; a second clearance removes nothing and
/// leaves the board unchanged.
pub proof fn lemma_clear_lines_idempotent(b: Seq<Seq<u8>>)
    ensures
        cleared_board(cleared_board(b)) == cleared_board(b),
        surviving_rows(cleared_board(b)).len() == cleared_board(b).len(),
{
    lemma_cleared_no_complete_row(b);
    lemma_no_complete_row_survives(cleared_board(b));
}

/// A board whose every row is complete is left entirely empty, with every row
/// counted as cleared.
pub proof fn lemma_all_complete_rows_cleared(b: Seq<Seq<u8>>)
    requires
        forall|i: int| 0 <= i < b.len() ==> row_complete(#[trigger] b[i]),
    ensures
        surviving_rows(b).len() == 0,
        cleared_board(b) == empty_rows(b.len() as int),
    decreases b.len(),
{
    if b.len() > 0 {
        lemma_all_complete_rows_cleared(b.drop_last());
    }
    assert(cleared_board(b) =~= empty_rows(b.len() as int));
}

} // verus!
