//! The active piece and the game state machine: event handling, gravity,
//! landing, line clearance, scoring, the piece queue and game-over detection.
use vstd::prelude::*;

use crate::block::{
    lemma_cells_row_zero_implies_row_one, lemma_rot_cells_in_bounding_box,
    lemma_rot_cells_in_local_space, lemma_spawn_rotation_fits_buffer, rot_cell, rot_cells,
    rot_height, rot_horizontal_offset, rot_vertical_offset, rot_width, rotation_matches, Block,
    BlockGenerator, BlockType,
};
use crate::board::{
    cell_blocked, cleared_board, copy_row, empty_row, lemma_surviving_len, row_complete, row_empty,
    surviving_rows, Board,
};
use crate::{BOARD_COLS, BOARD_ROWS, BUFFER_ZONE_ROWS};

verus! {

/// The number of pieces waiting in the look-ahead queue.
pub const QUEUE_LEN: usize = 3;

/// The direction of a horizontal move or of a rotation.
#[derive(Copy, Clone, Debug, PartialEq, Eq, Structural)]
pub enum Direction {
    Left,
    Right,
}

/// The events the game state machine accepts.
#[derive(Copy, Clone, Debug, PartialEq, Eq, Structural)]
pub enum Event {
    Quit,
    Move(Direction),
    Rotate(Direction),
    Gravity,
}

/// The falling piece under player control: its kind and rotation, and the
/// board-space anchor of its local 4x4 coordinate space. The column is signed
/// so a piece whose bounding box starts inside the local space can overhang
/// the board's left edge.
#[derive(Copy, Clone, Debug, PartialEq, Eq)]
pub struct ActiveBlock {
    /// Row and column of the local space's origin in board coordinates.
    pub position: (usize, i64),
    pub block: Block,
}

/// Whether any of the given board-space cells lies outside the board or on an
/// occupied cell of board `b`.
pub open spec fn spec_collides(b: Seq<Seq<u8>>, cells: Seq<(int, int)>) -> bool {
    exists|k: int| 0 <= k < cells.len() && cell_blocked(b, (#[trigger] cells[k]).0, cells[k].1)
}

/// The occupancy code a piece kind writes into the board; occupied cells are
/// exactly the nonzero ones.
pub open spec fn spec_type_code(bt: BlockType) -> u8 {
    match bt {
        BlockType::I => 1,
        BlockType::J => 2,
        BlockType::O => 3,
    }
}

/// The occupancy code a piece kind writes into the board.
pub fn type_code(bt: BlockType) -> (r: u8)
    ensures
        r == spec_type_code(bt),
{
    match bt {
        BlockType::I => 1,
        BlockType::J => 2,
        BlockType::O => 3,
    }
}

/// The board with the given cells written as occupied with `code`.
pub open spec fn board_with_piece(b: Seq<Seq<u8>>, cells: Seq<(int, int)>, code: u8) -> Seq<
    Seq<u8>,
> {
    Seq::new(
        b.len(),
        |i: int|
            Seq::new(
                b[i].len(),
                |j: int| if cells.contains((i, j)) { code } else { b[i][j] },
            ),
    )
}

/// The spawn placement of a fresh piece: the anchor row puts the piece at the
/// bottom of the buffer zone, and the anchor column centres it with a one-cell
/// rightward bias for odd widths.
pub open spec fn spec_spawn(blk: Block) -> ActiveBlock {
    let bt = blk.block_type;
    let i = blk.rotation_counter@;
    ActiveBlock {
        position: (
            (BUFFER_ZONE_ROWS - rot_vertical_offset(bt, i) - rot_height(bt, i)) as usize,
            (BOARD_COLS as int / 2 - rot_horizontal_offset(bt, i) - rot_width(bt, i) / 2) as i64,
        ),
        block: blk,
    }
}

impl ActiveBlock {
    pub open spec fn wf(&self) -> bool {
        self.block.wf()
    }

    /// The four board-space cells of the piece, as exact signed coordinates.
    pub open spec fn spec_cells(&self) -> Seq<(int, int)> {
        Seq::new(
            4,
            |k: int|
                (
                    self.position.0 + rot_cell(
                        self.block.block_type,
                        self.block.rotation_counter@,
                        k,
                    ).0,
                    self.position.1 + rot_cell(
                        self.block.block_type,
                        self.block.rotation_counter@,
                        k,
                    ).1,
                ),
        )
    }

    /// Places a fresh piece at the bottom of the buffer zone, horizontally
    /// centred with a one-cell rightward bias for odd-width pieces.
    pub fn new(block: Block) -> (r: Self)
        requires
            block.wf(),
            rot_vertical_offset(block.block_type, block.rotation_counter@) + rot_height(
                block.block_type,
                block.rotation_counter@,
            ) <= BUFFER_ZONE_ROWS,
            rot_width(block.block_type, block.rotation_counter@) <= BOARD_COLS,
        ensures
            r == spec_spawn(block),
            r.wf(),
    {
        let rot = block.rotation();
        let row = BUFFER_ZONE_ROWS - rot.vertical_offset - rot.height;
        proof {
            lemma_rot_cells_in_bounding_box(block.block_type, block.rotation_counter@);
            assert(rot.horizontal_offset <= 3) by {
                assert(rot_cells(block.block_type, block.rotation_counter@)[0].1 < 4);
            }
        }
        let col = (BOARD_COLS / 2) as i64 - rot.horizontal_offset as i64 - (rot.width / 2) as i64;
        ActiveBlock { position: (row, col), block }
    }

    /// The piece's four board-space cells for rendering. Cells inside the
    /// board are reported exactly; a cell outside it is clamped to the
    /// nearest coordinate just past the board's edge, so it can never be
    /// mistaken for a cell of the playfield.
    pub fn cells_on_board(&self) -> (r: Vec<(usize, usize)>)
        requires
            self.wf(),
        ensures
            r@.len() == 4,
            forall|k: int|
                0 <= k < 4 ==> {
                    let c = self.spec_cells()[k];
                    if 0 <= c.0 < BOARD_ROWS && 0 <= c.1 < BOARD_COLS {
                        (#[trigger] r@[k]).0 == c.0 && r@[k].1 == c.1
                    } else {
                        r@[k].0 >= BOARD_ROWS || r@[k].1 >= BOARD_COLS
                    }
                },
    {
        proof {
            lemma_rot_cells_in_local_space(self.block.block_type, self.block.rotation_counter@);
        }
        let rot = self.block.rotation();
        let mut out: Vec<(usize, usize)> = Vec::new();
        let mut k: usize = 0;
        while k < 4
            invariant
                self.wf(),
                rotation_matches(rot, self.block.block_type, self.block.rotation_counter@),
                forall|m: int|
                    0 <= m < 4 ==> 0 <= (#[trigger] rot_cells(
                        self.block.block_type,
                        self.block.rotation_counter@,
                    )[m]).0 < 4 && 0 <= rot_cells(
                        self.block.block_type,
                        self.block.rotation_counter@,
                    )[m].1 < 4,
                k <= 4,
                out@.len() == k,
                forall|m: int|
                    0 <= m < k ==> {
                        let c = self.spec_cells()[m];
                        if 0 <= c.0 < BOARD_ROWS && 0 <= c.1 < BOARD_COLS {
                            (#[trigger] out@[m]).0 == c.0 && out@[m].1 == c.1
                        } else {
                            out@[m].0 >= BOARD_ROWS || out@[m].1 >= BOARD_COLS
                        }
                    },
            decreases 4 - k,
        {
            let (pr, pc) = rot.positions[k];
            let row = if self.position.0 >= BOARD_ROWS {
                BOARD_ROWS
            } else {
                self.position.0 + pr
            };
            let col_signed = if self.position.1 > BOARD_COLS as i64 {
                BOARD_COLS as i64
            } else {
                self.position.1 + pc as i64
            };
            let col = if col_signed < 0 || col_signed >= BOARD_COLS as i64 {
                BOARD_COLS
            } else {
                col_signed as usize
            };
            out.push((row, col));
            k += 1;
        }
        out
    }

    /// Translates the piece one row downwards, saturating at the numeric
    /// limit; collision handling is the caller's responsibility.
    pub fn move_down(&mut self)
        ensures
            *final(self) == spec_moved_down(*old(self)),
    {
        if self.position.0 < usize::MAX {
            self.position = (self.position.0 + 1, self.position.1);
        }
    }

    /// Translates the piece one row upwards, saturating at row zero.
    pub fn move_up(&mut self)
        ensures
            *final(self) == spec_moved_up(*old(self)),
    {
        if self.position.0 > 0 {
            self.position = (self.position.0 - 1, self.position.1);
        }
    }

    /// Translates the piece one column leftwards, saturating at the numeric
    /// limit.
    pub fn move_left(&mut self)
        ensures
            *final(self) == spec_moved_left(*old(self)),
    {
        if self.position.1 > i64::MIN {
            self.position = (self.position.0, self.position.1 - 1);
        }
    }

    /// Translates the piece one column rightwards, saturating at the numeric
    /// limit.
    pub fn move_right(&mut self)
        ensures
            *final(self) == spec_moved_right(*old(self)),
    {
        if self.position.1 < i64::MAX {
            self.position = (self.position.0, self.position.1 + 1);
        }
    }

    /// Turns the piece clockwise; collision handling is the caller's
    /// responsibility.
    pub fn rotate_clockwise(&mut self)
        requires
            old(self).wf(),
        ensures
            *final(self) == spec_piece_rotated(*old(self), Direction::Right),
            final(self).wf(),
    {
        self.block.rotate_clockwise();
    }

    /// Turns the piece counter-clockwise.
    pub fn rotate_counter_clockwise(&mut self)
        requires
            old(self).wf(),
        ensures
            *final(self) == spec_piece_rotated(*old(self), Direction::Left),
            final(self).wf(),
    {
        self.block.rotate_counter_clockwise();
    }
}

/// The piece translated one row downwards, saturating at the numeric limit.
pub open spec fn spec_moved_down(p: ActiveBlock) -> ActiveBlock {
    if p.position.0 == usize::MAX {
        p
    } else {
        ActiveBlock { position: ((p.position.0 + 1) as usize, p.position.1), block: p.block }
    }
}

/// The piece translated one row upwards, saturating at row zero.
pub open spec fn spec_moved_up(p: ActiveBlock) -> ActiveBlock {
    if p.position.0 == 0 {
        p
    } else {
        ActiveBlock { position: ((p.position.0 - 1) as usize, p.position.1), block: p.block }
    }
}

/// The piece translated one column leftwards, saturating at the numeric limit.
pub open spec fn spec_moved_left(p: ActiveBlock) -> ActiveBlock {
    if p.position.1 == i64::MIN {
        p
    } else {
        ActiveBlock { position: (p.position.0, (p.position.1 - 1) as i64), block: p.block }
    }
}

/// The piece translated one column rightwards, saturating at the numeric
/// limit.
pub open spec fn spec_moved_right(p: ActiveBlock) -> ActiveBlock {
    if p.position.1 == i64::MAX {
        p
    } else {
        ActiveBlock { position: (p.position.0, (p.position.1 + 1) as i64), block: p.block }
    }
}

/// The piece translated one column in the given direction.
pub open spec fn spec_piece_moved(p: ActiveBlock, d: Direction) -> ActiveBlock {
    match d {
        Direction::Left => spec_moved_left(p),
        Direction::Right => spec_moved_right(p),
    }
}

/// The piece turned once in the given direction: clockwise for `Right`,
/// counter-clockwise for `Left`.
pub open spec fn spec_piece_rotated(p: ActiveBlock, d: Direction) -> ActiveBlock {
    match d {
        Direction::Left => ActiveBlock {
            position: p.position,
            block: crate::block::spec_rotated_counter_clockwise(p.block),
        },
        Direction::Right => ActiveBlock {
            position: p.position,
            block: crate::block::spec_rotated_clockwise(p.block),
        },
    }
}

/// Law: moving left and then right, or right and then left, is the identity
/// on a piece whose anchor column is not at a numeric limit (as that of any
/// piece on the board is).
pub proof fn lemma_move_round_trip_identity(p: ActiveBlock)
    requires
        i64::MIN < p.position.1 < i64::MAX,
    ensures
        spec_moved_right(spec_moved_left(p)) == p,
        spec_moved_left(spec_moved_right(p)) == p,
{
}

/// A piece that does not collide sits with its anchor inside or just left of
/// the board: these bounds keep every translation of one step exact.
pub proof fn lemma_noncolliding_anchor_bounds(b: Seq<Seq<u8>>, p: ActiveBlock)
    requires
        p.wf(),
        !spec_collides(b, p.spec_cells()),
    ensures
        p.position.0 < BOARD_ROWS,
        -3 <= p.position.1 < BOARD_COLS,
{
    lemma_rot_cells_in_local_space(p.block.block_type, p.block.rotation_counter@);
    assert(!cell_blocked(b, p.spec_cells()[0].0, p.spec_cells()[0].1));
}

impl Board {
    /// True iff any of the piece's four board-space cells lies outside the
    /// board or on an occupied cell.
    pub fn collides(&self, piece: &ActiveBlock) -> (r: bool)
        requires
            self.wf(),
            piece.wf(),
        ensures
            r == spec_collides(self@, piece.spec_cells()),
    {
        proof {
            lemma_rot_cells_in_local_space(piece.block.block_type, piece.block.rotation_counter@);
        }
        if piece.position.0 > BOARD_ROWS {
            proof {
                assert(cell_blocked(self@, piece.spec_cells()[0].0, piece.spec_cells()[0].1));
            }
            return true;
        }
        if piece.position.1 > BOARD_COLS as i64 {
            proof {
                assert(cell_blocked(self@, piece.spec_cells()[0].0, piece.spec_cells()[0].1));
            }
            return true;
        }
        let rot = piece.block.rotation();
        let mut k: usize = 0;
        while k < 4
            invariant
                self.wf(),
                piece.wf(),
                piece.position.0 <= BOARD_ROWS,
                piece.position.1 <= BOARD_COLS as i64,
                rotation_matches(rot, piece.block.block_type, piece.block.rotation_counter@),
                k <= 4,
                forall|m: int|
                    0 <= m < k ==> !cell_blocked(
                        self@,
                        (#[trigger] piece.spec_cells()[m]).0,
                        piece.spec_cells()[m].1,
                    ),
            decreases 4 - k,
        {
            proof {
                lemma_rot_cells_in_local_space(
                    piece.block.block_type,
                    piece.block.rotation_counter@,
                );
            }
            let (pr, pc) = rot.positions[k];
            let row = piece.position.0 + pr;
            if row >= BOARD_ROWS {
                proof {
                    assert(cell_blocked(
                        self@,
                        piece.spec_cells()[k as int].0,
                        piece.spec_cells()[k as int].1,
                    ));
                }
                return true;
            }
            let col = piece.position.1 + pc as i64;
            if col < 0 || col >= BOARD_COLS as i64 {
                proof {
                    assert(cell_blocked(
                        self@,
                        piece.spec_cells()[k as int].0,
                        piece.spec_cells()[k as int].1,
                    ));
                }
                return true;
            }
            proof {
                assert(self@[row as int] == self.0@[row as int]@);
            }
            if self.0[row][col as usize] != 0 {
                proof {
                    assert(cell_blocked(
                        self@,
                        piece.spec_cells()[k as int].0,
                        piece.spec_cells()[k as int].1,
                    ));
                }
                return true;
            }
            proof {
                assert(!cell_blocked(
                    self@,
                    piece.spec_cells()[k as int].0,
                    piece.spec_cells()[k as int].1,
                ));
            }
            k += 1;
        }
        false
    }

    /// Writes the piece's four cells into the board as occupied, tagged with
    /// the piece's kind. The piece must not collide.
    pub fn fix_active_piece(&mut self, piece: &ActiveBlock)
        requires
            old(self).wf(),
            piece.wf(),
            !spec_collides(old(self)@, piece.spec_cells()),
        ensures
            final(self).wf(),
            final(self)@ == board_with_piece(
                old(self)@,
                piece.spec_cells(),
                spec_type_code(piece.block.block_type),
            ),
    {
        let ghost b0 = self@;
        let ghost cells = piece.spec_cells();
        let code = type_code(piece.block.block_type());
        let rot = piece.block.rotation();
        proof {
            assert(cells.take(0) =~= Seq::<(int, int)>::empty());
            assert(self@ =~~= board_with_piece(b0, cells.take(0), code));
        }
        let mut k: usize = 0;
        while k < 4
            invariant
                old(self).wf(),
                piece.wf(),
                b0 == old(self)@,
                cells == piece.spec_cells(),
                code == spec_type_code(piece.block.block_type),
                !spec_collides(b0, cells),
                rotation_matches(rot, piece.block.block_type, piece.block.rotation_counter@),
                k <= 4,
                self@ == board_with_piece(b0, cells.take(k as int), code),
            decreases 4 - k,
        {
            proof {
                assert(!cell_blocked(b0, cells[k as int].0, cells[k as int].1));
            }
            let (pr, pc) = rot.positions[k];
            proof {
                assert(rot.positions@[k as int] == rot_cells(
                    piece.block.block_type,
                    piece.block.rotation_counter@,
                )[k as int]);
            }
            let row_i = piece.position.0 + pr;
            let col_i = (piece.position.1 + pc as i64) as usize;
            proof {
                assert(cells[k as int] == (row_i as int, col_i as int));
                assert(self@.len() == b0.len());
                assert(self@[row_i as int].len() == b0[row_i as int].len());
            }
            let ghost prev = self@;
            proof {
                assert(prev[row_i as int] == self.0@[row_i as int]@);
            }
            let mut row = copy_row(&self.0[row_i]);
            row[col_i] = code;
            self.0[row_i] = row;
            proof {
                assert(self@.len() == prev.len());
                assert(self@[row_i as int] =~= prev[row_i as int].update(col_i as int, code));
                assert forall|i: int|
                    0 <= i < prev.len() && i != row_i as int implies self@[i] == prev[i] by {
                    assert(self@[i] == self.0@[i]@);
                }
                assert(cells.take(k + 1) =~= cells.take(k as int).push(cells[k as int]));
                assert forall|x: (int, int)| #[trigger]
                    cells.take(k + 1).contains(x) == (cells.take(k as int).contains(x) || x
                    == cells[k as int]) by {
                    if cells.take(k as int).contains(x) || x == cells[k as int] {
                        if cells.take(k as int).contains(x) {
                            let m = choose|m: int|
                                0 <= m < k && #[trigger] cells.take(k as int)[m] == x;
                            assert(cells.take(k + 1)[m] == x);
                        } else {
                            assert(cells.take(k + 1)[k as int] == x);
                        }
                    }
                    if cells.take(k + 1).contains(x) {
                        let m = choose|m: int| 0 <= m < k + 1 && #[trigger] cells.take(k + 1)[m] == x;
                        if m < k {
                            assert(cells.take(k as int)[m] == x);
                        }
                    }
                }
                let bw = board_with_piece(b0, cells.take(k + 1), code);
                let bwk = board_with_piece(b0, cells.take(k as int), code);
                assert forall|i: int| 0 <= i < self@.len() implies self@[i] == bw[i] by {
                    if i == row_i as int {
                        assert forall|j: int|
                            0 <= j < b0[i].len() implies self@[i][j] == bw[i][j] by {
                            if j == col_i as int {
                                assert(cells.take(k + 1).contains((i, j)));
                                assert(bw[i][j] == code);
                            } else {
                                assert(self@[i][j] == prev[i][j]);
                                assert(prev[i][j] == bwk[i][j]);
                                assert(cells.take(k + 1).contains((i, j)) == cells.take(
                                    k as int,
                                ).contains((i, j)));
                            }
                        }
                        assert(self@[i] =~= bw[i]);
                    } else {
                        assert(self@[i] == prev[i]);
                        assert(prev[i] == bwk[i]);
                        assert forall|j: int|
                            0 <= j < b0[i].len() implies bwk[i][j] == bw[i][j] by {
                            assert(cells.take(k + 1).contains((i, j)) == cells.take(
                                k as int,
                            ).contains((i, j)));
                        }
                        assert(bwk[i] =~= bw[i]);
                    }
                }
                assert(self@ =~= board_with_piece(b0, cells.take(k + 1), code));
            }
            k += 1;
        }
        proof {
            assert(cells.take(4) =~= cells);
        }
    }

    /// True iff row `i` holds any occupied cell.
    pub fn row_occupied(&self, i: usize) -> (r: bool)
        requires
            self.wf(),
            i < BOARD_ROWS,
        ensures
            r == !crate::board::row_empty(self@[i as int]),
    {
        proof {
            assert(self@[i as int] == self.0@[i as int]@);
        }
        let row = &self.0[i];
        let mut j: usize = 0;
        while j < BOARD_COLS
            invariant
                j <= BOARD_COLS,
                row@ == self@[i as int],
                row@.len() == BOARD_COLS,
                forall|k: int| 0 <= k < j ==> #[trigger] row@[k] == 0,
            decreases BOARD_COLS - j,
        {
            if row[j] != 0 {
                return true;
            }
            j += 1;
        }
        false
    }
}

/// The buffer-zone shape invariant: the upper buffer row can only be occupied
/// when the lower one is, because no landed piece can touch row zero without
/// also touching row one.
pub open spec fn buffer_rows_monotone(b: Seq<Seq<u8>>) -> bool {
    row_empty(b[1]) ==> row_empty(b[0])
}

/// No piece can spawn into a collision while the buffer zone is clear.
pub proof fn lemma_spawn_piece_no_collision(b: Seq<Seq<u8>>, blk: Block)
    requires
        b.len() == BOARD_ROWS,
        forall|i: int| 0 <= i < b.len() ==> (#[trigger] b[i]).len() == BOARD_COLS,
        row_empty(b[0]),
        row_empty(b[1]),
        blk.wf(),
        rot_vertical_offset(blk.block_type, blk.rotation_counter@) + rot_height(
            blk.block_type,
            blk.rotation_counter@,
        ) <= BUFFER_ZONE_ROWS,
    ensures
        !spec_collides(b, spec_spawn(blk).spec_cells()),
{
    let bt = blk.block_type;
    let i = blk.rotation_counter@;
    lemma_rot_cells_in_local_space(bt, i);
    lemma_rot_cells_in_bounding_box(bt, i);
    let p = spec_spawn(blk);
    assert forall|k: int|
        0 <= k < 4 implies !cell_blocked(
        b,
        (#[trigger] p.spec_cells()[k]).0,
        p.spec_cells()[k].1,
    ) by {
        let c = rot_cells(bt, i)[k];
        let row = p.spec_cells()[k].0;
        let col = p.spec_cells()[k].1;
        assert(0 <= row < BUFFER_ZONE_ROWS);
        assert(0 <= col < BOARD_COLS);
        if row == 0 {
            assert(b[0][col] == 0);
        } else {
            assert(b[1][col] == 0);
        }
    }
}

/// Affixing a non-colliding piece preserves the buffer-zone shape invariant.
pub proof fn lemma_fix_preserves_monotone(b: Seq<Seq<u8>>, p: ActiveBlock)
    requires
        b.len() == BOARD_ROWS,
        forall|i: int| 0 <= i < b.len() ==> (#[trigger] b[i]).len() == BOARD_COLS,
        buffer_rows_monotone(b),
        p.wf(),
        !spec_collides(b, p.spec_cells()),
    ensures
        buffer_rows_monotone(
            board_with_piece(b, p.spec_cells(), spec_type_code(p.block.block_type)),
        ),
{
    let bt = p.block.block_type;
    let ri = p.block.rotation_counter@;
    let code = spec_type_code(bt);
    let cells = p.spec_cells();
    let nb = board_with_piece(b, cells, code);
    lemma_rot_cells_in_local_space(bt, ri);
    if row_empty(nb[1]) {
        // No cell of the piece lies in row one: it would be a nonzero cell of
        // the new board's row one.
        assert forall|k: int| 0 <= k < 4 implies (#[trigger] cells[k]).0 != 1 by {
            if cells[k].0 == 1 {
                let j = cells[k].1;
                assert(!cell_blocked(b, cells[k].0, cells[k].1));
                assert(cells.contains((1, j)));
                assert(nb[1][j] == code);
                assert(nb[1][j] == 0);
            }
        }
        // Hence no cell lies in row zero either: a rotation with a cell in
        // local row zero also has one in local row one.
        assert forall|k: int| 0 <= k < 4 implies (#[trigger] cells[k]).0 != 0 by {
            if cells[k].0 == 0 {
                assert(p.position.0 == 0);
                assert(rot_cells(bt, ri)[k].0 == 0);
                lemma_cells_row_zero_implies_row_one(bt, ri);
                let k1 = choose|k1: int| 0 <= k1 < 4 && (#[trigger] rot_cells(bt, ri)[k1]).0 == 1;
                assert(cells[k1].0 == 1);
            }
        }
        // Row one of the old board was empty, so row zero was too, and the
        // piece changed neither.
        assert forall|j: int| 0 <= j < b[1].len() implies #[trigger] b[1][j] == 0 by {
            if cells.contains((1, j)) {
                let k = choose|k: int| 0 <= k < cells.len() && #[trigger] cells[k] == (1int, j);
                assert(cells[k].0 == 1);
            }
            assert(nb[1][j] == b[1][j]);
        }
        assert(row_empty(b[1]));
        assert forall|j: int| 0 <= j < nb[0].len() implies #[trigger] nb[0][j] == 0 by {
            if cells.contains((0, j)) {
                let k = choose|k: int| 0 <= k < cells.len() && #[trigger] cells[k] == (0int, j);
                assert(cells[k].0 == 0);
            }
            assert(nb[0][j] == b[0][j]);
        }
    }
}

/// A board whose every row survives clearance is returned unchanged.
proof fn lemma_full_survival(b: Seq<Seq<u8>>)
    requires
        surviving_rows(b).len() == b.len(),
    ensures
        surviving_rows(b) == b,
    decreases b.len(),
{
    if b.len() > 0 {
        lemma_surviving_len(b.drop_last());
        assert(!row_complete(b.last()));
        lemma_full_survival(b.drop_last());
        assert(surviving_rows(b) =~= b);
    } else {
        assert(surviving_rows(b) =~= b);
    }
}

/// Line clearance preserves the buffer-zone shape invariant.
pub proof fn lemma_clear_preserves_monotone(b: Seq<Seq<u8>>)
    requires
        b.len() == BOARD_ROWS,
        buffer_rows_monotone(b),
    ensures
        buffer_rows_monotone(cleared_board(b)),
{
    lemma_surviving_len(b);
    let n = b.len() - surviving_rows(b).len();
    if n == 0 {
        lemma_full_survival(b);
        assert(cleared_board(b) =~= b);
    } else {
        assert(cleared_board(b)[0] == empty_row());
        assert(row_empty(empty_row()));
    }
}

/// State machine representing one game: the playfield, the falling piece, the
/// look-ahead queue, the piece generator, the score and the game-over flag.
pub struct GameState {
    pub score: u32,
    pub board: Board,
    pub block_generator: BlockGenerator,
    pub active_block: ActiveBlock,
    pub queue: Vec<Block>,
    pub game_over: bool,
}

/// How landing transforms the game: the active piece is affixed, completed
/// rows are cleared, the score grows by one point per cleared row (saturating
/// at the numeric limit), and then either the buffer zone is occupied and the
/// game ends, or the queue's head spawns as the new active piece and a fresh
/// piece joins the queue's tail.
pub open spec fn spec_landed(pre: GameState, post: GameState) -> bool {
    let fixed = board_with_piece(
        pre.board@,
        pre.active_block.spec_cells(),
        spec_type_code(pre.active_block.block.block_type),
    );
    let cleared = cleared_board(fixed);
    let n = fixed.len() - surviving_rows(fixed).len();
    &&& post.board@ == cleared
    &&& post.score == if pre.score + n <= u32::MAX {
        (pre.score + n) as u32
    } else {
        u32::MAX
    }
    &&& post.game_over == !row_empty(cleared[1])
    &&& if post.game_over {
        post.active_block == pre.active_block && post.queue == pre.queue
    } else {
        &&& post.active_block == spec_spawn(pre.queue@[0])
        &&& post.queue@.len() == QUEUE_LEN
        &&& post.queue@.take(QUEUE_LEN - 1) == pre.queue@.skip(1)
        &&& post.queue@[QUEUE_LEN - 1].wf()
        &&& post.queue@[QUEUE_LEN - 1].rotation_counter@ == 0
    }
}

/// What one event does to a live game: `Quit` changes nothing; a move or a
/// rotation is applied and undone if it would collide; gravity drops the
/// piece one row, or lands it when it cannot drop.
pub open spec fn spec_update(pre: GameState, post: GameState, event: Event) -> bool {
    match event {
        Event::Quit => post == pre,
        Event::Move(d) => {
            let moved = spec_piece_moved(pre.active_block, d);
            if spec_collides(pre.board@, moved.spec_cells()) {
                post == pre
            } else {
                post == GameState { active_block: moved, ..pre }
            }
        },
        Event::Rotate(d) => {
            let turned = spec_piece_rotated(pre.active_block, d);
            if spec_collides(pre.board@, turned.spec_cells()) {
                post == pre
            } else {
                post == GameState { active_block: turned, ..pre }
            }
        },
        Event::Gravity => {
            let dropped = spec_moved_down(pre.active_block);
            if spec_collides(pre.board@, dropped.spec_cells()) {
                spec_landed(pre, post)
            } else {
                post == GameState { active_block: dropped, ..pre }
            }
        },
    }
}

impl GameState {
    /// Everything the game relies on between events: a full-size board obeying
    /// the buffer-zone shape invariant, a full queue of fresh pieces, and,
    /// while the game is live, an active piece free of collision.
    pub open spec fn wf(&self) -> bool {
        &&& self.board.wf()
        &&& buffer_rows_monotone(self.board@)
        &&& self.queue@.len() == QUEUE_LEN
        &&& (forall|i: int|
            0 <= i < self.queue@.len() ==> (#[trigger] self.queue@[i]).wf()
                && self.queue@[i].rotation_counter@ == 0)
        &&& self.active_block.wf()
        &&& (!self.game_over ==> !spec_collides(self.board@, self.active_block.spec_cells()))
    }

    /// Starts a game on an empty board: one piece is drawn as the active
    /// piece and the queue is filled with three more.
    pub fn new(block_generator: BlockGenerator) -> (r: Self)
        ensures
            r.wf(),
            r.score == 0,
            !r.game_over,
            r.board@ == crate::board::empty_rows(BOARD_ROWS as int),
            r.active_block.block.rotation_counter@ == 0,
            r.active_block == spec_spawn(r.active_block.block),
    {
        let mut generator = block_generator;
        let first = generator.block();
        proof {
            lemma_spawn_rotation_fits_buffer(first.block_type);
        }
        let active_block = ActiveBlock::new(first);
        let mut queue: Vec<Block> = Vec::new();
        queue.push(generator.block());
        queue.push(generator.block());
        queue.push(generator.block());
        let board = Board::new();
        let r = GameState {
            score: 0,
            board,
            block_generator: generator,
            active_block,
            queue,
            game_over: false,
        };
        proof {
            assert(row_empty(r.board@[0]));
            assert(row_empty(r.board@[1]));
            lemma_spawn_piece_no_collision(r.board@, first);
        }
        r
    }

    /// Assembles a game from explicit parts, to set up a position: succeeds
    /// exactly when the parts form a well-formed live game.
    pub fn from_parts(
        board: Board,
        active_block: ActiveBlock,
        queue: Vec<Block>,
        block_generator: BlockGenerator,
    ) -> (r: Option<GameState>)
        requires
            board.wf(),
            active_block.wf(),
            forall|i: int| 0 <= i < queue@.len() ==> (#[trigger] queue@[i]).wf(),
        ensures
            (r is Some) == (queue@.len() == QUEUE_LEN && (forall|i: int|
                0 <= i < queue@.len() ==> (#[trigger] queue@[i]).rotation_counter@ == 0)
                && !spec_collides(board@, active_block.spec_cells()) && buffer_rows_monotone(
                board@,
            )),
            r is Some ==> r.unwrap() == (GameState {
                score: 0,
                board,
                block_generator,
                active_block,
                queue,
                game_over: false,
            }),
            r is Some ==> r.unwrap().wf(),
    {
        if queue.len() != QUEUE_LEN {
            return None;
        }
        let mut i: usize = 0;
        while i < QUEUE_LEN
            invariant
                queue@.len() == QUEUE_LEN,
                i <= QUEUE_LEN,
                forall|m: int| 0 <= m < i ==> (#[trigger] queue@[m]).rotation_counter@ == 0,
            decreases QUEUE_LEN - i,
        {
            if queue[i].rotation_counter.0 != 0 {
                return None;
            }
            i += 1;
        }
        if board.collides(&active_block) {
            return None;
        }
        if !board.row_occupied(1) && board.row_occupied(0) {
            return None;
        }
        Some(
            GameState {
                score: 0,
                board,
                block_generator,
                active_block,
                queue,
                game_over: false,
            },
        )
    }

    pub fn score(&self) -> (r: u32)
        ensures
            r == self.score,
    {
        self.score
    }

    pub fn game_over(&self) -> (r: bool)
        ensures
            r == self.game_over,
    {
        self.game_over
    }

    /// The look-ahead queue, a contiguous read-only view.
    pub fn queue(&self) -> (r: &Vec<Block>)
        ensures
            r@ == self.queue@,
    {
        &self.queue
    }

    /// The playfield, for rendering.
    pub fn board(&self) -> (r: &Board)
        ensures
            *r == self.board,
    {
        &self.board
    }

    /// The falling piece, for rendering.
    pub fn active_block(&self) -> (r: &ActiveBlock)
        ensures
            *r == self.active_block,
    {
        &self.active_block
    }

    /// The landing procedure: affix, clear, score, then end the game or spawn
    /// the next piece.
    fn land(&mut self)
        requires
            old(self).wf(),
            !old(self).game_over,
        ensures
            final(self).wf(),
            spec_landed(*old(self), *final(self)),
            final(self).score >= old(self).score,
    {
        let ghost b0 = self.board@;
        let ghost cells = self.active_block.spec_cells();
        let ghost code = spec_type_code(self.active_block.block.block_type);
        self.board.fix_active_piece(&self.active_block);
        proof {
            lemma_fix_preserves_monotone(b0, self.active_block);
            lemma_clear_preserves_monotone(self.board@);
        }
        let n = self.board.clear_lines();
        if self.score > u32::MAX - n as u32 {
            self.score = u32::MAX;
        } else {
            self.score = self.score + n as u32;
        }
        if self.board.buffer_zone_occupied() {
            self.game_over = true;
        } else {
            let next = self.queue.remove(0);
            proof {
                lemma_spawn_rotation_fits_buffer(next.block_type);
            }
            self.active_block = ActiveBlock::new(next);
            let fresh = self.block_generator.block();
            self.queue.push(fresh);
            proof {
                assert(row_empty(self.board@[0]));
                lemma_spawn_piece_no_collision(self.board@, next);
                assert(self.queue@.take(QUEUE_LEN - 1) =~= old(self).queue@.skip(1));
            }
        }
    }

    /// Applies one event to the game. After the game is over every event is
    /// ignored; the returned flag tells the host a quit was requested.
    pub fn update(&mut self, event: Event) -> (quit: bool)
        requires
            old(self).wf(),
        ensures
            final(self).wf(),
            quit == (event == Event::Quit),
            final(self).score >= old(self).score,
            old(self).game_over ==> *final(self) == *old(self),
            !old(self).game_over ==> spec_update(*old(self), *final(self), event),
    {
        if self.game_over {
            return matches!(event, Event::Quit);
        }
        proof {
            lemma_noncolliding_anchor_bounds(self.board@, self.active_block);
        }
        match event {
            Event::Quit => true,
            Event::Move(d) => {
                match d {
                    Direction::Left => self.active_block.move_left(),
                    Direction::Right => self.active_block.move_right(),
                }
                if self.board.collides(&self.active_block) {
                    match d {
                        Direction::Left => self.active_block.move_right(),
                        Direction::Right => self.active_block.move_left(),
                    }
                    proof {
                        assert(*self == *old(self));
                    }
                }
                false
            },
            Event::Rotate(d) => {
                match d {
                    Direction::Left => self.active_block.rotate_counter_clockwise(),
                    Direction::Right => self.active_block.rotate_clockwise(),
                }
                if self.board.collides(&self.active_block) {
                    match d {
                        Direction::Left => self.active_block.rotate_clockwise(),
                        Direction::Right => self.active_block.rotate_counter_clockwise(),
                    }
                    proof {
                        assert(*self == *old(self));
                    }
                }
                false
            },
            Event::Gravity => {
                self.active_block.move_down();
                if self.board.collides(&self.active_block) {
                    self.active_block.move_up();
                    proof {
                        assert(*self == *old(self));
                    }
                    self.land();
                }
                false
            },
        }
    }
}

/// Law: for the O piece, turning in either direction yields the same board
/// cells from the same anchor.
pub proof fn lemma_o_piece_rotation_cells_unchanged(p: ActiveBlock, d: Direction)
    requires
        p.wf(),
        p.block.block_type == BlockType::O,
    ensures
        spec_piece_rotated(p, d).spec_cells() == p.spec_cells(),
{
    assert(spec_piece_rotated(p, d).spec_cells() =~= p.spec_cells());
}

} // verus!

