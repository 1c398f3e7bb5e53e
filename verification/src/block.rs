//! The kinds of piece, their rotation tables, the state of a piece in play,
//! and the random piece generator.
use vstd::prelude::*;

use crate::rotation::{Position, Rotation, RotationIndex, Rotations};
use crate::{BOARD_COLS, BUFFER_ZONE_ROWS};

verus! {

/// How many kinds of piece the generator may emit.
pub const N_BLOCK_TYPES: u8 = 3;

/// The varieties of piece that may be seen in a game.
#[derive(Copy, Clone, Debug, PartialEq, Eq, Structural)]
pub enum BlockType {
    I,
    J,
    O,
}

/// The minimum row over the cells of rotation `i` of a `bt` piece.
pub open spec fn rot_vertical_offset(bt: BlockType, i: int) -> int {
    match bt {
        BlockType::I => if i == 0 { 1 } else if i == 2 { 2 } else { 0 },
        BlockType::J => if i == 2 { 1 } else { 0 },
        BlockType::O => 0,
    }
}

/// The minimum column over the cells of rotation `i` of a `bt` piece.
pub open spec fn rot_horizontal_offset(bt: BlockType, i: int) -> int {
    match bt {
        BlockType::I => if i == 1 { 2 } else if i == 3 { 1 } else { 0 },
        BlockType::J => if i == 1 { 1 } else { 0 },
        BlockType::O => 0,
    }
}

/// The bounding-box width of rotation `i` of a `bt` piece.
pub open spec fn rot_width(bt: BlockType, i: int) -> int {
    match bt {
        BlockType::I => if i == 0 || i == 2 { 4 } else { 1 },
        BlockType::J => if i == 0 || i == 2 { 3 } else { 2 },
        BlockType::O => 2,
    }
}

/// The bounding-box height of rotation `i` of a `bt` piece.
pub open spec fn rot_height(bt: BlockType, i: int) -> int {
    match bt {
        BlockType::I => if i == 0 || i == 2 { 1 } else { 4 },
        BlockType::J => if i == 0 || i == 2 { 2 } else { 3 },
        BlockType::O => 2,
    }
}

/// The `k`-th cell of rotation `i` of a `bt` piece in its local coordinate
/// space; cells are listed in ascending row-then-column order.
pub open spec fn rot_cell(bt: BlockType, i: int, k: int) -> Position {
    match bt {
        BlockType::I => {
            if i == 0 {
                if k == 0 { (1usize, 0usize) } else if k == 1 { (1usize, 1usize) }
                else if k == 2 { (1usize, 2usize) } else { (1usize, 3usize) }
            } else if i == 1 {
                if k == 0 { (0usize, 2usize) } else if k == 1 { (1usize, 2usize) }
                else if k == 2 { (2usize, 2usize) } else { (3usize, 2usize) }
            } else if i == 2 {
                if k == 0 { (2usize, 0usize) } else if k == 1 { (2usize, 1usize) }
                else if k == 2 { (2usize, 2usize) } else { (2usize, 3usize) }
            } else {
                if k == 0 { (0usize, 1usize) } else if k == 1 { (1usize, 1usize) }
                else if k == 2 { (2usize, 1usize) } else { (3usize, 1usize) }
            }
        },
        BlockType::J => {
            if i == 0 {
                if k == 0 { (0usize, 0usize) } else if k == 1 { (1usize, 0usize) }
                else if k == 2 { (1usize, 1usize) } else { (1usize, 2usize) }
            } else if i == 1 {
                if k == 0 { (0usize, 1usize) } else if k == 1 { (0usize, 2usize) }
                else if k == 2 { (1usize, 1usize) } else { (2usize, 1usize) }
            } else if i == 2 {
                if k == 0 { (1usize, 0usize) } else if k == 1 { (1usize, 1usize) }
                else if k == 2 { (1usize, 2usize) } else { (2usize, 2usize) }
            } else {
                if k == 0 { (0usize, 1usize) } else if k == 1 { (1usize, 1usize) }
                else if k == 2 { (2usize, 0usize) } else { (2usize, 1usize) }
            }
        },
        BlockType::O => {
            if k == 0 { (0usize, 0usize) } else if k == 1 { (0usize, 1usize) }
            else if k == 2 { (1usize, 0usize) } else { (1usize, 1usize) }
        },
    }
}

/// The four cells of rotation `i` of a `bt` piece in its local coordinate
/// space, in ascending row-then-column order.
pub open spec fn rot_cells(bt: BlockType, i: int) -> Seq<Position> {
    Seq::new(4, |k: int| rot_cell(bt, i, k))
}

/// Whether an executable `Rotation` record agrees with the geometry model for
/// rotation `i` of a `bt` piece.
pub open spec fn rotation_matches(r: Rotation, bt: BlockType, i: int) -> bool {
    &&& r.vertical_offset == rot_vertical_offset(bt, i)
    &&& r.horizontal_offset == rot_horizontal_offset(bt, i)
    &&& r.width == rot_width(bt, i)
    &&& r.height == rot_height(bt, i)
    &&& r.positions@ == rot_cells(bt, i)
}

impl BlockType {
    /// Returns all the rotations a piece of this kind may be turned into.
    pub fn rotations(&self) -> (r: Rotations)
        ensures
            forall|i: int| 0 <= i < 4 ==> rotation_matches(#[trigger] r.0[i], *self, i),
    {
        let r = match self {
            BlockType::I => Rotations(
                [
                    Rotation {
                        vertical_offset: 1,
                        horizontal_offset: 0,
                        width: 4,
                        height: 1,
                        positions: [(1, 0), (1, 1), (1, 2), (1, 3)],
                    },
                    Rotation {
                        vertical_offset: 0,
                        horizontal_offset: 2,
                        width: 1,
                        height: 4,
                        positions: [(0, 2), (1, 2), (2, 2), (3, 2)],
                    },
                    Rotation {
                        vertical_offset: 2,
                        horizontal_offset: 0,
                        width: 4,
                        height: 1,
                        positions: [(2, 0), (2, 1), (2, 2), (2, 3)],
                    },
                    Rotation {
                        vertical_offset: 0,
                        horizontal_offset: 1,
                        width: 1,
                        height: 4,
                        positions: [(0, 1), (1, 1), (2, 1), (3, 1)],
                    },
                ],
            ),
            BlockType::J => Rotations(
                [
                    Rotation {
                        vertical_offset: 0,
                        horizontal_offset: 0,
                        width: 3,
                        height: 2,
                        positions: [(0, 0), (1, 0), (1, 1), (1, 2)],
                    },
                    Rotation {
                        vertical_offset: 0,
                        horizontal_offset: 1,
                        width: 2,
                        height: 3,
                        positions: [(0, 1), (0, 2), (1, 1), (2, 1)],
                    },
                    Rotation {
                        vertical_offset: 1,
                        horizontal_offset: 0,
                        width: 3,
                        height: 2,
                        positions: [(1, 0), (1, 1), (1, 2), (2, 2)],
                    },
                    Rotation {
                        vertical_offset: 0,
                        horizontal_offset: 0,
                        width: 2,
                        height: 3,
                        positions: [(0, 1), (1, 1), (2, 0), (2, 1)],
                    },
                ],
            ),
            BlockType::O => Rotations(
                [
                    Rotation {
                        vertical_offset: 0,
                        horizontal_offset: 0,
                        width: 2,
                        height: 2,
                        positions: [(0, 0), (0, 1), (1, 0), (1, 1)],
                    },
                    Rotation {
                        vertical_offset: 0,
                        horizontal_offset: 0,
                        width: 2,
                        height: 2,
                        positions: [(0, 0), (0, 1), (1, 0), (1, 1)],
                    },
                    Rotation {
                        vertical_offset: 0,
                        horizontal_offset: 0,
                        width: 2,
                        height: 2,
                        positions: [(0, 0), (0, 1), (1, 0), (1, 1)],
                    },
                    Rotation {
                        vertical_offset: 0,
                        horizontal_offset: 0,
                        width: 2,
                        height: 2,
                        positions: [(0, 0), (0, 1), (1, 0), (1, 1)],
                    },
                ],
            ),
        };
        proof {
            assert forall|i: int| 0 <= i < 4 implies rotation_matches(#[trigger] r.0[i], *self, i) by {
                assert(r.0[i].positions@ =~= rot_cells(*self, i));
            }
        }
        r
    }
}

/// Law: every rotation of every piece kind has exactly four cells, and all of
/// them lie inside the local 4x4 coordinate space.
pub proof fn lemma_rot_cells_in_local_space(bt: BlockType, i: int)
    requires
        0 <= i < 4,
    ensures
        rot_cells(bt, i).len() == 4,
        forall|k: int|
            0 <= k < 4 ==> 0 <= (#[trigger] rot_cells(bt, i)[k]).0 < 4 && 0 <= rot_cells(
                bt,
                i,
            )[k].1 < 4,
{
}

/// Every cell of a rotation lies inside the rotation's bounding box.
pub proof fn lemma_rot_cells_in_bounding_box(bt: BlockType, i: int)
    requires
        0 <= i < 4,
    ensures
        forall|k: int|
            0 <= k < 4 ==> {
                let c = #[trigger] rot_cells(bt, i)[k];
                &&& rot_vertical_offset(bt, i) <= c.0 < rot_vertical_offset(bt, i) + rot_height(
                    bt,
                    i,
                )
                &&& rot_horizontal_offset(bt, i) <= c.1 < rot_horizontal_offset(bt, i) + rot_width(
                    bt,
                    i,
                )
            },
{
}

/// Every piece's spawn rotation exactly fills the height of the buffer zone
/// and fits the board's width.
pub proof fn lemma_spawn_rotation_fits_buffer(bt: BlockType)
    ensures
        rot_vertical_offset(bt, 0) + rot_height(bt, 0) == BUFFER_ZONE_ROWS,
        rot_width(bt, 0) <= BOARD_COLS,
{
}

/// A rotation with a cell in local row zero also has a cell in local row one;
/// hence a landed piece can never occupy the upper buffer row without also
/// occupying the lower one.
pub proof fn lemma_cells_row_zero_implies_row_one(bt: BlockType, i: int)
    requires
        0 <= i < 4,
        exists|k: int| 0 <= k < 4 && (#[trigger] rot_cells(bt, i)[k]).0 == 0,
    ensures
        exists|k: int| 0 <= k < 4 && (#[trigger] rot_cells(bt, i)[k]).0 == 1,
{
    assert(rot_vertical_offset(bt, i) == 0);
    assert(rot_cells(bt, i)[1].0 == 1 || rot_cells(bt, i)[2].0 == 1);
}

/// The piece after one clockwise turn.
pub open spec fn spec_rotated_clockwise(b: Block) -> Block {
    Block {
        block_type: b.block_type,
        rotation_counter: RotationIndex(((b.rotation_counter.0 + 1) % 4) as usize),
    }
}

/// The piece after one counter-clockwise turn.
pub open spec fn spec_rotated_counter_clockwise(b: Block) -> Block {
    Block {
        block_type: b.block_type,
        rotation_counter: RotationIndex(((b.rotation_counter.0 + 3) % 4) as usize),
    }
}

/// Law: turning a piece four times in the same direction, either way round,
/// returns it to its starting rotation.
pub proof fn lemma_rotate_four_times_identity(b: Block)
    requires
        b.wf(),
    ensures
        spec_rotated_clockwise(
            spec_rotated_clockwise(spec_rotated_clockwise(spec_rotated_clockwise(b))),
        ) == b,
        spec_rotated_counter_clockwise(
            spec_rotated_counter_clockwise(
                spec_rotated_counter_clockwise(spec_rotated_counter_clockwise(b)),
            ),
        ) == b,
{
}

/// Law: a clockwise turn followed by a counter-clockwise turn, or the other
/// way round, is the identity on a piece.
pub proof fn lemma_rotate_round_trip_identity(b: Block)
    requires
        b.wf(),
    ensures
        spec_rotated_counter_clockwise(spec_rotated_clockwise(b)) == b,
        spec_rotated_clockwise(spec_rotated_counter_clockwise(b)) == b,
{
}

/// The state of a piece in play: its kind and its current rotation.
#[derive(Copy, Clone, Debug, PartialEq, Eq, Structural)]
pub struct Block {
    pub block_type: BlockType,
    pub rotation_counter: RotationIndex,
}

impl Block {
    /// A piece's rotation counter always selects one of the four rotations.
    pub open spec fn wf(&self) -> bool {
        self.rotation_counter.wf()
    }

    pub fn new(block_type: BlockType) -> (r: Self)
        ensures
            r.block_type == block_type,
            r.rotation_counter@ == 0,
            r.wf(),
    {
        Block { block_type, rotation_counter: RotationIndex::new() }
    }

    pub fn block_type(&self) -> (r: BlockType)
        ensures
            r == self.block_type,
    {
        self.block_type
    }

    /// Returns the piece's current rotation record.
    pub fn rotation(&self) -> (r: Rotation)
        requires
            self.wf(),
        ensures
            rotation_matches(r, self.block_type, self.rotation_counter@),
    {
        self.block_type.rotations().index(self.rotation_counter)
    }

    /// The width of the piece's bounding box in its current rotation.
    pub fn width(&self) -> (r: usize)
        requires
            self.wf(),
        ensures
            r == rot_width(self.block_type, self.rotation_counter@),
    {
        self.rotation().width
    }

    /// The height of the piece's bounding box in its current rotation.
    pub fn height(&self) -> (r: usize)
        requires
            self.wf(),
        ensures
            r == rot_height(self.block_type, self.rotation_counter@),
    {
        self.rotation().height
    }

    /// Turns the piece clockwise, returning its new rotation record.
    pub fn rotate_clockwise(&mut self) -> (r: Rotation)
        requires
            old(self).wf(),
        ensures
            final(self).wf(),
            *final(self) == spec_rotated_clockwise(*old(self)),
            rotation_matches(r, final(self).block_type, final(self).rotation_counter@),
    {
        self.rotation_counter.inc();
        self.rotation()
    }

    /// Turns the piece counter-clockwise, returning its new rotation record.
    pub fn rotate_counter_clockwise(&mut self) -> (r: Rotation)
        requires
            old(self).wf(),
        ensures
            final(self).wf(),
            *final(self) == spec_rotated_counter_clockwise(*old(self)),
            rotation_matches(r, final(self).block_type, final(self).rotation_counter@),
    {
        self.rotation_counter.dec();
        self.rotation()
    }
}

/// Declares rand's standard random number generator so a value of it can be
/// held and passed through; Verus sees nothing inside it.
#[verifier::external_type_specification]
#[verifier::external_body]
pub struct ExStdRng(rand::rngs::StdRng);

/// Relies on rand_distr::Uniform::new_inclusive and Distribution::sample:
/// new_inclusive(low, high) succeeds whenever low <= high, and a sample from
/// it lies in the closed range [low, high].
#[verifier::external_body]
fn sample_block_code(rng: &mut rand::rngs::StdRng) -> (r: u8)
    ensures
        1 <= r <= N_BLOCK_TYPES,
{
    let sampler = rand_distr::Uniform::new_inclusive(1, N_BLOCK_TYPES)
        .expect("a nonempty integer range is a valid uniform distribution");
    rand_distr::Distribution::sample(&sampler, rng)
}

/// The piece kind each drawn sample stands for: the generator's decision
/// table.
pub open spec fn spec_block_type_of_code(code: u8) -> BlockType {
    if code == 1 {
        BlockType::I
    } else if code == 2 {
        BlockType::J
    } else {
        BlockType::O
    }
}

/// Builds the fresh piece a drawn sample stands for.
pub fn piece_from_code(code: u8) -> (r: Block)
    requires
        1 <= code <= N_BLOCK_TYPES,
    ensures
        r.wf(),
        r.rotation_counter@ == 0,
        r.block_type == spec_block_type_of_code(code),
{
    let block_type = if code == 1 {
        BlockType::I
    } else if code == 2 {
        BlockType::J
    } else {
        BlockType::O
    };
    Block::new(block_type)
}

/// Emits pieces whose kind is drawn uniformly from the implemented set,
/// consuming the wrapped random source.
pub struct BlockGenerator {
    rng: rand::rngs::StdRng,
}

impl BlockGenerator {
    pub fn new(rng: rand::rngs::StdRng) -> Self {
        BlockGenerator { rng }
    }

    /// Draws a fresh piece in its spawn rotation; the sample decides the kind
    /// through `piece_from_code`, whose contract pins the decision table.
    pub fn block(&mut self) -> (r: Block)
        ensures
            r.rotation_counter@ == 0,
            r.wf(),
    {
        let code = sample_block_code(&mut self.rng);
        piece_from_code(code)
    }
}

} // verus!
