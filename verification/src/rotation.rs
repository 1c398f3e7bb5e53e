//! Per-piece rotation geometry: each rotation records the four cells a piece
//! occupies in its local 4x4 coordinate space, together with the offsets and
//! extent of the bounding box of those cells.
use vstd::prelude::*;

verus! {

/// Row-column coordinates in a local or board coordinate space.
pub type Position = (usize, usize);

/// A single rotation of a piece situated in a local coordinate space.
/// Conceptually this is a small occupancy matrix, but only the occupied
/// cells and their bounding box are needed to play the game.
#[derive(Debug, Clone, Copy)]
pub struct Rotation {
    /// The vertical offset of the top of the piece from the local coordinate
    /// space's origin: the minimum row over `positions`.
    pub vertical_offset: usize,
    /// The horizontal offset of the left of the piece from the local
    /// coordinate space's origin: the minimum column over `positions`.
    pub horizontal_offset: usize,
    /// The width of the piece's bounding box.
    pub width: usize,
    /// The height of the piece's bounding box.
    pub height: usize,
    /// The positions occupied by the piece in its local coordinate space,
    /// in ascending row-then-column order.
    pub positions: [Position; 4],
}

impl Rotation {
    pub fn vertical_offset(&self) -> (r: usize)
        ensures
            r == self.vertical_offset,
    {
        self.vertical_offset
    }

    pub fn horizontal_offset(&self) -> (r: usize)
        ensures
            r == self.horizontal_offset,
    {
        self.horizontal_offset
    }

    pub fn height(&self) -> (r: usize)
        ensures
            r == self.height,
    {
        self.height
    }

    pub fn width(&self) -> (r: usize)
        ensures
            r == self.width,
    {
        self.width
    }

    /// The positions occupied by the piece in its local coordinate space.
    pub fn positions(&self) -> (r: [Position; 4])
        ensures
            r == self.positions,
    {
        self.positions
    }
}

/// A complete set of four rotations for one kind of piece.
#[derive(Debug, Clone)]
pub struct Rotations(pub [Rotation; 4]);

impl Rotations {
    /// The rotation selected by a bounded rotation index.
    pub fn index(&self, idx: RotationIndex) -> (r: Rotation)
        requires
            idx.wf(),
        ensures
            r == self.0[idx@],
    {
        self.0[idx.0]
    }
}

/// A counter for indexing `Rotations`, kept in the range `0..4` by wrapping.
#[derive(Debug, Default, Copy, Clone, PartialEq, Eq, Structural)]
pub struct RotationIndex(pub usize);

impl RotationIndex {
    /// The mathematical value of the index.
    pub open spec fn view(&self) -> int {
        self.0 as int
    }

    /// A rotation index is always one of the four valid indices.
    pub open spec fn wf(&self) -> bool {
        self.0 < 4
    }

    pub fn new() -> (r: Self)
        ensures
            r@ == 0,
            r.wf(),
    {
        RotationIndex(0)
    }

    /// Steps to the next rotation index, wrapping from three back to zero.
    pub fn inc(&mut self)
        requires
            old(self).wf(),
        ensures
            final(self)@ == (old(self)@ + 1) % 4,
            final(self).wf(),
    {
        self.0 = (self.0 + 1) % 4;
    }

    /// Steps to the previous rotation index, wrapping from zero up to three.
    pub fn dec(&mut self)
        requires
            old(self).wf(),
        ensures
            final(self)@ == (old(self)@ + 3) % 4,
            final(self).wf(),
    {
        self.0 = (self.0 + 3) % 4;
    }
}

} // verus!
