//! Grid coordinates and their packing into a single integer key.

use vstd::prelude::*;

verus! {

/// One cell of the grid: column `x`, row `y`. Row 0 is the bottom row.
#[derive(Clone, Copy, Debug, PartialEq, Eq, Hash, Structural)]
pub struct Position {
    pub x: u32,
    pub y: u32,
}

/// Number of distinct values of one coordinate.
pub const COORDINATE_SPAN: u64 = 0x1_0000_0000;

impl Position {
    /// The integer that stands for this position in hashed collections:
    /// the column in the upper half, the row in the lower half.
    pub open spec fn spec_key(self) -> u64 {
        (self.x as int * COORDINATE_SPAN as int + self.y as int) as u64
    }

    /// The position that a key stands for.
    pub open spec fn spec_from_key(key: u64) -> Position {
        Position {
            x: (key as int / COORDINATE_SPAN as int) as u32,
            y: (key as int % COORDINATE_SPAN as int) as u32,
        }
    }

    /// Packing and unpacking are inverse to each other, so distinct positions
    /// have distinct keys and every key stands for exactly one position.
    pub proof fn lemma_key_bijection()
        ensures
            forall|p: Position| #[trigger] Position::spec_from_key(p.spec_key()) == p,
            forall|k: u64| #[trigger] Position::spec_from_key(k).spec_key() == k,
    {
    }

    pub fn new(x: u32, y: u32) -> (p: Position)
        ensures
            p == (Position { x, y }),
    {
        Position { x, y }
    }

    #[verifier::when_used_as_spec(spec_key)]
    pub fn key(self) -> (k: u64)
        ensures
            k == self.spec_key(),
    {
        (self.x as u64) * COORDINATE_SPAN + (self.y as u64)
    }

    #[verifier::when_used_as_spec(spec_from_key)]
    pub fn from_key(key: u64) -> (p: Position)
        ensures
            p == Position::spec_from_key(key),
    {
        Position { x: (key / COORDINATE_SPAN) as u32, y: (key % COORDINATE_SPAN) as u32 }
    }
}

} // verus!
