use vstd::prelude::*;

verus! {

/// Largest magnitude, in thousandths of a block, that a coordinate may have.
pub const COORD_LIMIT: i64 = 1_000_000_000_000_000;

/// The world layer a position belongs to.
#[derive(Clone, Copy, Debug, PartialEq, Eq, Structural)]
pub enum Dimension {
    Overworld,
    Nether,
    End,
}

/// A position in the world. Coordinates are fixed-point numbers counted in
/// thousandths of a block, so `x == -246_500` stands for -246.5.
#[derive(Clone, Copy, Debug, PartialEq, Eq, Structural)]
pub struct Location {
    pub x: i64,
    pub y: i64,
    pub z: i64,
    pub dimension: Dimension,
}

/// Which of the two recognised text shapes a position was read from.
#[derive(Clone, Copy, Debug, PartialEq, Eq, Structural)]
pub enum Method {
    /// A teleport command that names the dimension.
    F3C,
    /// A block placement command, always in the overworld.
    F3I,
}

/// A position together with how it was obtained.
#[derive(Clone, Copy, Debug, PartialEq, Eq, Structural)]
pub struct LocationRecord {
    pub location: Location,
    pub method: Method,
}

impl Location {
    /// Every coordinate lies strictly within `COORD_LIMIT`.
    pub open spec fn wf(&self) -> bool {
        &&& -COORD_LIMIT < self.x < COORD_LIMIT
        &&& -COORD_LIMIT < self.y < COORD_LIMIT
        &&& -COORD_LIMIT < self.z < COORD_LIMIT
    }
}

impl LocationRecord {
    pub open spec fn wf(&self) -> bool {
        self.location.wf()
    }
}

} // verus!
