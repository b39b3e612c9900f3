//! Fixed-size records that can be read from raw bytes.

use vstd::prelude::*;

verus! {

/// A record could not be read from the bytes given.
#[derive(Debug, Clone, Copy, PartialEq, Eq, Structural)]
pub struct UnmarshalError {}

impl UnmarshalError {
    pub fn new() -> (r: UnmarshalError)
        ensures
            r == (UnmarshalError {  }),
    {
        UnmarshalError {  }
    }
}

/// A record with a fixed size on the wire.
pub trait Unmarshal {
    /// Reads the record from `b`.
    fn unmarshal(b: &[u8]) -> std::result::Result<(), UnmarshalError>;

    /// The record's size in bytes.
    fn size() -> i32;
}

/// A point whose coordinates are held as the bit patterns of 64-bit floats.
#[derive(Debug, Clone, Copy, PartialEq, Eq, Structural)]
pub struct Point {
    x: u64,
    y: u64,
    z: u64,
}

impl Point {
    /// A point from the bit patterns of its three coordinates.
    pub fn from_bits(x: u64, y: u64, z: u64) -> (p: Point)
        ensures
            p.x_bits() == x,
            p.y_bits() == y,
            p.z_bits() == z,
    {
        Point { x, y, z }
    }

    pub closed spec fn x_bits(&self) -> u64 {
        self.x
    }

    pub closed spec fn y_bits(&self) -> u64 {
        self.y
    }

    pub closed spec fn z_bits(&self) -> u64 {
        self.z
    }

    /// The bit patterns of the three coordinates.
    pub fn bits(&self) -> (r: (u64, u64, u64))
        ensures
            r == (self.x_bits(), self.y_bits(), self.z_bits()),
    {
        (self.x, self.y, self.z)
    }
}

/// A 3D marker position.
#[derive(Debug, Clone, Copy, PartialEq, Eq, Structural)]
pub struct Q3D {
    p: Point,
}

impl Q3D {
    /// A marker position from the bit patterns of its coordinates.
    pub fn from_bits(x: u64, y: u64, z: u64) -> (q: Q3D)
        ensures
            q.point().x_bits() == x,
            q.point().y_bits() == y,
            q.point().z_bits() == z,
    {
        Q3D { p: Point::from_bits(x, y, z) }
    }

    pub closed spec fn point(&self) -> Point {
        self.p
    }

    /// The marker's position.
    pub fn position(&self) -> (r: Point)
        ensures
            r == self.point(),
    {
        self.p
    }
}

impl Unmarshal for Q3D {
    /// No byte layout is defined for this record yet, so reading one always
    /// fails.
    fn unmarshal(b: &[u8]) -> (r: std::result::Result<(), UnmarshalError>)
        ensures
            r == Err::<(), UnmarshalError>(UnmarshalError {  }),
    {
        Err(UnmarshalError::new())
    }

    fn size() -> (r: i32)
        ensures
            r == 4,
    {
        4
    }
}

} // verus!
