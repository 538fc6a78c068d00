//! Fixed-layout struct payloads: the built-in value structs whose bodies
//! have a known byte layout keyed by struct type name.
//!
//! The three floating-point shapes keep each component as the raw 32-bit
//! pattern read from the file, so a decoded value re-encodes to the same
//! bytes; callers that want arithmetic convert at the edge.

use vstd::prelude::*;

verus! {

/// A three-component vector; each field is the 32-bit pattern of one
/// component as stored on the wire.
#[derive(Debug, Copy, Clone, PartialEq, Eq, Hash, Structural)]
pub struct Vector {
    /// Bit pattern of the X coordinate.
    pub x: u32,
    /// Bit pattern of the Y coordinate.
    pub y: u32,
    /// Bit pattern of the Z coordinate.
    pub z: u32,
}

impl Vector {
    /// A vector from its three stored component patterns.
    pub fn new(x: u32, y: u32, z: u32) -> (r: Vector)
        ensures
            r == (Vector { x, y, z }),
    {
        Vector { x, y, z }
    }
}

/// A rotation; each field is the 32-bit pattern of one Euler angle.
#[derive(Debug, Copy, Clone, PartialEq, Eq, Hash, Structural)]
pub struct Rotator {
    /// Bit pattern of the pitch.
    pub pitch: u32,
    /// Bit pattern of the yaw.
    pub yaw: u32,
    /// Bit pattern of the roll.
    pub roll: u32,
}

impl Rotator {
    /// A rotator from its three stored angle patterns.
    pub fn new(pitch: u32, yaw: u32, roll: u32) -> (r: Rotator)
        ensures
            r == (Rotator { pitch, yaw, roll }),
    {
        Rotator { pitch, yaw, roll }
    }
}

/// A quaternion; each field is the 32-bit pattern of one component.
#[derive(Debug, Copy, Clone, PartialEq, Eq, Hash, Structural)]
pub struct Quat {
    /// Bit pattern of the X component.
    pub x: u32,
    /// Bit pattern of the Y component.
    pub y: u32,
    /// Bit pattern of the Z component.
    pub z: u32,
    /// Bit pattern of the real component.
    pub w: u32,
}

impl Quat {
    /// A quaternion from its four stored component patterns.
    pub fn new(x: u32, y: u32, z: u32, w: u32) -> (r: Quat)
        ensures
            r == (Quat { x, y, z, w }),
    {
        Quat { x, y, z, w }
    }
}

/// A point in time, counted in engine ticks.
#[derive(Debug, Copy, Clone, PartialEq, Eq, Hash, Structural)]
pub struct DateTime {
    /// Ticks.
    pub ticks: u64,
}

impl DateTime {
    /// A date-time from its tick count.
    pub fn new(ticks: u64) -> (r: DateTime)
        ensures
            r == (DateTime { ticks }),
    {
        DateTime { ticks }
    }
}

/// A two-dimensional integer point.
#[derive(Debug, Copy, Clone, PartialEq, Eq, Hash, Structural)]
pub struct IntPoint {
    /// X value.
    pub x: i32,
    /// Y value.
    pub y: i32,
}

impl IntPoint {
    /// A point from its two coordinates.
    pub fn new(x: i32, y: i32) -> (r: IntPoint)
        ensures
            r == (IntPoint { x, y }),
    {
        IntPoint { x, y }
    }
}

} // verus!
