//! Plain values shared by every protocol module.
use vstd::prelude::*;

verus! {

/// The number by which a client and this service name a protocol object.
#[derive(Debug, Clone, Copy, PartialEq, Eq, Structural)]
pub struct ObjectId {
    pub raw: u32,
}

/// The number of `wl_display`, which exists on every connection.
pub const DISPLAY: u32 = 1;

/// The smallest number of an object that the service makes; clients take smaller ones.
pub const FIRST_SERVER_ID: u32 = 0xff00_0000;

/// A pair of coordinates or extents.
#[derive(Debug, Clone, Copy, PartialEq, Eq)]
pub struct Vector2<T> {
    pub x: T,
    pub y: T,
}

/// The number of a file descriptor that the process owns.
#[derive(Debug, Clone, Copy, PartialEq, Eq, Structural)]
pub struct Fd {
    pub raw: i32,
}

/// A rectangle on a panel, in surface pixels.
#[derive(Debug, Clone, Copy, PartialEq, Eq)]
pub struct Geometry {
    pub origin: Vector2<i32>,
    pub size: Vector2<u32>,
}

/// Which part of a panel item a new image belongs to.
#[derive(Debug, Clone, Copy, PartialEq, Eq, Structural)]
pub enum SurfaceUpdateTarget {
    Toplevel,
    Cursor,
    Child { id: u64 },
}

/// Which part of a panel item input is meant for.
#[derive(Debug, Clone, Copy, PartialEq, Eq, Structural)]
pub enum SurfaceId {
    Toplevel,
    Child { id: u64 },
}

/// The part of a child that takes input.
#[derive(Debug, Clone, Copy, PartialEq, Eq, Structural)]
pub enum InputRegions {
    /// One rectangle that covers the whole child, in units of its size.
    Whole,
}

/// What a panel shell knows of a child surface.
#[derive(Debug, Clone, Copy, PartialEq, Eq)]
pub struct ChildState {
    pub id: u64,
    pub parent: SurfaceId,
    pub geometry: Geometry,
    pub z_order: i32,
    pub input_regions: InputRegions,
}

} // verus!
