//! Messages to the task that owns a client's connection.
use crate::presentation::MonotonicTimestamp;
use crate::types::{Fd, ObjectId, Vector2};
use vstd::prelude::*;

verus! {

/// A point or a distance on a surface. The coordinates are kept as the bits of
/// single-precision numbers, which nothing here looks into.
#[derive(Debug, Clone, Copy, PartialEq, Eq, Structural)]
pub struct Vec2F {
    pub x_bits: u32,
    pub y_bits: u32,
}

/// The device that scrolled, as the panel shell numbers them.
#[derive(Debug, Clone, Copy, PartialEq, Eq, Structural)]
pub struct ScrollSource {
    pub raw: u32,
}

/// Stands for one key map of the key map store; equal exactly for equal key maps.
#[derive(Debug, Clone, Copy, PartialEq, Eq, Structural)]
pub struct Keymap {
    pub raw: u64,
}

#[derive(Debug, Clone, Copy, PartialEq, Eq, Structural)]
pub struct ModifierState {
    pub depressed: u32,
    pub latched: u32,
    pub locked: u32,
    pub layout_group: u32,
}

#[allow(inconsistent_fields)]
/// Input for the seat. A surface is named by its place among the client's surfaces.
#[derive(Debug, Clone, Copy, PartialEq, Eq, Structural)]
pub enum SeatMessage {
    PointerMotion { surface: usize, position: Vec2F, delta: Option<Vec2F> },
    PointerButton { surface: usize, button: u32, pressed: bool },
    PointerScrollDiscrete { surface: usize, delta: Vec2F, source: ScrollSource },
    PointerScrollStop { surface: usize },
    KeyboardKey {
        surface: usize,
        keymap: Keymap,
        key: u32,
        pressed: bool,
        modifier_state: ModifierState,
    },
    TouchDown { surface: usize, id: u32, position: Vec2F },
    TouchMove { id: u32, position: Vec2F },
    TouchUp { id: u32 },
    Reset,
}

/// Stands for the queue of messages of one connection.
#[derive(Debug, Clone, Copy, PartialEq, Eq, Structural)]
pub struct MessageSink {
    pub raw: u64,
}

/// A data source together with the connection of the client that owns it.
#[derive(Debug, Clone, Copy, PartialEq, Eq, Structural)]
pub struct SourceRef {
    pub source: ObjectId,
    pub owner: MessageSink,
}

/// Toplevels and surfaces are named by their places among those of the client.
#[allow(inconsistent_fields)]
#[derive(Debug, PartialEq, Eq)]
pub enum Message {
    Frame(Vec<ObjectId>),
    ReleaseBuffer(ObjectId),
    CloseToplevel(usize),
    ResizeToplevel { toplevel: usize, size: Option<Vector2<u32>> },
    ReconfigureToplevel(usize),
    SetToplevelVisualActive { toplevel: usize, active: bool },
    Seat(SeatMessage),
    SendPresentationFeedback {
        surface: usize,
        display_timestamp: MonotonicTimestamp,
        refresh_cycle: u64,
    },
    ClipboardSelection { source: SourceRef, mime_types: Vec<String> },
    ClipboardSend { source: ObjectId, mime_type: String, fd: Fd },
}

} // verus!
