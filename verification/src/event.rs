//! The events that the service sends to a client.
use crate::types::{Fd, ObjectId};
use vstd::prelude::*;

verus! {

#[derive(Debug, Clone, Copy, PartialEq, Eq, Structural)]
pub enum KeyState {
    Released,
    Pressed,
}

#[allow(inconsistent_fields)]
/// One event on the wire, addressed to the object that its first field names.
#[derive(Debug, PartialEq, Eq)]
pub enum Event {
    DisplayError { object_id: ObjectId, code: u32, message: &'static str },
    DisplayDeleteId { id: u32 },
    CallbackDone { callback: ObjectId, time_ms: u32 },
    BufferRelease { buffer: ObjectId },
    ToplevelClose { toplevel: ObjectId },
    XdgSurfaceConfigure { surface: ObjectId, serial: u32 },
    PopupConfigure { popup: ObjectId, x: i32, y: i32, width: i32, height: i32 },
    PopupRepositioned { popup: ObjectId, token: u32 },
    /// The key map is in the `xkb_v1` format.
    KeyboardKeymap { keyboard: ObjectId, fd: Fd, size: u32 },
    KeyboardLeave { keyboard: ObjectId, serial: u32, surface: ObjectId },
    KeyboardEnter { keyboard: ObjectId, serial: u32, surface: ObjectId, keys: Vec<u32> },
    KeyboardModifiers {
        keyboard: ObjectId,
        serial: u32,
        depressed: u32,
        latched: u32,
        locked: u32,
        group: u32,
    },
    KeyboardKey { keyboard: ObjectId, serial: u32, time_ms: u32, key: u32, state: KeyState },
    /// Subpixel layout and transform are `none` and `normal`.
    OutputGeometry {
        output: ObjectId,
        x: i32,
        y: i32,
        physical_width: i32,
        physical_height: i32,
        make: &'static str,
        model: &'static str,
    },
    OutputName { output: ObjectId, name: &'static str },
    OutputDescription { output: ObjectId, description: &'static str },
    OutputMode { output: ObjectId, flags: u32, width: i32, height: i32, refresh_mhz: i32 },
    OutputDone { output: ObjectId },
    ShmFormat { shm: ObjectId, format: u32 },
    DataDeviceDataOffer { device: ObjectId, offer: ObjectId },
    DataDeviceSelection { device: ObjectId, offer: Option<ObjectId> },
    DataOfferOffer { offer: ObjectId, mime_type: String },
    DataSourceSend { source: ObjectId, mime_type: String, fd: Fd },
    FeedbackSyncOutput { feedback: ObjectId, output: ObjectId },
    FeedbackPresented {
        feedback: ObjectId,
        tv_sec_hi: u32,
        tv_sec_lo: u32,
        tv_nsec: u32,
        refresh: u32,
        seq_hi: u32,
        seq_lo: u32,
        flags: u32,
    },
    DmabufFormat { dmabuf: ObjectId, format: u32 },
    DmabufModifier { dmabuf: ObjectId, format: u32, modifier_hi: u32, modifier_lo: u32 },
    BufferParamsCreated { params: ObjectId, buffer: ObjectId },
    BufferParamsFailed { params: ObjectId },
    DrmDevice { drm: ObjectId, path: String },
    DrmCapabilities { drm: ObjectId, value: u32 },
    DrmFormat { drm: ObjectId, format: u32 },
    DrmAuthenticated { drm: ObjectId },
}

/// What an event says, with sequences in place of the containers that carry them.
#[verifier::ext_equal]
pub ghost enum EventView {
    KeyboardEnter { keyboard: ObjectId, serial: u32, surface: ObjectId, keys: Seq<u32> },
    DataOfferOffer { offer: ObjectId, mime_type: Seq<char> },
    DataSourceSend { source: ObjectId, mime_type: Seq<char>, fd: Fd },
    DrmDevice { drm: ObjectId, path: Seq<char> },
    /// Every event that holds plain values only.
    Plain(Event),
}

impl View for Event {
    type V = EventView;

    open spec fn view(&self) -> EventView {
        match *self {
            Event::KeyboardEnter { keyboard, serial, surface, keys } => EventView::KeyboardEnter {
                keyboard,
                serial,
                surface,
                keys: keys@,
            },
            Event::DataOfferOffer { offer, mime_type } => EventView::DataOfferOffer {
                offer,
                mime_type: mime_type@,
            },
            Event::DataSourceSend { source, mime_type, fd } => EventView::DataSourceSend {
                source,
                mime_type: mime_type@,
                fd,
            },
            Event::DrmDevice { drm, path } => EventView::DrmDevice { drm, path: path@ },
            e => EventView::Plain(e),
        }
    }
}

} // verus!
