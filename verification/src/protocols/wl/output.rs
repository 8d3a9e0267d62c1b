//! `wl_output`: the one display that clients are told of.
use crate::client::Client;
use crate::event::{Event, EventView};
use crate::types::ObjectId;
use vstd::prelude::*;

verus! {

/// The name of the display, which is also its make and model.
pub const NAME: &'static str = "Stardust Virtual Display";

pub const DESCRIPTION: &'static str = "I needed this to account for dumb clients";

/// The width and the height of the display, and its refresh rate in hertz.
pub const EXTENT: i32 = 2048;

/// The mode is the current one and the preferred one.
pub const MODE_FLAGS: u32 = 3;

/// The version from which a client is told the name and the description.
pub const NAME_SINCE: u32 = 4;

/// The version from which a client is told that it knows everything.
pub const DONE_SINCE: u32 = 2;

#[derive(Debug, Clone, Copy, PartialEq, Eq, Structural)]
pub struct Output {
    pub id: ObjectId,
    pub version: u32,
}

impl Output {
    /// What the client is told of the display.
    pub open spec fn advertisement(self) -> Seq<EventView> {
        let output = self.id;
        let geometry = EventView::Plain(
            Event::OutputGeometry {
                output,
                x: EXTENT,
                y: EXTENT,
                physical_width: 0,
                physical_height: 0,
                make: NAME,
                model: NAME,
            },
        );
        let texts = if self.version >= NAME_SINCE {
            seq![
                EventView::Plain(Event::OutputName { output, name: NAME }),
                EventView::Plain(Event::OutputDescription { output, description: DESCRIPTION }),
            ]
        } else {
            Seq::empty()
        };
        let mode = EventView::Plain(
            Event::OutputMode {
                output,
                flags: MODE_FLAGS,
                width: EXTENT,
                height: EXTENT,
                refresh_mhz: 2_048_000,
            },
        );
        let done = if self.version >= DONE_SINCE {
            seq![EventView::Plain(Event::OutputDone { output })]
        } else {
            Seq::empty()
        };
        seq![geometry] + texts + seq![mode] + done
    }

    /// Tells the client of the display, as far as its version of the protocol goes.
    pub fn advertise_outputs(&self, client: &mut Client)
        ensures
            final(client)@ == old(client)@.after(self.advertisement(), 0),
    {
        let output: ObjectId = self.id;
        client.send(
            Event::OutputGeometry {
                output,
                x: EXTENT,
                y: EXTENT,
                physical_width: 0,
                physical_height: 0,
                make: NAME,
                model: NAME,
            },
        );
        if self.version >= NAME_SINCE {
            client.send(Event::OutputName { output, name: NAME });
            client.send(Event::OutputDescription { output, description: DESCRIPTION });
        }
        // The protocol counts in millihertz.
        client.send(
            Event::OutputMode {
                output,
                flags: MODE_FLAGS,
                width: EXTENT,
                height: EXTENT,
                refresh_mhz: EXTENT * 1000,
            },
        );
        if self.version >= DONE_SINCE {
            client.send(Event::OutputDone { output });
        }
        assert(client@.sent =~= old(client)@.sent + self.advertisement());
    }
}

} // verus!
