//! `wl_shm`: buffers in memory that the client shares.
use crate::client::{Client, ClientView, Interface};
use crate::error::{WaylandError, WaylandResult};
use crate::event::{Event, EventView};
use crate::types::ObjectId;
use vstd::prelude::*;

verus! {

/// The number of the format with eight bits each of alpha, red, green and blue.
pub const ARGB8888: u32 = 0;

/// The number of the format with eight bits each of red, green and blue, and eight unused.
pub const XRGB8888: u32 = 1;

#[derive(Debug, Clone, Copy, PartialEq, Eq, Structural)]
pub struct Shm;

impl Shm {
    /// Tells the client which formats its buffers may have.
    pub fn advertise_formats(&self, client: &mut Client, sender_id: ObjectId)
        ensures
            final(client)@ == old(client)@.after(
                seq![
                    EventView::Plain(Event::ShmFormat { shm: sender_id, format: ARGB8888 }),
                    EventView::Plain(Event::ShmFormat { shm: sender_id, format: XRGB8888 }),
                ],
                0,
            ),
    {
        client.send(Event::ShmFormat { shm: sender_id, format: ARGB8888 });
        client.send(Event::ShmFormat { shm: sender_id, format: XRGB8888 });
        assert(client@.sent =~= old(client)@.sent + seq![
            EventView::Plain(Event::ShmFormat { shm: sender_id, format: ARGB8888 }),
            EventView::Plain(Event::ShmFormat { shm: sender_id, format: XRGB8888 }),
        ]);
    }

    /// Adds a pool to the client's objects. `opened` says whether the client's memory could
    /// be mapped, and if not, why.
    pub fn create_pool(
        &self,
        client: &mut Client,
        pool_id: ObjectId,
        opened: WaylandResult<()>,
    ) -> (r: WaylandResult<()>)
        ensures
            match opened {
                Err(e) => {
                    &&& r == Err::<(), _>(e)
                    &&& final(client)@ == old(client)@
                },
                Ok(()) => if old(client)@.objects.contains_key(pool_id.raw) {
                    &&& r == Err::<(), _>(WaylandError::FailedToInsertObject)
                    &&& final(client)@ == old(client)@
                } else {
                    &&& r == Ok::<(), WaylandError>(())
                    &&& final(client)@ == (ClientView {
                        objects: old(client)@.objects.insert(pool_id.raw, Interface::ShmPool),
                        ..old(client)@
                    })
                },
            },
    {
        match opened {
            Ok(()) => client.insert(pool_id, Interface::ShmPool),
            Err(e) => Err(e),
        }
    }
}

} // verus!
