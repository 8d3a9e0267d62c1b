//! One connected client: its objects, its event serials and what is to be sent to it.
use crate::error::{WaylandError, WaylandResult};
use crate::event::{Event, EventView};
use crate::types::{ObjectId, FIRST_SERVER_ID};
use std::collections::BTreeMap;
use vstd::prelude::*;

verus! {

/// The interface of an object in a client's table.
#[derive(Debug, Clone, Copy, PartialEq, Eq, Structural)]
pub enum Interface {
    Display,
    Buffer,
    BufferParams,
    Callback,
    Compositor,
    DataDevice,
    DataDeviceManager,
    DataOffer,
    DataSource,
    Dmabuf,
    DmabufFeedback,
    Drm,
    Keyboard,
    Output,
    Popup,
    Positioner,
    PresentationFeedback,
    Region,
    Registry,
    Shm,
    ShmPool,
    Surface,
    Toplevel,
    XdgSurface,
}

/// The state of one connection. Handlers append the events they send; whoever owns
/// the socket writes them out in order.
pub struct Client {
    store: BTreeMap<u32, Interface>,
    next_event_serial: u32,
    outgoing: Vec<Event>,
}

/// What holds of a client, as sequences and maps.
pub ghost struct ClientView {
    /// The interface of every object the client has.
    pub objects: Map<u32, Interface>,
    /// The serial that the next event takes.
    pub serial: u32,
    /// The events sent so far that are not yet written out.
    pub sent: Seq<EventView>,
}

impl View for Client {
    type V = ClientView;

    closed spec fn view(&self) -> ClientView {
        ClientView {
            objects: self.store@,
            serial: self.next_event_serial,
            sent: self.outgoing@.map_values(|e: Event| e@),
        }
    }
}

impl ClientView {
    /// The client after `events` were sent, `serials` of which took a serial.
    pub open spec fn after(self, events: Seq<EventView>, serials: int) -> ClientView {
        ClientView {
            objects: self.objects,
            serial: serial_after(self.serial, serials),
            sent: self.sent + events,
        }
    }
}

/// The smallest number from `from` on that names no object, if there is one.
pub open spec fn free_id_from(objects: Map<u32, Interface>, from: int) -> Option<ObjectId>
    decreases 0x1_0000_0000 - from,
{
    if from > u32::MAX {
        None
    } else if objects.contains_key(from as u32) {
        free_id_from(objects, from + 1)
    } else {
        Some(ObjectId { raw: from as u32 })
    }
}

/// The number that the next object of the service gets: the smallest of its range that is free.
pub open spec fn free_server_id(objects: Map<u32, Interface>) -> Option<ObjectId> {
    free_id_from(objects, FIRST_SERVER_ID as int)
}

/// Objects of the service get numbers that name no other object, and none is passed over.
pub proof fn server_ids_are_free(objects: Map<u32, Interface>, from: int)
    requires
        0 <= from,
    ensures
        match free_id_from(objects, from) {
            Some(id) => {
                &&& from <= id.raw
                &&& !objects.contains_key(id.raw)
                &&& forall|n: u32| from <= n < id.raw ==> #[trigger] objects.contains_key(n)
            },
            None => forall|n: u32| from <= n ==> #[trigger] objects.contains_key(n),
        },
    decreases 0x1_0000_0000 - from,
{
    if from <= u32::MAX && objects.contains_key(from as u32) {
        server_ids_are_free(objects, from + 1);
    }
}

/// The serial that follows `n` others, the first of which is `serial`.
pub open spec fn serial_after(serial: u32, n: int) -> u32 {
    ((serial + n) % 0x1_0000_0000) as u32
}

/// No serial comes again before all others were handed out.
pub proof fn serials_differ(serial: u32, m: int, n: int)
    requires
        m < n < m + 0x1_0000_0000,
    ensures
        serial_after(serial, m) != serial_after(serial, n),
{
}

/// Events sent in two parts are events sent one after the other.
pub(crate) proof fn lemma_after(
    client: ClientView,
    a: Seq<EventView>,
    m: int,
    b: Seq<EventView>,
    n: int,
)
    ensures
        client.after(a, m).after(b, n) == client.after(a + b, m + n),
{
    assert(client.sent + a + b =~= client.sent + (a + b));
}

impl Client {
    pub fn new() -> (client: Self)
        ensures
            client@.objects == Map::<u32, Interface>::empty(),
            client@.serial == 0,
            client@.sent == Seq::<EventView>::empty(),
    {
        let client = Client { store: BTreeMap::new(), next_event_serial: 0, outgoing: Vec::new() };
        assert(client@.sent =~= Seq::<EventView>::empty());
        client
    }

    /// Hands out the next event serial; after the last one they start again at zero.
    pub fn next_event_serial(&mut self) -> (serial: u32)
        ensures
            serial == old(self)@.serial,
            final(self)@ == old(self)@.after(Seq::empty(), 1),
    {
        let prev: u32 = self.next_event_serial;
        self.next_event_serial = self.next_event_serial.wrapping_add(1);
        assert(self@.sent =~= old(self)@.sent + Seq::<EventView>::empty());
        prev
    }

    /// Appends an event to those that are to be written out.
    pub fn send(&mut self, event: Event)
        ensures
            final(self)@ == old(self)@.after(seq![event@], 0),
    {
        self.outgoing.push(event);
        assert(self@.sent =~= old(self)@.sent + seq![event@]);
    }

    /// Takes the events that are to be written out, in the order they were sent.
    pub fn take_outgoing(&mut self) -> (events: Vec<Event>)
        ensures
            events@.map_values(|e: Event| e@) == old(self)@.sent,
            final(self)@.sent == Seq::<EventView>::empty(),
            final(self)@.serial == old(self)@.serial,
            final(self)@.objects == old(self)@.objects,
    {
        let mut events: Vec<Event> = Vec::new();
        events.append(&mut self.outgoing);
        assert(events@ =~= old(self).outgoing@);
        assert(self@.sent =~= Seq::<EventView>::empty());
        events
    }

    /// Adds an object under an id that is not in use.
    pub fn insert(&mut self, id: ObjectId, interface: Interface) -> (r: WaylandResult<()>)
        ensures
            if old(self)@.objects.contains_key(id.raw) {
                &&& r == Err::<(), _>(WaylandError::FailedToInsertObject)
                &&& final(self)@ == old(self)@
            } else {
                &&& r == Ok::<(), WaylandError>(())
                &&& final(self)@ == (ClientView {
                    objects: old(self)@.objects.insert(id.raw, interface),
                    ..old(self)@
                })
            },
    {
        broadcast use vstd::std_specs::btree::group_btree_axioms;

        if self.store.contains_key(&id.raw) {
            return Err(WaylandError::FailedToInsertObject);
        }
        self.store.insert(id.raw, interface);
        Ok(())
    }

    /// The number that the next object of the service gets: the smallest of its range that is
    /// free.
    pub fn next_server_id(&self) -> (id: Option<ObjectId>)
        ensures
            id == free_server_id(self@.objects),
    {
        let mut id = ObjectId { raw: FIRST_SERVER_ID };
        while self.has_any(id)
            invariant
                free_server_id(self@.objects) == free_id_from(self@.objects, id.raw as int),
            decreases u32::MAX - id.raw,
        {
            if id.raw == u32::MAX {
                assert(free_id_from(self@.objects, u32::MAX + 1) is None);
                return None;
            }
            id = ObjectId { raw: id.raw + 1 };
        }
        Some(id)
    }

    /// Whether `id` names an object of this interface.
    pub fn has(&self, id: ObjectId, interface: Interface) -> (r: bool)
        ensures
            r == (self@.objects.contains_key(id.raw) && self@.objects[id.raw] == interface),
    {
        broadcast use vstd::std_specs::btree::group_btree_axioms;

        match self.store.get(&id.raw) {
            Some(found) => *found == interface,
            None => false,
        }
    }

    /// Whether `id` names an object at all.
    pub fn has_any(&self, id: ObjectId) -> (r: bool)
        ensures
            r == self@.objects.contains_key(id.raw),
    {
        broadcast use vstd::std_specs::btree::group_btree_axioms;

        self.store.contains_key(&id.raw)
    }

    /// Forgets an object; an id that is not in use is left alone.
    pub fn remove(&mut self, id: ObjectId)
        ensures
            final(self)@.objects == old(self)@.objects.remove(id.raw),
            final(self)@.serial == old(self)@.serial,
            final(self)@.sent == old(self)@.sent,
    {
        broadcast use vstd::std_specs::btree::group_btree_axioms;

        let _ = self.store.remove(&id.raw);
    }
}

} // verus!
