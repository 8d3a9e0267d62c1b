//! `wl_data_device` and its kin: the clipboard that all clients share.
use crate::client::{free_server_id, server_ids_are_free, Client, ClientView, Interface};
use crate::error::{WaylandError, WaylandResult};
use crate::event::{Event, EventView};
use crate::message::{Message, MessageSink, SourceRef};
use crate::types::{Fd, ObjectId, FIRST_SERVER_ID};
use vstd::prelude::*;

verus! {

/// What a client has put on the clipboard.
#[derive(Debug, PartialEq, Eq)]
pub struct ClipboardSelection {
    pub source: SourceRef,
    pub mime_types: Vec<String>,
}

/// The clipboard: everyone who is told of it, and what the last client put on it.
pub struct Clipboard {
    pub clients: Vec<MessageSink>,
    pub selection: Option<ClipboardSelection>,
}

/// Whether a selection is of a source and has these types.
pub open spec fn is_selection(
    selection: Option<ClipboardSelection>,
    source: SourceRef,
    mime_types: Seq<String>,
) -> bool {
    selection matches Some(s) && s.source == source && s.mime_types@ == mime_types
}

/// Whether a message tells of a selection that is of a source and has these types.
pub open spec fn tells_selection(
    message: Message,
    source: SourceRef,
    mime_types: Seq<String>,
) -> bool {
    message matches Message::ClipboardSelection { source: s, mime_types: m } && s == source && m@
        == mime_types
}

/// The events that offer a selection: the offer, its types in order, and that it is the
/// selection now.
pub open spec fn offer_events(
    device: ObjectId,
    offer: ObjectId,
    mime_types: Seq<String>,
) -> Seq<EventView> {
    seq![EventView::Plain(Event::DataDeviceDataOffer { device, offer })] + mime_types.map_values(
        |m: String| EventView::DataOfferOffer { offer, mime_type: m@ },
    ) + seq![EventView::Plain(Event::DataDeviceSelection { device, offer: Some(offer) })]
}

/// The client and the answer after a selection was offered to one of its devices.
pub open spec fn selection_offered(
    client: ClientView,
    device: ObjectId,
    source: SourceRef,
    mime_types: Seq<String>,
) -> (ClientView, WaylandResult<DataOffer>) {
    if !(client.objects.contains_key(device.raw) && client.objects[device.raw]
        == Interface::DataDevice) {
        (client, Err(WaylandError::MissingObject(device)))
    } else {
        match free_server_id(client.objects) {
            Some(offer) => (
                (ClientView {
                    objects: client.objects.insert(offer.raw, Interface::DataOffer),
                    ..client
                }).after(offer_events(device, offer, mime_types), 0),
                Ok(DataOffer { id: offer, source }),
            ),
            None => (client, Err(WaylandError::FailedToInsertObject)),
        }
    }
}

/// The client and the answer after a request for a device, where `selection` is on the
/// clipboard.
pub open spec fn device_requested(
    client: ClientView,
    id: ObjectId,
    selection: Option<ClipboardSelection>,
) -> (ClientView, WaylandResult<Option<DataOffer>>) {
    let added = ClientView {
        objects: client.objects.insert(id.raw, Interface::DataDevice),
        ..client
    };
    if client.objects.contains_key(id.raw) {
        (client, Err(WaylandError::FailedToInsertObject))
    } else {
        match selection {
            Some(selection) => {
                let (after, offered) = selection_offered(
                    added,
                    id,
                    selection.source,
                    selection.mime_types@,
                );
                (
                    after,
                    match offered {
                        Ok(offer) => Ok(Some(offer)),
                        Err(e) => Err(e),
                    },
                )
            },
            None => (added, Ok(None)),
        }
    }
}

/// A list of texts again.
fn copy_texts(texts: &Vec<String>) -> (r: Vec<String>)
    ensures
        r@ == texts@,
{
    let mut r: Vec<String> = Vec::new();
    let mut i: usize = 0;
    while i < texts.len()
        invariant
            i <= texts.len(),
            r@ == texts@.take(i as int),
        decreases texts.len() - i,
    {
        r.push(texts[i].clone());
        i += 1;
        assert(r@ =~= texts@.take(i as int));
    }
    assert(texts@.take(texts@.len() as int) =~= texts@);
    r
}

impl Clipboard {
    pub fn new() -> (clipboard: Self)
        ensures
            clipboard.clients@ == Seq::<MessageSink>::empty(),
            clipboard.selection is None,
    {
        Clipboard { clients: Vec::new(), selection: None }
    }

    /// Adds a client to those who are told of new selections.
    pub fn register_client(&mut self, sink: MessageSink)
        ensures
            final(self).clients@ == old(self).clients@.push(sink),
            final(self).selection == old(self).selection,
    {
        self.clients.push(sink);
    }
}

#[derive(Debug, Clone, Copy, PartialEq, Eq, Structural)]
pub struct DataDeviceManager;

/// Data that a client can send, in any of the types it has offered.
#[derive(Debug, PartialEq, Eq)]
pub struct DataSource {
    pub id: ObjectId,
    pub mime_types: Vec<String>,
}

#[derive(Debug, Clone, Copy, PartialEq, Eq, Structural)]
pub struct DataDevice {
    pub id: ObjectId,
}

/// Data of a source, possibly of another client, that a client can ask for.
#[derive(Debug, Clone, Copy, PartialEq, Eq, Structural)]
pub struct DataOffer {
    pub id: ObjectId,
    pub source: SourceRef,
}

impl DataDeviceManager {
    /// Adds a source without types to the client's objects.
    pub fn create_data_source(&self, client: &mut Client, id: ObjectId) -> (r: WaylandResult<
        DataSource,
    >)
        ensures
            if old(client)@.objects.contains_key(id.raw) {
                &&& r matches Err(e) && e == WaylandError::FailedToInsertObject
                &&& final(client)@ == old(client)@
            } else {
                &&& r matches Ok(source) && source.id == id && source.mime_types@ == Seq::<
                    String,
                >::empty()
                &&& final(client)@ == (ClientView {
                    objects: old(client)@.objects.insert(id.raw, Interface::DataSource),
                    ..old(client)@
                })
            },
    {
        match client.insert(id, Interface::DataSource) {
            Ok(()) => Ok(DataSource { id, mime_types: Vec::new() }),
            Err(e) => Err(e),
        }
    }

    /// Adds a device to the client's objects. The first one is the one that is told of
    /// selections from now on. Whatever is on the clipboard is offered at once.
    pub fn get_data_device(
        &self,
        client: &mut Client,
        clipboard: &Clipboard,
        first_device: &mut Option<ObjectId>,
        id: ObjectId,
    ) -> (r: WaylandResult<Option<DataOffer>>)
        ensures
            (final(client)@, r) == device_requested(old(client)@, id, clipboard.selection),
            *final(first_device) == match *old(first_device) {
                Some(first) => Some(first),
                None => if old(client)@.objects.contains_key(id.raw) {
                    None
                } else {
                    Some(id)
                },
            },
    {
        if let Err(e) = client.insert(id, Interface::DataDevice) {
            return Err(e);
        }
        if first_device.is_none() {
            *first_device = Some(id);
        }
        match &clipboard.selection {
            Some(selection) => {
                match offer_selection(client, id, selection.source, &selection.mime_types) {
                    Ok(offer) => Ok(Some(offer)),
                    Err(e) => Err(e),
                }
            },
            None => Ok(None),
        }
    }
}

impl DataSource {
    /// Adds a type in which the data can be had.
    pub fn offer(&mut self, mime_type: String)
        ensures
            final(self).id == old(self).id,
            final(self).mime_types@ == old(self).mime_types@.push(mime_type),
    {
        self.mime_types.push(mime_type);
    }

    /// Takes the source out of the client's objects.
    pub fn destroy(&self, client: &mut Client)
        ensures
            final(client)@ == (ClientView {
                objects: old(client)@.objects.remove(self.id.raw),
                ..old(client)@
            }),
    {
        client.remove(self.id);
    }
}

impl DataDevice {
    /// Puts a source of a client on the clipboard and tells every client of it, or takes
    /// away what is there, of which nobody is told. `found` is the source that the client has
    /// under the id `source`. Returns the messages and whom they go to.
    pub fn set_selection(
        &self,
        clipboard: &mut Clipboard,
        owner: MessageSink,
        source: Option<ObjectId>,
        found: Option<&DataSource>,
    ) -> (r: WaylandResult<Vec<(MessageSink, Message)>>)
        requires
            (source, found) matches (Some(id), Some(s)) ==> s.id == id,
        ensures
            final(clipboard).clients@ == old(clipboard).clients@,
            match (source, found) {
                (None, _) => {
                    &&& final(clipboard).selection is None
                    &&& r matches Ok(messages) && messages@.len() == 0
                },
                (Some(id), None) => {
                    &&& final(clipboard).selection == old(clipboard).selection
                    &&& r matches Err(e) && e == WaylandError::MissingObject(id)
                },
                (Some(id), Some(found)) => {
                    let source = SourceRef { source: id, owner };
                    &&& is_selection(final(clipboard).selection, source, found.mime_types@)
                    &&& r matches Ok(messages) && {
                        &&& messages@.len() == old(clipboard).clients@.len()
                        &&& forall|i: int|
                            0 <= i < messages@.len() ==> {
                                &&& (#[trigger] messages@[i]).0 == old(clipboard).clients@[i]
                                &&& tells_selection(messages@[i].1, source, found.mime_types@)
                            }
                    }
                },
            },
    {
        let mut messages: Vec<(MessageSink, Message)> = Vec::new();
        let id: ObjectId = match source {
            Some(id) => id,
            None => {
                clipboard.selection = None;
                return Ok(messages);
            },
        };
        let found: &DataSource = match found {
            Some(found) => found,
            None => {
                return Err(WaylandError::MissingObject(id));
            },
        };
        let source = SourceRef { source: id, owner };
        clipboard.selection = Some(
            ClipboardSelection { source, mime_types: copy_texts(&found.mime_types) },
        );
        let mut i: usize = 0;
        while i < clipboard.clients.len()
            invariant
                i <= clipboard.clients.len(),
                messages@.len() == i,
                forall|j: int|
                    0 <= j < i ==> {
                        &&& (#[trigger] messages@[j]).0 == clipboard.clients@[j]
                        &&& tells_selection(messages@[j].1, source, found.mime_types@)
                    },
            decreases clipboard.clients.len() - i,
        {
            let mime_types: Vec<String> = copy_texts(&found.mime_types);
            messages.push((clipboard.clients[i], Message::ClipboardSelection { source, mime_types }));
            i += 1;
        }
        Ok(messages)
    }

    /// Takes the device out of the client's objects.
    pub fn release(&self, client: &mut Client)
        ensures
            final(client)@ == (ClientView {
                objects: old(client)@.objects.remove(self.id.raw),
                ..old(client)@
            }),
    {
        client.remove(self.id);
    }
}

/// Makes an offer of a source for a device and tells the client of it.
pub fn offer_selection(
    client: &mut Client,
    device_id: ObjectId,
    source: SourceRef,
    mime_types: &Vec<String>,
) -> (r: WaylandResult<DataOffer>)
    ensures
        (final(client)@, r) == selection_offered(old(client)@, device_id, source, mime_types@),
{
    if !client.has(device_id, Interface::DataDevice) {
        return Err(WaylandError::MissingObject(device_id));
    }
    let offer_id: ObjectId = match client.next_server_id() {
        Some(offer_id) => offer_id,
        None => {
            return Err(WaylandError::FailedToInsertObject);
        },
    };
    proof {
        server_ids_are_free(client@.objects, FIRST_SERVER_ID as int);
    }
    if let Err(e) = client.insert(offer_id, Interface::DataOffer) {
        return Err(e);
    }
    let ghost start = client@;
    client.send(Event::DataDeviceDataOffer { device: device_id, offer: offer_id });
    let ghost first = seq![
        EventView::Plain(Event::DataDeviceDataOffer { device: device_id, offer: offer_id }),
    ];
    let ghost named = |m: String| EventView::DataOfferOffer { offer: offer_id, mime_type: m@ };
    let mut i: usize = 0;
    assert(client@.sent =~= start.sent + (first + mime_types@.take(0).map_values(named)));
    while i < mime_types.len()
        invariant
            i <= mime_types.len(),
            named == (|m: String| EventView::DataOfferOffer { offer: offer_id, mime_type: m@ }),
            client@ == start.after(first + mime_types@.take(i as int).map_values(named), 0),
        decreases mime_types.len() - i,
    {
        client.send(
            Event::DataOfferOffer { offer: offer_id, mime_type: mime_types[i].clone() },
        );
        i += 1;
        assert(client@.sent =~= start.sent + (first + mime_types@.take(i as int).map_values(
            named,
        )));
    }
    assert(mime_types@.take(mime_types@.len() as int) =~= mime_types@);
    client.send(Event::DataDeviceSelection { device: device_id, offer: Some(offer_id) });
    assert(client@.sent =~= start.sent + offer_events(device_id, offer_id, mime_types@));
    Ok(DataOffer { id: offer_id, source })
}

/// Handles what other clients have to say of the clipboard: a new selection is offered to the
/// client's device, where it has one, and a request for data is passed on to its source.
pub fn handle_message(
    client: &mut Client,
    device: Option<ObjectId>,
    message: Message,
) -> (r: WaylandResult<Option<DataOffer>>)
    requires
        message is ClipboardSelection || message is ClipboardSend,
    ensures
        match message {
            Message::ClipboardSelection { source, mime_types } => match device {
                Some(device) => {
                    let (after, offered) = selection_offered(
                        old(client)@,
                        device,
                        source,
                        mime_types@,
                    );
                    &&& final(client)@ == after
                    &&& r == match offered {
                        Ok(offer) => Ok(Some(offer)),
                        Err(e) => Err(e),
                    }
                },
                None => {
                    &&& final(client)@ == old(client)@
                    &&& r == Ok::<_, WaylandError>(None::<DataOffer>)
                },
            },
            Message::ClipboardSend { source, mime_type, fd } => {
                &&& final(client)@ == old(client)@.after(
                    seq![EventView::DataSourceSend { source, mime_type: mime_type@, fd }],
                    0,
                )
                &&& r == Ok::<_, WaylandError>(None::<DataOffer>)
            },
            _ => true,
        },
{
    match message {
        Message::ClipboardSelection { source, mime_types } => {
            match device {
                Some(device) => {
                    match offer_selection(client, device, source, &mime_types) {
                        Ok(offer) => Ok(Some(offer)),
                        Err(e) => Err(e),
                    }
                },
                None => Ok(None),
            }
        },
        Message::ClipboardSend { source, mime_type, fd } => {
            client.send(Event::DataSourceSend { source, mime_type, fd });
            Ok(None)
        },
        _ => Ok(None),
    }
}

impl DataOffer {
    /// Asks the client that owns the data to write it to a file. Returns the message and whom
    /// it goes to.
    pub fn receive(&self, mime_type: String, fd: Fd) -> (r: (MessageSink, Message))
        ensures
            r == (
                self.source.owner,
                Message::ClipboardSend { source: self.source.source, mime_type, fd },
            ),
    {
        (
            self.source.owner,
            Message::ClipboardSend { source: self.source.source, mime_type, fd },
        )
    }

    /// Takes the offer out of the client's objects.
    pub fn destroy(&self, client: &mut Client)
        ensures
            final(client)@ == (ClientView {
                objects: old(client)@.objects.remove(self.id.raw),
                ..old(client)@
            }),
    {
        client.remove(self.id);
    }
}

/// Whoever has a device is offered a selection, with every type of its source, in order,
/// between the offer and the word that it is the selection now. The offer has a number that
/// named nothing before, and leads back to the source and the client that owns it. Only a
/// client that has used up all numbers of the service is not offered anything.
pub proof fn offers_lead_to_their_source(
    client: ClientView,
    device: ObjectId,
    source: SourceRef,
    mime_types: Seq<String>,
)
    requires
        client.objects.contains_key(device.raw),
        client.objects[device.raw] == Interface::DataDevice,
        exists|n: u32| FIRST_SERVER_ID <= n && !#[trigger] client.objects.contains_key(n),
    ensures
        ({
            let (after, r) = selection_offered(client, device, source, mime_types);
            let new = after.sent.skip(client.sent.len() as int);
            &&& r matches Ok(made) && {
                let offer = made.id;
                &&& made.source == source
                &&& !client.objects.contains_key(offer.raw)
                &&& after.objects == client.objects.insert(offer.raw, Interface::DataOffer)
                &&& client.sent.is_prefix_of(after.sent)
                &&& new.len() == mime_types.len() + 2
                &&& new.first() == EventView::Plain(Event::DataDeviceDataOffer { device, offer })
                &&& forall|i: int|
                    0 <= i < mime_types.len() ==> new[i + 1] == (EventView::DataOfferOffer {
                        offer,
                        mime_type: (#[trigger] mime_types[i])@,
                    })
                &&& new.last() == EventView::Plain(
                    Event::DataDeviceSelection { device, offer: Some(offer) },
                )
            }
        }),
{
    server_ids_are_free(client.objects, FIRST_SERVER_ID as int);
    let offer = free_server_id(client.objects)->0;
    let (after, r) = selection_offered(client, device, source, mime_types);
    assert(client.sent =~= after.sent.take(client.sent.len() as int));
    assert(after.sent.skip(client.sent.len() as int) =~= offer_events(device, offer, mime_types));
}

/// A new device is told at once of what is on the clipboard, as every device is told of a
/// selection, and of nothing where there is nothing.
pub proof fn new_devices_hear_the_selection(
    client: ClientView,
    id: ObjectId,
    selection: Option<ClipboardSelection>,
)
    requires
        !client.objects.contains_key(id.raw),
        exists|n: u32|
            FIRST_SERVER_ID <= n && n != id.raw && !#[trigger] client.objects.contains_key(n),
    ensures
        ({
            let (after, r) = device_requested(client, id, selection);
            let added = ClientView {
                objects: client.objects.insert(id.raw, Interface::DataDevice),
                ..client
            };
            &&& after.objects.contains_key(id.raw)
            &&& after.objects[id.raw] == Interface::DataDevice
            &&& match selection {
                Some(selection) => {
                    let (offered, offer) = selection_offered(
                        added,
                        id,
                        selection.source,
                        selection.mime_types@,
                    );
                    &&& after == offered
                    &&& offer is Ok
                    &&& r == Ok::<_, WaylandError>(Some(offer->Ok_0))
                    &&& after.sent == client.sent + offer_events(
                        id,
                        offer->Ok_0.id,
                        selection.mime_types@,
                    )
                },
                None => {
                    &&& after == added
                    &&& r == Ok::<_, WaylandError>(None::<DataOffer>)
                },
            }
        }),
{
    let added = ClientView {
        objects: client.objects.insert(id.raw, Interface::DataDevice),
        ..client
    };
    if let Some(selection) = selection {
        let n = choose|n: u32|
            FIRST_SERVER_ID <= n && n != id.raw && !#[trigger] client.objects.contains_key(n);
        assert(!added.objects.contains_key(n));
        offers_lead_to_their_source(added, id, selection.source, selection.mime_types@);
    }
}

} // verus!
