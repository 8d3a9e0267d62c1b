//! The listening socket and the task that serves one client.
use crate::client::{Client, ClientView, Interface};
use crate::compositor::Compositor;
use crate::error::{IoErrorKind, WaylandError, WaylandResult};
use crate::event::{Event, EventView};
use crate::message::{Message, SeatMessage};
use crate::presentation::MonotonicTimestamp;
use crate::protocols::wl::surface::{all_presented_events, SurfaceView};
use crate::types::{ObjectId, Vector2, DISPLAY};
use vstd::prelude::*;

verus! {

/// What the name of a lock file has after that of its socket.
pub open spec fn lock_suffix() -> Seq<u8> {
    seq![0x2e, 0x6c, 0x6f, 0x63, 0x6b]
}

/// The name of the lock file that lies beside a socket: that of the socket and `.lock`.
pub fn lock_name(socket_name: &Vec<u8>) -> (name: Vec<u8>)
    ensures
        name@ == socket_name@ + lock_suffix(),
{
    let mut name: Vec<u8> = Vec::new();
    let mut i: usize = 0;
    while i < socket_name.len()
        invariant
            i <= socket_name.len(),
            name@ == socket_name@.take(i as int),
        decreases socket_name.len() - i,
    {
        name.push(socket_name[i]);
        i += 1;
        assert(name@ =~= socket_name@.take(i as int));
    }
    name.push(0x2e);
    name.push(0x6c);
    name.push(0x6f);
    name.push(0x63);
    name.push(0x6b);
    assert(name@ =~= socket_name@ + lock_suffix());
    name
}

/// Whether a socket may be made, once it is known whether the lock file could be made and
/// whether it could be locked.
pub fn claim_socket(lock_created: bool, locked: bool) -> (r: WaylandResult<()>)
    ensures
        r == if lock_created && locked {
            Ok(())
        } else {
            Err(WaylandError::Io(IoErrorKind::AddrNotAvailable))
        },
{
    if lock_created && locked {
        Ok(())
    } else {
        Err(WaylandError::Io(IoErrorKind::AddrNotAvailable))
    }
}

/// A client that has just connected: it has its display and nothing else.
pub fn accept_client() -> (client: Client)
    ensures
        client@ == (ClientView {
            objects: Map::empty().insert(DISPLAY, Interface::Display),
            serial: 0,
            sent: Seq::empty(),
        }),
{
    let mut client = Client::new();
    let _ = client.insert(ObjectId { raw: DISPLAY }, Interface::Display);
    client
}

/// What the task of a client waited for, as [`crate::inbox::Inbox`] hands it out.
#[derive(Debug, PartialEq, Eq)]
pub enum Incoming {
    /// Nobody can send messages any more.
    MessagesClosed,
    Message(Message),
    Disconnected,
    ReadError(WaylandError),
    /// A request to an object.
    Request(ObjectId),
}

/// What the task of a client does next.
#[derive(Debug, PartialEq, Eq)]
pub enum Step {
    /// The task ends.
    Stop(WaylandResult<()>),
    HandleMessage(Message),
    DispatchRequest(ObjectId),
}

/// What to do with what came in.
pub fn next_step(client: &Client, incoming: Incoming) -> (step: Step)
    ensures
        step == match incoming {
            Incoming::MessagesClosed => Step::Stop(Ok(())),
            Incoming::Disconnected => Step::Stop(Ok(())),
            Incoming::ReadError(e) => Step::Stop(Err(e)),
            Incoming::Message(message) => Step::HandleMessage(message),
            Incoming::Request(object) => if client@.objects.contains_key(object.raw) {
                Step::DispatchRequest(object)
            } else {
                Step::Stop(Err(WaylandError::MissingObject(object)))
            },
        },
{
    match incoming {
        Incoming::MessagesClosed => Step::Stop(Ok(())),
        Incoming::Disconnected => Step::Stop(Ok(())),
        Incoming::ReadError(e) => Step::Stop(Err(e)),
        Incoming::Message(message) => Step::HandleMessage(message),
        Incoming::Request(object) => {
            if client.has_any(object) {
                Step::DispatchRequest(object)
            } else {
                Step::Stop(Err(WaylandError::MissingObject(object)))
            }
        },
    }
}

/// Whether the task goes on after a request. A client that violated the protocol is told so
/// before the task ends.
pub fn after_request(client: &mut Client, outcome: WaylandResult<()>) -> (stop: Option<
    WaylandError,
>)
    ensures
        stop == match outcome {
            Ok(()) => None,
            Err(e) => Some(e),
        },
        final(client)@ == match outcome {
            Err(WaylandError::Fatal { object_id, code, message }) => old(client)@.after(
                seq![EventView::Plain(Event::DisplayError { object_id, code, message })],
                0,
            ),
            _ => old(client)@,
        },
{
    match outcome {
        Ok(()) => None,
        Err(e) => {
            if let WaylandError::Fatal { object_id, code, message } = e {
                client.send(Event::DisplayError { object_id, code, message });
            }
            Some(e)
        },
    }
}

/// The time of a clock in milliseconds, as frame callbacks are told of it.
pub open spec fn frame_time(secs: u64, nanos: u32) -> u32 {
    ((secs * 1000 + nanos / 1_000_000) % 0xFFFF_FFFF) as u32
}

/// What is sent to answer frame callbacks: that each is done and that its id is free again.
pub open spec fn done_events(callbacks: Seq<ObjectId>, time_ms: u32) -> Seq<EventView>
    decreases callbacks.len(),
{
    if callbacks.len() == 0 {
        Seq::empty()
    } else {
        done_events(callbacks.drop_last(), time_ms) + seq![
            EventView::Plain(Event::CallbackDone { callback: callbacks.last(), time_ms }),
            EventView::Plain(Event::DisplayDeleteId { id: callbacks.last().raw }),
        ]
    }
}

/// A table without some objects.
pub open spec fn without<V>(objects: Map<u32, V>, ids: Seq<ObjectId>) -> Map<u32, V>
    decreases ids.len(),
{
    if ids.len() == 0 {
        objects
    } else {
        without(objects, ids.drop_last()).remove(ids.last().raw)
    }
}

/// Whether a number is that of one of some objects.
pub open spec fn is_among(ids: Seq<ObjectId>, id: u32) -> bool {
    exists|i: int| 0 <= i < ids.len() && (#[trigger] ids[i]).raw == id
}

/// The client once frame callbacks were answered.
pub open spec fn frame_answered(
    client: ClientView,
    callbacks: Seq<ObjectId>,
    time_ms: u32,
) -> ClientView {
    (ClientView { objects: without(client.objects, callbacks), ..client }).after(
        done_events(callbacks, time_ms),
        0,
    )
}

/// What is left to do for a message outside of the client's own objects.
#[derive(Debug, PartialEq, Eq)]
pub enum FollowUp {
    Nothing,
    /// Give a toplevel another size and configure it.
    Resize { toplevel: usize, size: Option<Vector2<u32>> },
    /// Configure a toplevel.
    Reconfigure { toplevel: usize },
    /// Let a toplevel look active or not, and configure it.
    SetActivated { toplevel: usize, active: bool },
    /// Hand input to the seat.
    Seat(SeatMessage),
    /// Hand a message to the clipboard.
    Clipboard(Message),
}

/// Answers frame callbacks.
fn answer_frame(client: &mut Client, callbacks: &Vec<ObjectId>, time_ms: u32)
    ensures
        final(client)@ == frame_answered(old(client)@, callbacks@, time_ms),
{
    let ghost start = client@;
    let mut i: usize = 0;
    assert(client@ == frame_answered(start, callbacks@.take(0), time_ms)) by {
        assert(start.sent + done_events(callbacks@.take(0), time_ms) =~= start.sent);
    }
    while i < callbacks.len()
        invariant
            i <= callbacks.len(),
            client@ == frame_answered(start, callbacks@.take(i as int), time_ms),
        decreases callbacks.len() - i,
    {
        let callback: ObjectId = callbacks[i];
        client.send(Event::CallbackDone { callback, time_ms });
        client.send(Event::DisplayDeleteId { id: callback.raw });
        client.remove(callback);
        i += 1;
        proof {
            assert(callbacks@.take(i as int).drop_last() =~= callbacks@.take(i - 1));
            assert(callbacks@.take(i as int).last() == callback);
            assert(client@.sent =~= start.sent + done_events(callbacks@.take(i as int), time_ms));
        }
    }
    assert(callbacks@.take(callbacks@.len() as int) =~= callbacks@);
}

/// Handles a message to the task of a client. `now` is the monotonic clock, `output` the
/// output of the client, if it has bound one, and `seat` whether the client has a seat.
pub fn handle_render_message(
    client: &mut Client,
    compositor: &mut Compositor,
    message: Message,
    now: MonotonicTimestamp,
    output: Option<ObjectId>,
    seat: bool,
) -> (next: FollowUp)
    requires
        match message {
            Message::CloseToplevel(toplevel) => toplevel < old(compositor)@.toplevels.len(),
            Message::SendPresentationFeedback { surface, .. } => surface
                < old(compositor)@.surfaces.len(),
            _ => true,
        },
    ensures
        old(compositor).wf() ==> final(compositor).wf(),
        final(compositor)@ == match message {
            Message::SendPresentationFeedback { surface, .. } => old(compositor)@.with_surface(
                surface as int,
                SurfaceView {
                    presentation_feedback: Seq::empty(),
                    ..old(compositor)@.surfaces[surface as int]
                },
            ),
            _ => old(compositor)@,
        },
        final(client)@ == match message {
            Message::Frame(callbacks) => frame_answered(
                old(client)@,
                callbacks@,
                frame_time(now.secs, now.subsec_nanos),
            ),
            Message::ReleaseBuffer(buffer) => old(client)@.after(
                seq![EventView::Plain(Event::BufferRelease { buffer })],
                0,
            ),
            Message::CloseToplevel(toplevel) => old(client)@.after(
                seq![
                    EventView::Plain(
                        Event::ToplevelClose {
                            toplevel: old(compositor)@.toplevels[toplevel as int].id,
                        },
                    ),
                ],
                0,
            ),
            Message::SendPresentationFeedback {
                surface,
                display_timestamp,
                refresh_cycle,
            } => old(client)@.after(
                all_presented_events(
                    old(compositor)@.surfaces[surface as int].presentation_feedback,
                    output,
                    display_timestamp,
                    refresh_cycle,
                ),
                0,
            ),
            _ => old(client)@,
        },
        next == match message {
            Message::ResizeToplevel { toplevel, size } => FollowUp::Resize { toplevel, size },
            Message::ReconfigureToplevel(toplevel) => FollowUp::Reconfigure { toplevel },
            Message::SetToplevelVisualActive { toplevel, active } => FollowUp::SetActivated {
                toplevel,
                active,
            },
            Message::Seat(input) if seat => FollowUp::Seat(input),
            Message::ClipboardSelection { .. } => FollowUp::Clipboard(message),
            Message::ClipboardSend { .. } => FollowUp::Clipboard(message),
            _ => FollowUp::Nothing,
        },
{
    match message {
        Message::Frame(callbacks) => {
            let ms: u128 = now.secs as u128 * 1000 + (now.subsec_nanos / 1_000_000) as u128;
            answer_frame(client, &callbacks, (ms % 0xFFFF_FFFF) as u32);
            FollowUp::Nothing
        },
        Message::ReleaseBuffer(buffer) => {
            client.send(Event::BufferRelease { buffer });
            FollowUp::Nothing
        },
        Message::CloseToplevel(toplevel) => {
            assert(compositor@.toplevels[toplevel as int]
                == compositor.toplevels@[toplevel as int]@);
            client.send(Event::ToplevelClose { toplevel: compositor.toplevels[toplevel].id });
            FollowUp::Nothing
        },
        Message::ResizeToplevel { toplevel, size } => FollowUp::Resize { toplevel, size },
        Message::ReconfigureToplevel(toplevel) => FollowUp::Reconfigure { toplevel },
        Message::SetToplevelVisualActive { toplevel, active } => FollowUp::SetActivated {
            toplevel,
            active,
        },
        Message::Seat(input) => {
            if seat {
                FollowUp::Seat(input)
            } else {
                FollowUp::Nothing
            }
        },
        Message::SendPresentationFeedback { surface, display_timestamp, refresh_cycle } => {
            let ghost before = compositor@;
            assert(before.surfaces[surface as int] == compositor.surfaces@[surface as int]@);
            compositor.surfaces[surface].send_presentation_feedback(
                client,
                output,
                display_timestamp,
                refresh_cycle,
            );
            assert(compositor@ =~= before.with_surface(
                surface as int,
                SurfaceView {
                    presentation_feedback: Seq::empty(),
                    ..before.surfaces[surface as int]
                },
            ));
            FollowUp::Nothing
        },
        Message::ClipboardSelection { source, mime_types } => FollowUp::Clipboard(
            Message::ClipboardSelection { source, mime_types },
        ),
        Message::ClipboardSend { source, mime_type, fd } => FollowUp::Clipboard(
            Message::ClipboardSend { source, mime_type, fd },
        ),
    }
}

/// A frame answers each of its callbacks with two events, oldest first, and leaves none of
/// them among the client's objects; no other object is touched.
pub proof fn frames_answer_every_callback(
    client: ClientView,
    callbacks: Seq<ObjectId>,
    time_ms: u32,
)
    ensures
        ({
            let after = frame_answered(client, callbacks, time_ms);
            let new = after.sent.skip(client.sent.len() as int);
            &&& client.sent.is_prefix_of(after.sent)
            &&& new.len() == 2 * callbacks.len()
            &&& forall|i: int|
                0 <= i < callbacks.len() ==> {
                    &&& new[2 * i] == EventView::Plain(
                        Event::CallbackDone { callback: #[trigger] callbacks[i], time_ms },
                    )
                    &&& new[2 * i + 1] == EventView::Plain(
                        Event::DisplayDeleteId { id: callbacks[i].raw },
                    )
                }
            &&& forall|id: u32| #[trigger]
                after.objects.contains_key(id) <==> client.objects.contains_key(id) && !is_among(
                    callbacks,
                    id,
                )
        }),
{
    let after = frame_answered(client, callbacks, time_ms);
    assert(client.sent =~= after.sent.take(client.sent.len() as int));
    assert(after.sent.skip(client.sent.len() as int) =~= done_events(callbacks, time_ms));
    lemma_done_events(callbacks, time_ms);
    assert forall|id: u32| #[trigger]
        after.objects.contains_key(id) <==> client.objects.contains_key(id) && !is_among(
            callbacks,
            id,
        ) by {
        lemma_without(client.objects, callbacks, id);
    }
}

proof fn lemma_done_events(callbacks: Seq<ObjectId>, time_ms: u32)
    ensures
        done_events(callbacks, time_ms).len() == 2 * callbacks.len(),
        forall|i: int|
            0 <= i < callbacks.len() ==> {
                &&& done_events(callbacks, time_ms)[2 * i] == EventView::Plain(
                    Event::CallbackDone { callback: #[trigger] callbacks[i], time_ms },
                )
                &&& done_events(callbacks, time_ms)[2 * i + 1] == EventView::Plain(
                    Event::DisplayDeleteId { id: callbacks[i].raw },
                )
            },
    decreases callbacks.len(),
{
    if callbacks.len() > 0 {
        lemma_done_events(callbacks.drop_last(), time_ms);
        assert forall|i: int| 0 <= i < callbacks.len() implies {
            &&& done_events(callbacks, time_ms)[2 * i] == EventView::Plain(
                Event::CallbackDone { callback: #[trigger] callbacks[i], time_ms },
            )
            &&& done_events(callbacks, time_ms)[2 * i + 1] == EventView::Plain(
                Event::DisplayDeleteId { id: callbacks[i].raw },
            )
        } by {
            if i < callbacks.len() - 1 {
                assert(callbacks.drop_last()[i] == callbacks[i]);
            }
        }
    }
}

proof fn lemma_without<V>(objects: Map<u32, V>, ids: Seq<ObjectId>, id: u32)
    ensures
        without(objects, ids).contains_key(id) <==> objects.contains_key(id) && !is_among(ids, id),
    decreases ids.len(),
{
    if ids.len() > 0 {
        let first = ids.drop_last();
        lemma_without(objects, first, id);
        if is_among(first, id) {
            let i = choose|i: int| 0 <= i < first.len() && (#[trigger] first[i]).raw == id;
            assert(ids[i].raw == id);
        }
        if is_among(ids, id) && ids.last().raw != id {
            let i = choose|i: int| 0 <= i < ids.len() && (#[trigger] ids[i]).raw == id;
            assert(first[i].raw == id);
        }
        if ids.last().raw == id {
            assert(ids[ids.len() - 1].raw == id);
        }
    }
}

} // verus!
