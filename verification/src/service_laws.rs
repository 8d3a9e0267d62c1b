//! What holds of connections, of the frames that all clients share, and of the search for a free
//! display.
use crate::client::{free_server_id, server_ids_are_free, ClientView, Interface};
use crate::error::WaylandError;
use crate::event::{Event, EventView};
use crate::inbox::{Arrival, InboxView};
use crate::message::Message;
use crate::panel_item_provider::{without_acceptor, Acceptor};
use crate::panel_item_ui::{first_with_id, QueriedInterface};
use crate::plugin::{all_answered, are_frames, frame_callbacks, live_places, shown_buffers};
use crate::protocols::mesa_drm::{drm_events, render_node};
use crate::protocols::wl::surface::SurfaceView;
use crate::protocols::wl::surface_state::AttachedBuffer;
use crate::socket::{frame_answered, frame_time, lock_suffix, Incoming};
use crate::socket_finder::{
    display_named, next_display, search_end, socket_named, system_named, Attempt, DisplaySystem,
    LockFile, SocketFile,
};
use crate::text::digits;
use crate::types::ObjectId;
use crate::vulkan_ctx::QueueFamily;
use vstd::prelude::*;

verus! {

/// Events are appended to those that were sent, and take as many serials as are said; objects
/// stay.
pub proof fn events_are_appended(client: ClientView, events: Seq<EventView>, n: int, i: int)
    requires
        0 <= n,
        client.serial + n <= u32::MAX,
    ensures
        ({
            let after = client.after(events, n);
            &&& after.objects == client.objects
            &&& after.serial == client.serial + n
            &&& after.sent.len() == client.sent.len() + events.len()
            &&& 0 <= i < client.sent.len() ==> after.sent[i] == client.sent[i]
            &&& 0 <= i < events.len() ==> after.sent[client.sent.len() + i] == events[i]
        }),
{
}

/// Objects of the service are numbered from `0xff000000` on.
pub proof fn server_ids_start_high(objects: Map<u32, Interface>)
    ensures
        match free_server_id(objects) {
            Some(id) => {
                &&& id.raw >= 0xff00_0000
                &&& !objects.contains_key(id.raw)
                &&& forall|n: u32|
                    0xff00_0000 <= n < id.raw ==> #[trigger] objects.contains_key(n)
            },
            None => forall|n: u32| 0xff00_0000 <= n ==> #[trigger] objects.contains_key(n),
        },
{
    server_ids_are_free(objects, 0xff00_0000);
}

/// The time of a frame is that of the clock in milliseconds, counted round and round below the
/// greatest number.
pub proof fn frame_times_are_milliseconds(secs: u64, nanos: u32)
    ensures
        ({
            let ms = secs as int * 1000 + nanos as int / 1_000_000;
            &&& frame_time(secs, nanos) < u32::MAX
            &&& ms < u32::MAX ==> frame_time(secs, nanos) == ms
            &&& (ms - frame_time(secs, nanos)) % 0xFFFF_FFFF == 0
        }),
{
    let ms = secs as int * 1000 + nanos as int / 1_000_000;
    vstd::arithmetic::div_mod::lemma_fundamental_div_mod(ms, 0xFFFF_FFFF);
    vstd::arithmetic::div_mod::lemma_mod_multiples_basic(ms / 0xFFFF_FFFF, 0xFFFF_FFFF);
    assert(ms - ms % 0xFFFF_FFFF == (ms / 0xFFFF_FFFF) * 0xFFFF_FFFF) by (nonlinear_arith)
        requires
            ms == 0xFFFF_FFFF * (ms / 0xFFFF_FFFF) + ms % 0xFFFF_FFFF,
    ;
}

/// Callbacks are answered one after the other, with the time and then with their number, which is
/// free again; serials do not move.
pub proof fn callbacks_are_answered_in_turn(
    client: ClientView,
    callbacks: Seq<ObjectId>,
    last: ObjectId,
    time_ms: u32,
)
    ensures
        ({
            let before = frame_answered(client, callbacks, time_ms);
            let after = frame_answered(client, callbacks.push(last), time_ms);
            &&& after.objects == before.objects.remove(last.raw)
            &&& after.serial == before.serial
            &&& after.sent == before.sent.push(
                EventView::Plain(Event::CallbackDone { callback: last, time_ms }),
            ).push(EventView::Plain(Event::DisplayDeleteId { id: last.raw }))
            &&& frame_answered(client, Seq::empty(), time_ms) == client
        }),
{
    let before = frame_answered(client, callbacks, time_ms);
    let after = frame_answered(client, callbacks.push(last), time_ms);
    assert(callbacks.push(last).drop_last() =~= callbacks);
    assert(after.sent =~= before.sent.push(
        EventView::Plain(Event::CallbackDone { callback: last, time_ms }),
    ).push(EventView::Plain(Event::DisplayDeleteId { id: last.raw })));
    let none = frame_answered(client, Seq::empty(), time_ms);
    assert(none.sent =~= client.sent);
    assert(none == client);
}

/// The lock file of a socket ends in `.lock`.
pub proof fn locks_have_their_ending(i: int)
    ensures
        lock_suffix().len() == 5,
        lock_suffix()[0] == '.' as u8,
        lock_suffix()[1] == 'l' as u8,
        lock_suffix()[2] == 'o' as u8,
        lock_suffix()[3] == 'c' as u8,
        lock_suffix()[4] == 'k' as u8,
{
}

/// What came from a socket is handed out as it came.
pub proof fn arrivals_are_handed_out(e: WaylandError, object: ObjectId)
    ensures
        Arrival::Disconnected.incoming() == Incoming::Disconnected,
        Arrival::ReadError(e).incoming() == Incoming::ReadError(e),
        Arrival::Request(object).incoming() == Incoming::Request(object),
{
}

/// What is taken from an inbox is the oldest message; without messages, that there will be none,
/// where that is so; and else the oldest that came from the socket. Nothing else leaves.
pub proof fn inboxes_hand_out_the_oldest(inbox: InboxView)
    ensures
        ({
            let (taken, left) = inbox.taken();
            let m = inbox.messages;
            let a = inbox.arrivals;
            &&& left.closed == inbox.closed
            &&& m.len() > 0 ==> taken == Some(Incoming::Message(m.first())) && left.messages
                == m.drop_first() && left.arrivals == a
            &&& m.len() == 0 && inbox.closed ==> taken == Some(Incoming::MessagesClosed) && left
                == inbox
            &&& m.len() == 0 && !inbox.closed && a.len() > 0 ==> taken == Some(
                a.first().incoming(),
            ) && left.messages == m && left.arrivals == a.drop_first()
            &&& m.len() == 0 && !inbox.closed && a.len() == 0 ==> taken is None && left == inbox
        }),
{
    let left = inbox.taken().1;
    if inbox.messages.len() > 0 {
        assert(left.messages =~= inbox.messages.drop_first());
    } else if !inbox.closed && inbox.arrivals.len() > 0 {
        assert(left.arrivals =~= inbox.arrivals.drop_first());
    }
}

/// A buffer is kept while a frame is rendered exactly where a live surface shows it.
pub proof fn shown_buffers_are_kept(surfaces: Seq<SurfaceView>, buffer: AttachedBuffer)
    ensures
        shown_buffers(surfaces).contains(buffer) <==> exists|i: int|
            0 <= i < surfaces.len() && (#[trigger] surfaces[i]).alive
                && surfaces[i].state.current.buffer == Some(buffer),
    decreases surfaces.len(),
{
    let all = shown_buffers(surfaces);
    if surfaces.len() > 0 {
        let rest = surfaces.drop_last();
        let n = surfaces.len() - 1;
        let first = shown_buffers(rest);
        shown_buffers_are_kept(rest, buffer);
        assert(surfaces[n] == surfaces.last());
        if all.contains(buffer) {
            let k = choose|k: int| 0 <= k < all.len() && all[k] == buffer;
            if k < first.len() {
                assert(first[k] == buffer);
                let i = choose|i: int|
                    0 <= i < rest.len() && (#[trigger] rest[i]).alive
                        && rest[i].state.current.buffer == Some(buffer);
                assert(surfaces[i] == rest[i]);
            }
        }
        if exists|i: int|
            0 <= i < surfaces.len() && (#[trigger] surfaces[i]).alive
                && surfaces[i].state.current.buffer == Some(buffer) {
            let i = choose|i: int|
                0 <= i < surfaces.len() && (#[trigger] surfaces[i]).alive
                    && surfaces[i].state.current.buffer == Some(buffer);
            if i < n {
                assert(rest[i] == surfaces[i]);
                let k = choose|k: int| 0 <= k < first.len() && first[k] == buffer;
                assert(all[k] == buffer);
            } else {
                assert(all[all.len() - 1] == buffer);
            }
        }
    }
}

/// A frame answers the callbacks of what a live surface shows, together, where it has any; it
/// answers nothing else, and afterwards no such callback waits. Surfaces to which nothing refers
/// are left alone.
pub proof fn frames_answer_live_surfaces(surfaces: Seq<SurfaceView>, messages: Seq<Message>, i: int)
    requires
        are_frames(messages, frame_callbacks(surfaces)),
        0 <= i < surfaces.len(),
    ensures
        ({
            let s = surfaces[i];
            let after = all_answered(surfaces, surfaces.len() as int);
            let a = after[i];
            &&& after.len() == surfaces.len()
            &&& s.alive && s.state.current.frame_callbacks.len() > 0 ==> exists|k: int|
                0 <= k < messages.len() && (#[trigger] messages[k] matches Message::Frame(list)
                    && list@ == s.state.current.frame_callbacks)
            &&& s.alive ==> a.state.current.frame_callbacks.len() == 0
            &&& !s.alive ==> a == s
            &&& a.state.queued == s.state.queued
            &&& a.state.pending == s.state.pending
            &&& a.state.current.buffer == s.state.current.buffer
            &&& a.state.current.density == s.state.current.density
            &&& a.state.current.geometry == s.state.current.geometry
            &&& a.id == s.id && a.role == s.role && a.alive == s.alive && a.parent == s.parent
            &&& a.children == s.children && a.toplevel == s.toplevel && a.surface_id
                == s.surface_id
            &&& a.on_commit_handlers == s.on_commit_handlers
            &&& a.presentation_feedback == s.presentation_feedback
        }),
{
    let s = surfaces[i];
    if s.alive && s.state.current.frame_callbacks.len() > 0 {
        let k = lemma_callbacks_listed(surfaces, i);
        assert(messages[k] matches Message::Frame(list));
    }
}

proof fn lemma_callbacks_listed(surfaces: Seq<SurfaceView>, i: int) -> (k: int)
    requires
        0 <= i < surfaces.len(),
        surfaces[i].alive,
        surfaces[i].state.current.frame_callbacks.len() > 0,
    ensures
        0 <= k < frame_callbacks(surfaces).len(),
        frame_callbacks(surfaces)[k] == surfaces[i].state.current.frame_callbacks,
    decreases surfaces.len(),
{
    let rest = surfaces.drop_last();
    if i == surfaces.len() - 1 {
        frame_callbacks(rest).len() as int
    } else {
        assert(rest[i] == surfaces[i]);
        lemma_callbacks_listed(rest, i)
    }
}

/// Every message of a frame is for the callbacks of a live surface, and there are no more
/// messages than there are such surfaces.
pub proof fn frames_answer_nobody_else(surfaces: Seq<SurfaceView>, k: int)
    requires
        surfaces.len() <= usize::MAX,
    ensures
        frame_callbacks(surfaces).len() <= live_places(surfaces).len(),
        0 <= k < frame_callbacks(surfaces).len() ==> frame_callbacks(surfaces)[k].len() > 0
            && exists|i: int|
            0 <= i < surfaces.len() && (#[trigger] surfaces[i]).alive
                && surfaces[i].state.current.frame_callbacks == frame_callbacks(surfaces)[k],
    decreases surfaces.len(),
{
    if surfaces.len() > 0 {
        let rest = surfaces.drop_last();
        frames_answer_nobody_else(rest, k);
        if 0 <= k < frame_callbacks(surfaces).len() {
            if k < frame_callbacks(rest).len() {
                let i = choose|i: int|
                    0 <= i < rest.len() && (#[trigger] rest[i]).alive
                        && rest[i].state.current.frame_callbacks == frame_callbacks(rest)[k];
                assert(surfaces[i] == rest[i]);
            } else {
                assert(surfaces[surfaces.len() - 1].alive);
            }
        }
    }
}

/// A display is skipped where its lock could not be had or somebody may be listening on its
/// socket, and taken otherwise.
pub proof fn displays_in_use_are_skipped(display: u32, attempt: Attempt)
    requires
        display < u32::MAX,
    ensures
        next_display(display, attempt) == display || next_display(display, attempt) == display + 1,
        next_display(display, attempt) == display <==> (attempt.lock == LockFile::NotNeeded
            || attempt.lock == LockFile::Held) && (attempt.socket == SocketFile::Absent
            || attempt.socket == SocketFile::Refused),
        attempt.is_free() <==> next_display(display, attempt) == display,
{
}

/// The search tries the displays up to the thirty-third, from the first on, and stops at the
/// first that is not skipped.
pub proof fn first_display_that_is_not_skipped(attempts: Seq<Attempt>)
    requires
        attempts.len() == 33,
    ensures
        ({
            let end = search_end(attempts, 0);
            &&& end <= 33
            &&& end < 33 ==> next_display(end, attempts[end as int]) == end
            &&& forall|i: u32|
                i < end ==> next_display(i, #[trigger] attempts[i as int]) == i + 1
        }),
{
    crate::socket_finder::smallest_free_display_is_found(attempts);
    let end = search_end(attempts, 0);
    assert forall|i: u32| i < end implies next_display(i, #[trigger] attempts[i as int]) == i
        + 1 by {
        assert(!attempts[i as int].is_free());
    }
}

/// The display systems are called by their names, and nothing else is called so.
pub proof fn systems_have_names(name: Seq<char>)
    ensures
        system_named(name) == Some(DisplaySystem::Wayland) <==> name == "wayland"@,
        system_named(name) == Some(DisplaySystem::X11) <==> name == "x11"@,
        system_named(name) is None <==> name != "wayland"@ && name != "x11"@,
{
    reveal_strlit("wayland");
    reveal_strlit("x11");
    assert("wayland"@.len() == 7);
    assert("x11"@.len() == 3);
}

/// The digits of a number are those of its tenth part, without the rest, and then the rest as a
/// character.
pub proof fn digits_are_decimal(n: nat)
    ensures
        digits(n).len() > 0,
        digits(n).last() as u32 == 48 + n % 10,
        n < 10 ==> digits(n).len() == 1,
        n >= 10 ==> digits(n).drop_last() == digits(n / 10),
{
    if n >= 10 {
        assert(digits(n).drop_last() =~= digits(n / 10));
    }
}

/// Names of sockets and displays are a fixed text and the number of the display.
pub proof fn displays_are_named_by_number(display: u32)
    ensures
        socket_named(DisplaySystem::Wayland, display) == "wayland-"@ + digits(display as nat),
        socket_named(DisplaySystem::X11, display) == "X"@ + digits(display as nat),
        display_named(DisplaySystem::Wayland, display) == socket_named(
            DisplaySystem::Wayland,
            display,
        ),
        display_named(DisplaySystem::X11, display) == ":"@ + digits(display as nat),
{
}

/// The object in range that is reached is the first that has the wanted interface; where none
/// has it, none is.
pub proof fn first_interface_is_reached<A>(interfaces: Seq<QueriedInterface<A>>, id: Seq<char>)
    ensures
        match first_with_id(interfaces, id) {
            Some(i) => {
                &&& 0 <= i < interfaces.len()
                &&& interfaces[i].interface_id@ == id
                &&& forall|j: int| 0 <= j < i ==> (#[trigger] interfaces[j]).interface_id@ != id
            },
            None => forall|j: int|
                0 <= j < interfaces.len() ==> (#[trigger] interfaces[j]).interface_id@ != id,
        },
    decreases interfaces.len(),
{
    if interfaces.len() > 0 {
        let rest = interfaces.drop_last();
        first_interface_is_reached(rest, id);
        let found = first_with_id(interfaces, id);
        let n = if found is Some {
            found->0
        } else {
            interfaces.len() as int
        };
        assert forall|j: int| 0 <= j < n implies (
        #[trigger] interfaces[j]).interface_id@ != id by {
            if j < rest.len() {
                assert(rest[j] == interfaces[j]);
            }
        }
    }
}

/// Acceptors are the same where they are reached in the same way from another process and are
/// the same object; those of this process are never known to be.
pub proof fn acceptors_are_told_apart(a: u64, b: u64, other: Acceptor)
    ensures
        Acceptor::Ref(a).same(Acceptor::Ref(b)) <==> a == b,
        Acceptor::WeakRef(a).same(Acceptor::WeakRef(b)) <==> a == b,
        !Acceptor::Ref(a).same(Acceptor::WeakRef(b)),
        !Acceptor::WeakRef(a).same(Acceptor::Ref(b)),
        !Acceptor::Object(a).same(other),
        !Acceptor::WeakObject(a).same(other),
        !other.same(Acceptor::Object(a)),
        !other.same(Acceptor::WeakObject(a)),
{
}

/// Acceptors that stay are in the order in which they came.
pub proof fn acceptors_stay_in_order<F>(
    acceptors: Seq<(F, Acceptor)>,
    last: (F, Acceptor),
    gone: Acceptor,
)
    ensures
        without_acceptor(Seq::<(F, Acceptor)>::empty(), gone).len() == 0,
        without_acceptor(acceptors.push(last), gone) == if last.1.same(gone) {
            without_acceptor(acceptors, gone)
        } else {
            without_acceptor(acceptors, gone).push(last)
        },
{
    reveal(Seq::filter);
    assert(acceptors.push(last).drop_last() =~= acceptors);
}

/// Queues can copy where their family is for transfers and not for protected memory.
pub proof fn copying_needs_transfer(family: QueueFamily)
    ensures
        family.is_usable() <==> family.transfer && !family.protected,
{
}

/// A client that binds the older global is told of the device node, of buffers by descriptor from
/// the second version on, and of each format once and in order.
pub proof fn devices_are_told_by_version(
    drm: ObjectId,
    version: u32,
    dev_id: u64,
    formats: Seq<u32>,
    i: int,
)
    ensures
        ({
            let all = drm_events(drm, version, dev_id, formats);
            let n: int = if version >= 2 {
                1
            } else {
                0
            };
            &&& all.len() == 1 + n + formats.len()
            &&& all[0] == (EventView::DrmDevice {
                drm,
                path: "/dev/dri/renderD"@ + digits((dev_id % 256) as nat),
            })
            &&& version >= 2 ==> all[1] == EventView::Plain(
                Event::DrmCapabilities { drm, value: 1 },
            )
            &&& 0 <= i < formats.len() ==> all[1 + n + i] == EventView::Plain(
                Event::DrmFormat { drm, format: formats[i] },
            )
            &&& render_node(dev_id) == "/dev/dri/renderD"@ + digits((dev_id % 256) as nat)
        }),
{
}

} // verus!
