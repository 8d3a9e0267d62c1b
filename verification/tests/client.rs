use stardust_xr_wayland_service::client::{Client, Interface};
use stardust_xr_wayland_service::error::{IoErrorKind, WaylandError};
use stardust_xr_wayland_service::event::Event;
use stardust_xr_wayland_service::inbox::{Arrival, Inbox};
use stardust_xr_wayland_service::message::{Keymap, Message, ModifierState, SeatMessage};
use stardust_xr_wayland_service::compositor::Compositor;
use stardust_xr_wayland_service::presentation::MonotonicTimestamp;
use stardust_xr_wayland_service::socket::{
    accept_client, after_request, claim_socket, handle_render_message, lock_name, next_step,
    FollowUp, Incoming, Step,
};
use stardust_xr_wayland_service::types::{ObjectId, Vector2, DISPLAY};

fn id(raw: u32) -> ObjectId {
    ObjectId { raw }
}

const NOW: MonotonicTimestamp = MonotonicTimestamp { secs: 5, subsec_nanos: 7_999_999 };

#[test]
fn serials_count_up() {
    let mut client = Client::new();
    assert_eq!(client.next_event_serial(), 0);
    assert_eq!(client.next_event_serial(), 1);
    assert_eq!(client.next_event_serial(), 2);
}

#[test]
fn ids_are_taken_once() {
    let mut client = Client::new();
    assert_eq!(client.insert(id(3), Interface::Surface), Ok(()));
    assert_eq!(
        client.insert(id(3), Interface::Callback),
        Err(WaylandError::FailedToInsertObject)
    );
    assert!(client.has(id(3), Interface::Surface));
    assert!(!client.has(id(3), Interface::Callback));
    client.remove(id(3));
    assert!(!client.has_any(id(3)));
    assert_eq!(client.insert(id(3), Interface::Callback), Ok(()));
}

#[test]
fn events_come_out_in_order_and_once() {
    let mut client = Client::new();
    client.send(Event::DisplayDeleteId { id: 1 });
    client.send(Event::DisplayDeleteId { id: 2 });
    assert_eq!(
        client.take_outgoing(),
        vec![Event::DisplayDeleteId { id: 1 }, Event::DisplayDeleteId { id: 2 }]
    );
    assert_eq!(client.take_outgoing(), vec![]);
}

#[test]
fn new_clients_have_a_display() {
    let client = accept_client();
    assert!(client.has(id(DISPLAY), Interface::Display));
    assert!(!client.has_any(id(2)));
}

#[test]
fn sockets_need_their_lock() {
    assert_eq!(claim_socket(true, true), Ok(()));
    let refused = Err(WaylandError::Io(IoErrorKind::AddrNotAvailable));
    assert_eq!(claim_socket(false, true), refused);
    assert_eq!(claim_socket(true, false), refused);
}

#[test]
fn requests_to_missing_objects_end_the_client() {
    let mut client = accept_client();
    client.insert(id(5), Interface::Surface).unwrap();
    assert_eq!(next_step(&client, Incoming::Request(id(5))), Step::DispatchRequest(id(5)));
    assert_eq!(
        next_step(&client, Incoming::Request(id(6))),
        Step::Stop(Err(WaylandError::MissingObject(id(6))))
    );
    assert_eq!(next_step(&client, Incoming::MessagesClosed), Step::Stop(Ok(())));
    assert_eq!(next_step(&client, Incoming::Disconnected), Step::Stop(Ok(())));
    assert_eq!(
        next_step(&client, Incoming::ReadError(WaylandError::DecodeError)),
        Step::Stop(Err(WaylandError::DecodeError))
    );
    assert_eq!(
        next_step(&client, Incoming::Message(Message::ReleaseBuffer(id(9)))),
        Step::HandleMessage(Message::ReleaseBuffer(id(9)))
    );
    assert_eq!(client.take_outgoing(), vec![]);
}

#[test]
fn lock_files_lie_beside_their_sockets() {
    assert_eq!(lock_name(&b"wayland-3".to_vec()), b"wayland-3.lock".to_vec());
    assert_eq!(lock_name(&vec![0xff]), b"\xff.lock".to_vec());
}

#[test]
fn messages_come_before_requests() {
    let message = |raw| Message::ReleaseBuffer(id(raw));
    let mut inbox = Inbox::new();
    assert_eq!(inbox.take(), None);
    inbox.push_arrival(Arrival::Request(id(5)));
    inbox.push_message(message(1));
    inbox.push_message(message(2));
    inbox.push_arrival(Arrival::Request(id(6)));
    assert_eq!(inbox.take(), Some(Incoming::Message(message(1))));
    inbox.push_message(message(3));
    assert_eq!(inbox.take(), Some(Incoming::Message(message(2))));
    assert_eq!(inbox.take(), Some(Incoming::Message(message(3))));
    assert_eq!(inbox.take(), Some(Incoming::Request(id(5))));
    inbox.push_message(message(4));
    assert_eq!(inbox.take(), Some(Incoming::Message(message(4))));
    assert_eq!(inbox.take(), Some(Incoming::Request(id(6))));
    assert_eq!(inbox.take(), None);
}

#[test]
fn the_end_of_messages_comes_after_the_last_one() {
    let mut inbox = Inbox::new();
    inbox.push_arrival(Arrival::Request(id(5)));
    inbox.push_message(Message::ReleaseBuffer(id(1)));
    inbox.close();
    assert_eq!(inbox.take(), Some(Incoming::Message(Message::ReleaseBuffer(id(1)))));
    assert_eq!(inbox.take(), Some(Incoming::MessagesClosed));
    assert_eq!(inbox.take(), Some(Incoming::MessagesClosed));
}

#[test]
fn what_the_socket_says_comes_through() {
    let mut inbox = Inbox::new();
    inbox.push_arrival(Arrival::ReadError(WaylandError::DecodeError));
    inbox.push_arrival(Arrival::Disconnected);
    assert_eq!(inbox.take(), Some(Incoming::ReadError(WaylandError::DecodeError)));
    assert_eq!(inbox.take(), Some(Incoming::Disconnected));
}

#[test]
fn violations_are_told_before_the_end() {
    let mut client = accept_client();
    assert_eq!(after_request(&mut client, Ok(())), None);
    assert_eq!(client.take_outgoing(), vec![]);
    let fatal = WaylandError::Fatal { object_id: id(7), code: 3, message: "no" };
    assert_eq!(after_request(&mut client, Err(fatal)), Some(fatal));
    assert_eq!(
        client.take_outgoing(),
        vec![Event::DisplayError { object_id: id(7), code: 3, message: "no" }]
    );
    for e in [
        WaylandError::UnknownGlobal(4),
        WaylandError::MemfdError,
        WaylandError::MissingObject(id(2)),
    ] {
        assert_eq!(after_request(&mut client, Err(e)), Some(e));
        assert_eq!(client.take_outgoing(), vec![]);
    }
}

#[test]
fn frames_answer_callbacks_and_free_their_ids() {
    let mut client = accept_client();
    let mut compositor = Compositor::new();
    client.insert(id(10), Interface::Callback).unwrap();
    client.insert(id(11), Interface::Callback).unwrap();
    client.insert(id(12), Interface::Callback).unwrap();
    let next = handle_render_message(
        &mut client,
        &mut compositor,
        Message::Frame(vec![id(10), id(12)]),
        NOW,
        None,
        false,
    );
    assert_eq!(next, FollowUp::Nothing);
    assert_eq!(
        client.take_outgoing(),
        vec![
            Event::CallbackDone { callback: id(10), time_ms: 5007 },
            Event::DisplayDeleteId { id: 10 },
            Event::CallbackDone { callback: id(12), time_ms: 5007 },
            Event::DisplayDeleteId { id: 12 },
        ]
    );
    assert!(!client.has_any(id(10)));
    assert!(client.has_any(id(11)));
    assert!(!client.has_any(id(12)));
}

#[test]
fn frame_times_start_again_before_they_overflow() {
    let mut client = accept_client();
    let mut compositor = Compositor::new();
    // 4294967295 milliseconds count as none.
    let now = MonotonicTimestamp { secs: 4_294_967, subsec_nanos: 295_000_000 };
    handle_render_message(
        &mut client,
        &mut compositor,
        Message::Frame(vec![id(10)]),
        now,
        None,
        false,
    );
    assert_eq!(
        client.take_outgoing()[0],
        Event::CallbackDone { callback: id(10), time_ms: 0 }
    );
    let now = MonotonicTimestamp { secs: u64::MAX, subsec_nanos: 999_999_999 };
    let ms = (u64::MAX as u128 * 1000 + 999) % (u32::MAX as u128);
    handle_render_message(
        &mut client,
        &mut compositor,
        Message::Frame(vec![id(10)]),
        now,
        None,
        false,
    );
    assert_eq!(
        client.take_outgoing()[0],
        Event::CallbackDone { callback: id(10), time_ms: ms as u32 }
    );
}

#[test]
fn messages_are_passed_on() {
    let mut client = accept_client();
    let mut compositor = Compositor::new();
    let mut handle = |message, seat| {
        handle_render_message(&mut client, &mut compositor, message, NOW, None, seat)
    };
    assert_eq!(handle(Message::ReleaseBuffer(id(4)), false), FollowUp::Nothing);
    let size = Some(Vector2 { x: 3, y: 4 });
    assert_eq!(
        handle(Message::ResizeToplevel { toplevel: 1, size }, false),
        FollowUp::Resize { toplevel: 1, size }
    );
    assert_eq!(
        handle(Message::ReconfigureToplevel(2), false),
        FollowUp::Reconfigure { toplevel: 2 }
    );
    assert_eq!(
        handle(Message::SetToplevelVisualActive { toplevel: 2, active: true }, false),
        FollowUp::SetActivated { toplevel: 2, active: true }
    );
    let input = SeatMessage::KeyboardKey {
        surface: 0,
        keymap: Keymap { raw: 1 },
        key: 30,
        pressed: true,
        modifier_state: ModifierState { depressed: 0, latched: 0, locked: 0, layout_group: 0 },
    };
    assert_eq!(handle(Message::Seat(input), true), FollowUp::Seat(input));
    assert_eq!(handle(Message::Seat(input), false), FollowUp::Nothing);
    assert_eq!(client.take_outgoing(), vec![Event::BufferRelease { buffer: id(4) }]);
}
