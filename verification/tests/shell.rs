use stardust_xr_wayland_service::client::Client;
use stardust_xr_wayland_service::event::Event;
use stardust_xr_wayland_service::frame_dispatcher::{
    frame_step, FrameEvent, FrameEventProvider, FrameStep,
};
use stardust_xr_wayland_service::message::{Message, SeatMessage};
use stardust_xr_wayland_service::panel_item_provider::{Acceptor, PanelItemProvider};
use stardust_xr_wayland_service::panel_item_ui::{
    Indicator, ItemHandlerQuery, MaterialParameter, PanelItemUi, QueriedInterface,
};
use stardust_xr_wayland_service::protocols::wl::output::Output;
use stardust_xr_wayland_service::socket_finder::{
    display_name, parse_command, socket_lock_name, socket_name, Attempt, Command, DisplaySystem,
    LockFile, SocketFile, SocketSearch, Verdict,
};
use stardust_xr_wayland_service::text::{contains, lock_name, numbered};
use stardust_xr_wayland_service::types::{ObjectId, SurfaceUpdateTarget, Vector2};
use stardust_xr_wayland_service::vulkan_ctx::{queue_family, QueueFamily};

type Ui = PanelItemUi<u32, char>;

fn interface(id: &str, interface: u32) -> QueriedInterface<u32> {
    QueriedInterface { interface_id: id.to_string(), interface }
}

#[test]
fn numbers_are_written_in_decimal() {
    assert_eq!(numbered("X", 0), "X0");
    assert_eq!(numbered("", 10), "10");
    assert_eq!(numbered("wayland-", 32), "wayland-32");
    assert_eq!(numbered("n", u64::MAX), "n18446744073709551615");
    assert_eq!(lock_name("wayland-1"), "wayland-1.lock");
}

#[test]
fn parts_are_found_in_texts() {
    assert!(contains("B8G8R8A8_SRGB", "SRGB"));
    assert!(contains("SSRGB_x", "SRGB"));
    assert!(!contains("B8G8R8A8_UNORM", "SRGB"));
    assert!(!contains("SRG", "SRGB"));
    assert!(contains("", ""));
    assert!(contains("aä€b", "€"));
}

#[test]
fn outputs_are_told_as_the_version_wants_it() {
    let id = ObjectId { raw: 5 };
    let geometry = Event::OutputGeometry {
        output: id,
        x: 2048,
        y: 2048,
        physical_width: 0,
        physical_height: 0,
        make: "Stardust Virtual Display",
        model: "Stardust Virtual Display",
    };
    let mode = Event::OutputMode {
        output: id,
        flags: 3,
        width: 2048,
        height: 2048,
        refresh_mhz: 2048000,
    };
    let told = |version| {
        let mut client = Client::new();
        Output { id, version }.advertise_outputs(&mut client);
        client.take_outgoing()
    };
    assert_eq!(told(1), vec![geometry, mode]);
    assert_eq!(told(3).len(), 3);
    assert_eq!(told(3)[2], Event::OutputDone { output: id });
    let all = told(4);
    assert_eq!(all.len(), 5);
    assert_eq!(all[1], Event::OutputName { output: id, name: "Stardust Virtual Display" });
    assert_eq!(
        all[2],
        Event::OutputDescription {
            output: id,
            description: "I needed this to account for dumb clients",
        }
    );
}

#[test]
fn commands_name_a_display_system() {
    let parse = |first: Option<&str>, second: Option<&str>| {
        parse_command(first.map(|s| s.to_string()), second.map(|s| s.to_string()))
    };
    let command = |system, full_path| Some(Command { system, full_path });
    assert_eq!(parse(Some("wayland"), None), command(DisplaySystem::Wayland, false));
    assert_eq!(parse(Some("x11"), Some("full-path")), command(DisplaySystem::X11, true));
    assert_eq!(parse(Some("x11"), Some("full")), command(DisplaySystem::X11, false));
    assert_eq!(parse(Some("help"), None), None);
    assert_eq!(parse(None, None), None);
}

#[test]
fn displays_have_names() {
    assert_eq!(socket_name(DisplaySystem::Wayland, 7), "wayland-7");
    assert_eq!(socket_lock_name(7), "wayland-7.lock");
    assert_eq!(display_name(DisplaySystem::Wayland, 7), "wayland-7");
    assert_eq!(socket_name(DisplaySystem::X11, 12), "X12");
    assert_eq!(display_name(DisplaySystem::X11, 12), ":12");
}

fn search(attempt: impl Fn(u32) -> Attempt) -> Option<(u32, Verdict)> {
    let mut search = SocketSearch::new();
    while let Some(display) = search.candidate() {
        let verdict = search.judge(attempt(display));
        if verdict != Verdict::Skip {
            return Some((display, verdict));
        }
    }
    None
}

#[test]
fn the_smallest_free_display_is_taken() {
    let held = |socket| Attempt { lock: LockFile::Held, socket };
    assert_eq!(search(|_| held(SocketFile::Absent)), Some((0, Verdict::Take)));
    assert_eq!(search(|_| held(SocketFile::Refused)), Some((0, Verdict::TakeStale)));
    assert_eq!(search(|_| held(SocketFile::Answered)), None);
    let mixed = |display| match display {
        0 => Attempt { lock: LockFile::NotCreated, socket: SocketFile::Absent },
        1 => Attempt { lock: LockFile::HeldByOther, socket: SocketFile::Absent },
        2 => held(SocketFile::Answered),
        3 => held(SocketFile::Failed),
        _ => Attempt { lock: LockFile::NotNeeded, socket: SocketFile::Refused },
    };
    assert_eq!(search(mixed), Some((4, Verdict::TakeStale)));
    let last = |display| {
        held(if display == 32 { SocketFile::Absent } else { SocketFile::Answered })
    };
    assert_eq!(search(last), Some((32, Verdict::Take)));
    assert!(SocketSearch::wants_socket(LockFile::Held));
    assert!(!SocketSearch::wants_socket(LockFile::HeldByOther));
}

#[test]
fn queues_can_copy() {
    let family = |transfer, protected| QueueFamily { transfer, protected };
    assert_eq!(queue_family(&vec![]), None);
    assert_eq!(
        queue_family(&vec![family(false, false), family(true, true), family(true, false)]),
        Some(2)
    );
    assert_eq!(queue_family(&vec![family(true, true)]), None);
}

#[test]
fn dropped_acceptors_are_forgotten() {
    let mut acceptors = Vec::new();
    for (field, acceptor) in [
        ('a', Acceptor::Ref(1)),
        ('b', Acceptor::WeakRef(1)),
        ('c', Acceptor::Ref(2)),
        ('d', Acceptor::Ref(1)),
        ('e', Acceptor::Object(3)),
    ] {
        PanelItemProvider::register_acceptor(&mut acceptors, field, acceptor);
    }
    PanelItemProvider::drop_acceptor(&mut acceptors, Acceptor::Ref(1));
    PanelItemProvider::drop_acceptor(&mut acceptors, Acceptor::Object(3));
    let fields: Vec<char> = acceptors.iter().map(|a| a.0).collect();
    assert_eq!(fields, vec!['b', 'c', 'e']);
    PanelItemProvider::drop_acceptor(&mut acceptors, Acceptor::WeakRef(1));
    assert_eq!(acceptors.len(), 2);
    assert!(!Acceptor::WeakObject(1).is_same(&Acceptor::WeakObject(1)));
}

#[test]
fn panels_are_captured_once_at_first_sight() {
    let mut query: ItemHandlerQuery<u32, char> = ItemHandlerQuery::new(true);
    let id = "acceptor".to_string();
    let seen = vec![interface("other", 1), interface("acceptor", 2), interface("acceptor", 3)];
    assert!(query.entered(seen, &id, 's'));
    assert_eq!(query.try_capture(true, true), Some(&2));
    assert_eq!(query.try_capture(false, true), None);
    assert_eq!(query.try_capture(true, false), None);
    // Something else in range leaves the acceptor as it is, and nothing happens at once.
    assert!(!query.entered(vec![interface("other", 4)], &id, 't'));
    assert_eq!(query.acceptor, Some((2, 's')));
    query.moved('u');
    assert_eq!(query.acceptor, Some((2, 'u')));
    query.captured();
    assert!(query.replaced);
    query.left();
    assert_eq!(query.try_capture(true, true), None);
    query.moved('v');
    assert_eq!(query.acceptor, None);
}

#[test]
fn grabbing_stops_the_capture_at_first_sight() {
    let (mut ui, size, backend, message) = Ui::create(None, true);
    assert_eq!(size, Vector2 { x: 1, y: 1 });
    assert_eq!(backend.child(0), None);
    assert_eq!(message, Message::Seat(SeatMessage::Reset));
    assert!(!ui.update_input(false, false));
    assert!(ui.query.auto_insert);
    assert!(!ui.update_input(true, false));
    assert!(!ui.query.auto_insert);
    assert!(ui.update_input(false, true));
    let size = Vector2 { x: 7, y: 9 };
    assert_eq!(Ui::create(Some(size), false).1, size);
}

#[test]
fn the_arrow_is_taken_away_once() {
    let (mut ui, _, _, _) = Ui::create(None, false);
    assert_eq!(ui.refresh_acceptor_indicator(), Indicator::Keep);
    ui.query.acceptor = Some((1, 'p'));
    assert_eq!(ui.refresh_acceptor_indicator(), Indicator::Point(&'p'));
    ui.query.left();
    assert_eq!(ui.refresh_acceptor_indicator(), Indicator::Clear);
    assert_eq!(ui.refresh_acceptor_indicator(), Indicator::Keep);
}

#[test]
fn tasks_end_with_what_they_are_for() {
    let (mut ui, _, _, _) = Ui::create(None, false);
    assert_eq!(Ui::input_step(Some(&ui), FrameEvent::Frame(1)), FrameStep::Handle(1));
    assert_eq!(Ui::input_step(None, FrameEvent::Frame(1)), FrameStep::Stop);
    assert_eq!(Ui::input_step(Some(&ui), FrameEvent::<u8>::Lagged(3)), FrameStep::Wait);
    assert_eq!(Ui::input_step(Some(&ui), FrameEvent::<u8>::Closed), FrameStep::Stop);
    ui.query.captured();
    assert_eq!(Ui::input_step(Some(&ui), FrameEvent::Frame(1)), FrameStep::Stop);
    assert_eq!(frame_step(FrameEvent::Frame('f'), true), FrameStep::Handle('f'));
    assert_eq!(frame_step(FrameEvent::Frame('f'), false), FrameStep::Stop);
    assert_eq!(FrameEventProvider::new(), FrameEventProvider {});
}

#[test]
fn only_toplevels_are_drawn() {
    assert_eq!(
        Ui::update_surface_dmatex(SurfaceUpdateTarget::Toplevel, 4, 5, true),
        vec![
            MaterialParameter::Bool { name: "opaque", value: true },
            MaterialParameter::Bool { name: "unlit", value: true },
            MaterialParameter::Dmatex { name: "diffuse", acquire_point: 4, release_point: 5 },
        ]
    );
    let child = SurfaceUpdateTarget::Child { id: 1 };
    assert_eq!(Ui::update_surface_dmatex(child, 4, 5, true), vec![]);
    assert_eq!(Ui::update_surface_dmatex(SurfaceUpdateTarget::Cursor, 4, 5, true), vec![]);
}
