use stardust_xr_wayland_service::client::{Client, Interface};
use stardust_xr_wayland_service::compositor::{Action, Compositor};
use stardust_xr_wayland_service::error::WaylandError;
use stardust_xr_wayland_service::event::Event;
use stardust_xr_wayland_service::message::{
    Keymap, Message, ModifierState, ScrollSource, SeatMessage, Vec2F,
};
use stardust_xr_wayland_service::protocols::wl::surface::CommitFilter;
use stardust_xr_wayland_service::protocols::wl::surface_state::AttachedBuffer;
use stardust_xr_wayland_service::protocols::xdg::backend::{
    ShellCall, ToplevelText, XdgBackend,
};
use stardust_xr_wayland_service::protocols::xdg::custody::{Custody, OwnShell};
use stardust_xr_wayland_service::protocols::xdg::popup::Popup;
use stardust_xr_wayland_service::protocols::xdg::surface::{
    Surface as XdgSurface, ALREADY_CONSTRUCTED, INVALID_POPUP_PARENT,
};
use stardust_xr_wayland_service::protocols::xdg::toplevel::{
    panel_shell_vars, shell_to_launch, startup_place, StartupPlace,
};
use stardust_xr_wayland_service::socket::handle_render_message;
use stardust_xr_wayland_service::presentation::MonotonicTimestamp;
use stardust_xr_wayland_service::types::{
    ChildState, Geometry, InputRegions, ObjectId, SurfaceId, SurfaceUpdateTarget, Vector2,
};
use waynest_protocols::server::stable::xdg_shell::{xdg_surface, xdg_wm_base};

fn id(raw: u32) -> ObjectId {
    ObjectId { raw }
}

fn geometry(x: i32) -> Geometry {
    Geometry { origin: Vector2 { x, y: 8 }, size: Vector2 { x: 100, y: 50 } }
}

struct Scene {
    client: Client,
    compositor: Compositor,
}

/// A window and a second surface that has an `xdg_surface`, both with ids of their own.
fn scene() -> Scene {
    let mut client = Client::new();
    let mut compositor = Compositor::new();
    for raw in [11, 21] {
        let surface = compositor.new_surface(id(raw));
        compositor.new_xdg_surface(id(raw + 1), 5, surface);
        client.insert(id(raw + 1), Interface::XdgSurface).unwrap();
    }
    XdgSurface::get_toplevel(&mut compositor, &mut client, 0, id(13)).unwrap();
    compositor.set_surface_id(0, SurfaceUpdateTarget::Toplevel);
    Scene { client, compositor }
}

fn says(_: CommitFilter) -> bool {
    false
}

fn commit_buffer(compositor: &mut Compositor, surface: usize, raw: u32) {
    let size = Vector2 { x: 640, y: 480 };
    let buffer = AttachedBuffer { id: id(raw), size, transparent: true };
    compositor.attach(surface, Some(buffer));
    compositor.commit(surface, says);
}

#[test]
fn error_codes_are_those_of_the_protocol() {
    assert_eq!(ALREADY_CONSTRUCTED, xdg_surface::Error::AlreadyConstructed as u32);
    assert_eq!(INVALID_POPUP_PARENT, xdg_wm_base::Error::InvalidPopupParent as u32);
}

#[test]
fn toplevels_are_configured_and_then_mapped() {
    let Scene { compositor: mut c, .. } = scene();
    c.commit(0, says);
    assert_eq!(c.take_actions(), vec![Action::Reconfigure { toplevel: 0 }]);
    commit_buffer(&mut c, 0, 70);
    // Nothing happens before the configuration is answered.
    assert_eq!(c.take_actions(), vec![]);
    c.ack_configure(0, 1);
    c.commit(0, says);
    assert_eq!(c.take_actions(), vec![Action::MapToplevel { toplevel: 0 }]);
    c.commit(0, says);
    assert_eq!(c.take_actions(), vec![]);
}

#[test]
fn toplevel_requests_need_a_free_id() {
    let Scene { mut client, compositor: mut c } = scene();
    assert_eq!(
        XdgSurface::get_toplevel(&mut c, &mut client, 1, id(13)),
        Err(WaylandError::FailedToInsertObject)
    );
    assert_eq!(c.toplevels().len(), 1);
    assert_eq!(c.surfaces()[1].role, None);
}

#[test]
fn windows_do_not_become_popups() {
    let Scene { mut client, compositor: mut c } = scene();
    let refused = Err(WaylandError::Fatal {
        object_id: id(11),
        code: 2,
        message: "Surface has an incomparible role",
    });
    assert_eq!(
        XdgSurface::get_popup(&mut c, &mut client, 0, id(12), id(14), Some(id(22)), geometry(1)),
        refused
    );
    assert!(!client.has_any(id(14)));
    assert_eq!(client.take_outgoing(), vec![]);
}

#[test]
fn popups_do_not_become_windows() {
    let Scene { mut client, compositor: mut c } = scene();
    XdgSurface::get_popup(&mut c, &mut client, 1, id(22), id(23), Some(id(12)), geometry(1))
        .unwrap();
    let refused = Err(WaylandError::Fatal {
        object_id: id(21),
        code: 2,
        message: "Surface has an incomparible role",
    });
    assert_eq!(XdgSurface::get_toplevel(&mut c, &mut client, 1, id(24)), refused);
    // The toplevel object is there all the same.
    assert!(client.has(id(24), Interface::Toplevel));
}

#[test]
fn popups_need_a_parent() {
    let Scene { mut client, compositor: mut c } = scene();
    let refused = |message| {
        Err(WaylandError::Fatal { object_id: id(23), code: 3, message })
    };
    assert_eq!(
        XdgSurface::get_popup(&mut c, &mut client, 1, id(22), id(23), None, geometry(1)),
        refused("Parent surface does not have an XDG role")
    );
    assert_eq!(
        XdgSurface::get_popup(&mut c, &mut client, 1, id(22), id(23), Some(id(99)), geometry(1)),
        refused("Parent surface does not exist")
    );
    // An object of another kind is no parent.
    assert_eq!(
        XdgSurface::get_popup(&mut c, &mut client, 1, id(22), id(23), Some(id(13)), geometry(1)),
        refused("Parent surface does not exist")
    );
    client.remove(id(12));
    assert_eq!(
        XdgSurface::get_popup(&mut c, &mut client, 1, id(22), id(23), Some(id(12)), geometry(1)),
        refused("Parent surface does not exist")
    );
}

#[test]
fn popups_are_configured_and_join_the_panel_item() {
    let Scene { mut client, compositor: mut c } = scene();
    let serial = client.next_event_serial();
    XdgSurface::get_popup_as(
        &mut c,
        &mut client,
        1,
        id(22),
        id(23),
        Some(id(12)),
        geometry(-4),
        777,
    )
    .unwrap();
    assert_eq!(
        client.take_outgoing(),
        vec![
            Event::PopupConfigure { popup: id(23), x: -4, y: 8, width: 100, height: 50 },
            Event::XdgSurfaceConfigure { surface: id(22), serial: serial + 1 },
        ]
    );
    assert!(client.has(id(23), Interface::Popup));
    assert_eq!(c.surfaces()[1].surface_id, Some(SurfaceUpdateTarget::Child { id: 777 }));
    assert_eq!(c.surfaces()[1].toplevel, Some(0));

    let (backend, message) = XdgBackend::new();
    assert_eq!(message, Message::Seat(SeatMessage::Reset));
    c.set_panel_item(0, backend);
    c.ack_configure(1, 1);
    c.commit(1, says);
    assert_eq!(c.take_actions(), vec![]);
    commit_buffer(&mut c, 1, 80);
    let info = ChildState {
        id: 777,
        parent: SurfaceId::Toplevel,
        geometry: geometry(-4),
        z_order: 1,
        input_regions: InputRegions::Whole,
    };
    assert_eq!(
        c.take_actions(),
        vec![
            Action::Shell { toplevel: 0, call: ShellCall::CreateChild { info } },
            Action::Shell {
                toplevel: 0,
                call: ShellCall::UpdateSurfaceDmatex {
                    target: SurfaceUpdateTarget::Child { id: 777 },
                    buffer: id(80),
                    opaque: false,
                },
            },
        ]
    );
    assert_eq!(c.surface_from_id(0, SurfaceId::Child { id: 777 }), Some(1));
    assert_eq!(c.surface_from_id(0, SurfaceId::Child { id: 778 }), None);
    assert_eq!(c.surface_from_id(0, SurfaceId::Toplevel), Some(0));

    Popup::reposition(&mut c, &mut client, 0, id(23), geometry(30), 9);
    assert_eq!(
        client.take_outgoing(),
        vec![
            Event::PopupRepositioned { popup: id(23), token: 9 },
            Event::PopupConfigure { popup: id(23), x: 30, y: 8, width: 100, height: 50 },
            Event::XdgSurfaceConfigure { surface: id(22), serial: serial + 2 },
        ]
    );
    assert_eq!(
        c.take_actions(),
        vec![Action::Shell {
            toplevel: 0,
            call: ShellCall::MoveChild { id: 777, geometry: geometry(30) },
        }]
    );
    let child = c.toplevels()[0].mapped.as_ref().unwrap().child(777).unwrap();
    assert_eq!(child.info.geometry, geometry(30));

    c.popups()[0].destroy(&mut client);
    assert!(!client.has_any(id(23)));
    Popup::release(&mut c, 0);
    assert_eq!(
        c.take_actions(),
        vec![Action::Shell { toplevel: 0, call: ShellCall::DestroyChild { id: 777 } }]
    );
    assert_eq!(c.surface_from_id(0, SurfaceId::Child { id: 777 }), None);
}

#[test]
fn older_popups_are_not_told_of_tokens() {
    let Scene { mut client, compositor: mut c } = scene();
    let surface = c.new_surface(id(31));
    let place = c.new_xdg_surface(id(32), 4, surface);
    XdgSurface::get_popup(&mut c, &mut client, place, id(32), id(23), Some(id(12)), geometry(1))
        .unwrap();
    client.take_outgoing();
    Popup::reposition(&mut c, &mut client, 0, id(23), geometry(2), 9);
    assert_eq!(client.take_outgoing().len(), 2);
}

#[test]
fn popup_ids_are_drawn_at_random() {
    let mut drawn = Vec::new();
    for _ in 0..8 {
        let Scene { mut client, compositor: mut c } = scene();
        XdgSurface::get_popup(&mut c, &mut client, 1, id(22), id(23), Some(id(12)), geometry(1))
            .unwrap();
        match c.surfaces()[1].surface_id {
            Some(SurfaceUpdateTarget::Child { id }) => drawn.push(id),
            _ => panic!("a popup is a child"),
        }
    }
    drawn.dedup();
    assert!(drawn.len() > 1);
}

#[test]
fn popups_need_a_free_id() {
    let Scene { mut client, compositor: mut c } = scene();
    c.set_panel_item(0, XdgBackend::new().0);
    assert_eq!(
        XdgSurface::get_popup_as(
            &mut c,
            &mut client,
            1,
            id(22),
            id(13),
            Some(id(12)),
            geometry(1),
            5
        ),
        Err(WaylandError::FailedToInsertObject)
    );
    assert_eq!(client.take_outgoing(), vec![]);
    assert!(c.popups().is_empty());
    assert_eq!(
        c.take_actions(),
        vec![Action::Shell { toplevel: 0, call: ShellCall::DestroyChild { id: 5 } }]
    );
}

#[test]
fn popups_of_popups_are_children_of_children() {
    let Scene { mut client, compositor: mut c } = scene();
    let third = c.new_surface(id(31));
    c.new_xdg_surface(id(32), 5, third);
    client.insert(id(32), Interface::XdgSurface).unwrap();
    c.set_panel_item(0, XdgBackend::new().0);
    let mut popup = |surface, raw, parent, child| {
        XdgSurface::get_popup_as(
            &mut c,
            &mut client,
            surface,
            id(raw),
            id(raw + 1),
            Some(id(parent)),
            geometry(1),
            child,
        )
        .unwrap();
    };
    popup(1, 22, 12, 100);
    popup(2, 32, 22, 200);
    c.ack_configure(2, 1);
    commit_buffer(&mut c, third, 90);
    let child = c.toplevels()[0].mapped.as_ref().unwrap().child(200).unwrap();
    assert_eq!(child.info.parent, SurfaceId::Child { id: 100 });
    assert_eq!(child.surface, third);
}

#[test]
fn xdg_surfaces_are_configured_with_serials() {
    let mut client = Client::new();
    let surface = XdgSurface::new(id(6), 3, 0);
    surface.reconfigure(&mut client);
    surface.reconfigure(&mut client);
    assert_eq!(
        client.take_outgoing(),
        vec![
            Event::XdgSurfaceConfigure { surface: id(6), serial: 0 },
            Event::XdgSurfaceConfigure { surface: id(6), serial: 1 },
        ]
    );
    client.insert(id(6), Interface::XdgSurface).unwrap();
    surface.destroy(&mut client);
    assert!(!client.has_any(id(6)));
}

#[test]
fn closing_is_told_to_the_toplevel() {
    let Scene { mut client, compositor: mut c } = scene();
    let now = MonotonicTimestamp { secs: 0, subsec_nanos: 0 };
    let message = XdgBackend::close_toplevel(0);
    handle_render_message(&mut client, &mut c, message, now, None, false);
    assert_eq!(client.take_outgoing(), vec![Event::ToplevelClose { toplevel: id(13) }]);
}

#[test]
fn children_change_levels() {
    let Scene { mut client, compositor: mut c } = scene();
    c.set_panel_item(0, XdgBackend::new().0);
    XdgSurface::get_popup_as(
        &mut c,
        &mut client,
        1,
        id(22),
        id(23),
        Some(id(12)),
        geometry(1),
        5,
    )
    .unwrap();
    c.ack_configure(1, 0);
    commit_buffer(&mut c, 1, 80);
    c.take_actions();
    c.update_child_z_order(1, 4);
    let call = ShellCall::MoveChild { id: 5, geometry: geometry(1) };
    assert_eq!(c.take_actions(), vec![Action::Shell { toplevel: 0, call }]);
    assert_eq!(c.toplevels()[0].mapped.as_ref().unwrap().child(5).unwrap().info.z_order, 4);
    c.update_child_z_order(0, 4);
    assert_eq!(c.take_actions(), vec![]);

    let target = Some(SurfaceUpdateTarget::Child { id: 5 });
    let mut backend = XdgBackend::new().0;
    let info = ChildState {
        id: 5,
        parent: SurfaceId::Toplevel,
        geometry: geometry(1),
        z_order: 1,
        input_regions: InputRegions::Whole,
    };
    assert_eq!(backend.add_child(1, target, info), Some(ShellCall::CreateChild { info }));
    assert_eq!(backend.update_child_z_order(target, 4), Some(call));
    assert_eq!(backend.child(5).unwrap().info.z_order, 4);
    assert_eq!(
        backend.update_child_z_order(Some(SurfaceUpdateTarget::Child { id: 6 }), 4),
        None
    );
    assert_eq!(backend.update_child_z_order(Some(SurfaceUpdateTarget::Toplevel), 4), None);
    assert_eq!(backend.remove_child(None), None);
    assert_eq!(backend.reposition_child(None, geometry(2)), None);
}

#[test]
fn input_reaches_the_surface_it_is_for() {
    let Scene { compositor: c, .. } = scene();
    let at = Vec2F { x_bits: 1.5f32.to_bits(), y_bits: 2.5f32.to_bits() };
    let by = Vec2F { x_bits: 0.5f32.to_bits(), y_bits: 0 };
    let source = ScrollSource { raw: 1 };
    let top = SurfaceId::Toplevel;
    let gone = SurfaceId::Child { id: 9 };
    let seat = |m| Some(Message::Seat(m));
    assert_eq!(
        XdgBackend::pointer_motion(&c, 0, top, Some(by), at),
        seat(SeatMessage::PointerMotion { surface: 0, position: at, delta: Some(by) })
    );
    assert_eq!(XdgBackend::pointer_motion(&c, 0, gone, Some(by), at), None);
    assert_eq!(
        XdgBackend::pointer_button(&c, 0, top, 272, true),
        seat(SeatMessage::PointerButton { surface: 0, button: 272, pressed: true })
    );
    let scrolled = seat(SeatMessage::PointerScrollDiscrete { surface: 0, delta: by, source });
    assert_eq!(XdgBackend::pointer_scroll_discrete(&c, 0, top, by, source), scrolled);
    assert_eq!(XdgBackend::pointer_scroll_pixels(&c, 0, top, by, source), scrolled);
    assert_eq!(
        XdgBackend::pointer_scroll_stop(&c, 0, top),
        seat(SeatMessage::PointerScrollStop { surface: 0 })
    );
    let modifier_state =
        ModifierState { depressed: 1, latched: 2, locked: 3, layout_group: 4 };
    let keymap = Keymap { raw: 6 };
    assert_eq!(
        XdgBackend::key(&c, 0, top, 30, true, modifier_state, keymap),
        seat(SeatMessage::KeyboardKey {
            surface: 0,
            keymap,
            key: 30,
            pressed: true,
            modifier_state,
        })
    );
    assert_eq!(
        XdgBackend::touch_down(&c, 0, top, 3, at),
        seat(SeatMessage::TouchDown { surface: 0, id: 3, position: at })
    );
    assert_eq!(
        XdgBackend::touch_move(3, at),
        Message::Seat(SeatMessage::TouchMove { id: 3, position: at })
    );
    assert_eq!(XdgBackend::touch_up(3), Message::Seat(SeatMessage::TouchUp { id: 3 }));
    assert_eq!(
        XdgBackend::resize_toplevel_to_app_request(0),
        Message::ResizeToplevel { toplevel: 0, size: None }
    );
    let size = Vector2 { x: 5, y: 6 };
    assert_eq!(
        XdgBackend::request_toplevel_resize(0, size),
        Message::ResizeToplevel { toplevel: 0, size: Some(size) }
    );
    assert_eq!(
        XdgBackend::toplevel_focused(0, true),
        Message::SetToplevelVisualActive { toplevel: 0, active: true }
    );
}

#[test]
fn acceptors_are_told_the_texts_of_a_toplevel() {
    let (backend, told, custody) =
        XdgBackend::connect(3, 'p', Some("t".to_string()), Some("a".to_string()));
    assert_eq!(backend.child(1), None);
    assert_eq!(
        told,
        vec![ToplevelText::Title("t".to_string()), ToplevelText::AppId("a".to_string())]
    );
    assert_eq!(custody, Custody::Held { toplevel: 3, spatial: 'p' });
    assert_eq!(XdgBackend::connect(0, (), None, None).1, vec![]);
}

#[test]
fn toplevels_return_from_acceptors_once() {
    let Scene { mut client, compositor: mut c } = scene();
    let (backend, _, mut custody) = XdgBackend::connect(0, 'p', None, None);
    c.set_panel_item(0, backend);
    XdgSurface::get_popup_as(
        &mut c,
        &mut client,
        1,
        id(22),
        id(23),
        Some(id(12)),
        geometry(1),
        5,
    )
    .unwrap();
    c.ack_configure(1, 0);
    commit_buffer(&mut c, 1, 80);
    commit_buffer(&mut c, 0, 81);
    assert!(c.toplevels()[0].mapped.as_ref().unwrap().child(5).is_some());

    let shell: OwnShell<char, (), ()> = custody.released(&mut c, true, true).unwrap();
    assert_eq!(shell.spatial, 'p');
    assert!(!shell.ui.query.auto_insert);
    assert_eq!(shell.size, Vector2 { x: 640, y: 480 });
    assert_eq!(shell.message, Message::Seat(SeatMessage::Reset));
    assert!(c.toplevels()[0].mapped.as_ref().unwrap().child(5).is_none());
    assert_eq!(custody, Custody::Ended);
    let again: Option<OwnShell<char, (), ()>> = custody.released(&mut c, true, true);
    assert!(again.is_none());
}

#[test]
fn toplevels_stay_without_a_shell_where_the_seat_is_gone() {
    for (item_alive, seat_alive) in [(true, false), (false, true), (false, false)] {
        let Scene { compositor: mut c, .. } = scene();
        let mut custody = XdgBackend::connect(0, (), None, None).2;
        let shell: Option<OwnShell<(), (), ()>> =
            custody.released(&mut c, item_alive, seat_alive);
        assert!(shell.is_none());
        let late: Option<OwnShell<(), (), ()>> = custody.released(&mut c, true, true);
        assert!(late.is_none());
        assert!(c.toplevels()[0].mapped.is_none());
    }
}

#[test]
fn windows_are_set_up_once_over_many_commits() {
    let Scene { compositor: mut c, .. } = scene();
    let mut actions = Vec::new();
    for turn in 0..6 {
        match turn {
            2 => c.ack_configure(0, 1),
            3 => {
                let size = Vector2 { x: 0, y: 5 };
                c.attach(0, Some(AttachedBuffer { id: id(70), size, transparent: true }));
            }
            4 => {
                let size = Vector2 { x: 5, y: 5 };
                c.attach(0, Some(AttachedBuffer { id: id(71), size, transparent: true }));
            }
            _ => {}
        }
        c.commit(0, says);
        actions.push(c.take_actions());
    }
    let mut expected = vec![Vec::new(); 6];
    expected[0] = vec![Action::Reconfigure { toplevel: 0 }];
    expected[4] = vec![Action::MapToplevel { toplevel: 0 }];
    assert_eq!(actions, expected);
}

#[test]
fn popups_are_added_once_over_many_commits() {
    let Scene { mut client, compositor: mut c } = scene();
    XdgSurface::get_popup_as(
        &mut c,
        &mut client,
        1,
        id(22),
        id(23),
        Some(id(12)),
        geometry(1),
        5,
    )
    .unwrap();
    let mut added = Vec::new();
    for turn in 0..6 {
        match turn {
            1 => c.ack_configure(1, 1),
            2 => {
                let size = Vector2 { x: 5, y: 5 };
                c.attach(1, Some(AttachedBuffer { id: id(71), size, transparent: true }));
            }
            3 => c.set_panel_item(0, XdgBackend::new().0),
            _ => {}
        }
        c.commit(1, says);
        for action in c.take_actions() {
            if let Action::Shell { toplevel, call: ShellCall::CreateChild { info } } = action {
                added.push((turn, toplevel, info));
            }
        }
    }
    let info = ChildState {
        id: 5,
        parent: SurfaceId::Toplevel,
        geometry: geometry(1),
        z_order: 1,
        input_regions: InputRegions::Whole,
    };
    assert_eq!(added, vec![(3, 0, info)]);
}

#[test]
fn toplevels_have_texts_and_an_end() {
    let Scene { compositor: mut c, .. } = scene();
    c.set_title(0, "Title".to_string());
    c.set_app_id(0, "org.app".to_string());
    assert_eq!(c.toplevels()[0].title, Some("Title".to_string()));
    assert_eq!(c.toplevels()[0].app_id, Some("org.app".to_string()));
    c.release_toplevel(0);
    c.commit(0, says);
    assert_eq!(c.take_actions(), vec![]);
}

#[test]
fn panel_shells_know_what_they_are_started_for() {
    let var = |name: &str, value: &str| (name.to_string(), value.to_string());
    assert_eq!(
        panel_shell_vars(None, None, None),
        vec![var("SDXR_WL_DEFAULT_PANEL_SHELL", "1")]
    );
    assert_eq!(
        panel_shell_vars(
            Some("token".to_string()),
            Some("org.app".to_string()),
            Some("Title".to_string())
        ),
        vec![
            var("SDXR_WL_DEFAULT_PANEL_SHELL", "1"),
            var("STARDUST_STARTUP_TOKEN", "token"),
            var("SDXR_WL_APP_ID", "org.app"),
            var("SDXR_WL_TITLE", "Title"),
        ]
    );
}

#[test]
fn the_panel_shell_of_the_user_is_launched() {
    let var = |name: &str, value: &str| (name.to_string(), value.to_string());
    let path = || Some("/home/u/default_panel_shell".to_string());
    let Scene { compositor: mut c, .. } = scene();
    assert_eq!(shell_to_launch(path(), false, None, &c.toplevels()[0]), None);
    assert_eq!(shell_to_launch(None, true, None, &c.toplevels()[0]), None);
    assert_eq!(
        shell_to_launch(path(), true, None, &c.toplevels()[0]),
        Some((path().unwrap(), vec![var("SDXR_WL_DEFAULT_PANEL_SHELL", "1")]))
    );
    c.set_title(0, "Title".to_string());
    c.set_app_id(0, "org.app".to_string());
    assert_eq!(
        shell_to_launch(path(), true, Some("token".to_string()), &c.toplevels()[0]),
        Some((
            path().unwrap(),
            vec![
                var("SDXR_WL_DEFAULT_PANEL_SHELL", "1"),
                var("STARDUST_STARTUP_TOKEN", "token"),
                var("SDXR_WL_APP_ID", "org.app"),
                var("SDXR_WL_TITLE", "Title"),
            ]
        ))
    );
    assert_eq!(startup_place(Some('p')), StartupPlace::Known('p'));
    assert_eq!(startup_place::<char>(None), StartupPlace::Root);
}

#[test]
fn popups_are_added_beside_those_that_are_gone() {
    let Scene { mut client, compositor: mut c } = scene();
    c.set_panel_item(0, XdgBackend::new().0);
    for popup in [23, 24] {
        XdgSurface::get_popup_as(
            &mut c,
            &mut client,
            1,
            id(22),
            id(popup),
            Some(id(12)),
            geometry(1),
            5,
        )
        .unwrap();
        if popup == 23 {
            Popup::release(&mut c, 0);
        }
    }
    c.ack_configure(1, 1);
    c.take_actions();
    commit_buffer(&mut c, 1, 80);
    let added = c
        .take_actions()
        .into_iter()
        .filter(|a| matches!(a, Action::Shell { call: ShellCall::CreateChild { .. }, .. }))
        .count();
    assert_eq!(added, 1);
}
