use stardust_xr_wayland_service::client::{Client, Interface};
use stardust_xr_wayland_service::compositor::{Action, Compositor};
use stardust_xr_wayland_service::error::WaylandError;
use stardust_xr_wayland_service::event::Event;
use stardust_xr_wayland_service::message::Message;
use stardust_xr_wayland_service::plugin::{FrameTimings, UsedBuffers, WaylandPlugin};
use stardust_xr_wayland_service::presentation::MonotonicTimestamp;
use stardust_xr_wayland_service::protocols::wl::surface::{CommitFilter, Surface, SurfaceRole};
use stardust_xr_wayland_service::protocols::wl::surface_state::AttachedBuffer;
use stardust_xr_wayland_service::protocols::xdg::backend::{ShellCall, XdgBackend};
use stardust_xr_wayland_service::protocols::xdg::surface::Surface as XdgSurface;
use stardust_xr_wayland_service::socket::handle_render_message;
use stardust_xr_wayland_service::types::{ObjectId, SurfaceUpdateTarget, Vector2};

fn id(raw: u32) -> ObjectId {
    ObjectId { raw }
}

const YES: CommitFilter = CommitFilter { raw: 1 };
const NO: CommitFilter = CommitFilter { raw: 0 };

fn says(filter: CommitFilter) -> bool {
    filter == YES
}

fn buffer(raw: u32) -> AttachedBuffer {
    AttachedBuffer { id: id(raw), size: Vector2 { x: 64, y: 32 }, transparent: raw % 2 == 0 }
}

fn shows(compositor: &Compositor, surface: usize) -> Option<u32> {
    compositor.surfaces()[surface].current_buffer_usage().map(|b| b.id.raw)
}

#[test]
fn roles_have_names() {
    assert_eq!(SurfaceRole::Cursor.name(), "SurfaceRole::Cursor");
    assert_eq!(SurfaceRole::Subsurface.name(), "SurfaceRole::Subsurface");
    assert_eq!(SurfaceRole::XdgToplevel.name(), "SurfaceRole::XdgToplevel");
    assert_eq!(SurfaceRole::XdgPopup.name(), "SurfaceRole::XdgPopup");
}

#[test]
fn first_role_stays() {
    let mut surface = Surface::new(id(8));
    assert_eq!(surface.try_set_role(SurfaceRole::Cursor, 1), Ok(()));
    assert_eq!(surface.try_set_role(SurfaceRole::Cursor, 1), Ok(()));
    assert_eq!(
        surface.try_set_role(SurfaceRole::Subsurface, 6),
        Err(WaylandError::Fatal {
            object_id: id(8),
            code: 6,
            message: "Surface has an incomparible role",
        })
    );
    assert_eq!(surface.role, Some(SurfaceRole::Cursor));
    surface.release();
    assert_eq!(surface.role, None);
}

#[test]
fn only_subsurfaces_wait_for_their_parent() {
    let mut surface = Surface::new(id(8));
    surface.set_parent_syncronized_filter(YES);
    assert!(!surface.requires_surface_syncronization(true));
    surface.try_set_role(SurfaceRole::Subsurface, 0).unwrap();
    assert!(surface.requires_surface_syncronization(true));
    assert!(!surface.requires_surface_syncronization(false));
    surface.clear_parent_syncronized_filter();
    assert!(!surface.requires_surface_syncronization(true));
}

#[test]
fn commits_show_what_was_attached() {
    let mut compositor = Compositor::new();
    let surface = compositor.new_surface(id(5));
    assert!(!compositor.surfaces()[surface].currently_has_valid_buffer());
    compositor.attach(surface, Some(buffer(20)));
    assert_eq!(shows(&compositor, surface), None);
    compositor.commit(surface, says);
    assert_eq!(shows(&compositor, surface), Some(20));
    assert!(compositor.surfaces()[surface].currently_has_valid_buffer());
    assert_eq!(
        compositor.surfaces()[surface].current_buffer_size(),
        Some(Vector2 { x: 64, y: 32 })
    );
    // The buffer stays until it is taken away.
    compositor.commit(surface, says);
    assert_eq!(shows(&compositor, surface), Some(20));
    compositor.attach(surface, None);
    compositor.commit(surface, says);
    assert_eq!(shows(&compositor, surface), None);
}

#[test]
fn buffers_without_pixels_are_not_valid() {
    let mut compositor = Compositor::new();
    let surface = compositor.new_surface(id(5));
    let empty = AttachedBuffer { id: id(7), size: Vector2 { x: 4, y: 0 }, transparent: false };
    compositor.attach(surface, Some(empty));
    compositor.commit(surface, says);
    assert!(!compositor.surfaces()[surface].currently_has_valid_buffer());
}

#[test]
fn scale_is_part_of_the_state() {
    let mut compositor = Compositor::new();
    let surface = compositor.new_surface(id(5));
    assert_eq!(compositor.surfaces()[surface].state_lock().current.density, 1);
    compositor.set_buffer_scale(surface, 2);
    assert_eq!(compositor.surfaces()[surface].state_lock().current.density, 1);
    compositor.commit(surface, says);
    assert_eq!(compositor.surfaces()[surface].state_lock().current.density, 2);
}

fn subsurface(compositor: &mut Compositor, raw: u32, parent: usize) -> usize {
    let surface = compositor.new_surface(id(raw));
    compositor.try_set_role(surface, SurfaceRole::Subsurface, 0).unwrap();
    compositor.set_parent_syncronized_filter(surface, YES);
    compositor.set_parent(surface, parent);
    surface
}

#[test]
fn waiting_surfaces_show_with_their_parent() {
    let mut compositor = Compositor::new();
    let root = compositor.new_surface(id(1));
    let child = subsurface(&mut compositor, 2, root);
    let grandchild = subsurface(&mut compositor, 3, child);
    compositor.attach(grandchild, Some(buffer(33)));
    compositor.commit(grandchild, says);
    compositor.attach(child, Some(buffer(22)));
    compositor.commit(child, says);
    compositor.attach(child, Some(buffer(24)));
    compositor.commit(child, says);
    assert_eq!(shows(&compositor, child), None);
    assert_eq!(shows(&compositor, grandchild), None);
    compositor.commit(root, says);
    assert_eq!(shows(&compositor, child), Some(24));
    assert_eq!(shows(&compositor, grandchild), Some(33));
}

#[test]
fn surfaces_that_do_not_wait_keep_their_own_time() {
    let mut compositor = Compositor::new();
    let root = compositor.new_surface(id(1));
    let child = subsurface(&mut compositor, 2, root);
    let grandchild = subsurface(&mut compositor, 3, child);
    compositor.attach(grandchild, Some(buffer(33)));
    compositor.commit(grandchild, says);
    compositor.set_parent_syncronized_filter(child, NO);
    // The child does not wait, so the root does not reach what waits for the child.
    compositor.commit(root, says);
    assert_eq!(shows(&compositor, grandchild), None);
    compositor.attach(child, Some(buffer(22)));
    compositor.commit(child, says);
    assert_eq!(shows(&compositor, child), Some(22));
    assert_eq!(shows(&compositor, grandchild), Some(33));
}

#[test]
fn first_parent_stays() {
    let mut compositor = Compositor::new();
    let a = compositor.new_surface(id(1));
    let b = compositor.new_surface(id(2));
    let child = compositor.new_surface(id(3));
    assert_eq!(compositor.parent(child), None);
    compositor.set_parent(child, a);
    compositor.set_parent(child, b);
    assert_eq!(compositor.parent(child), Some(a));
    assert_eq!(compositor.surfaces()[a].children, vec![child]);
    assert!(compositor.surfaces()[b].children.is_empty());
    compositor.release_surface(a);
    assert_eq!(compositor.parent(child), None);
}

#[test]
fn filters_are_asked_at_every_commit() {
    let mut compositor = Compositor::new();
    let root = compositor.new_surface(id(1));
    let child = subsurface(&mut compositor, 2, root);
    compositor.attach(child, Some(buffer(22)));
    compositor.commit(child, |_| true);
    assert_eq!(shows(&compositor, child), None);
    compositor.attach(child, Some(buffer(24)));
    compositor.commit(child, |_| false);
    assert_eq!(shows(&compositor, child), Some(24));
    compositor.attach(child, Some(buffer(26)));
    compositor.on_commit(child, &vec![false, true]);
    compositor.on_commit(root, &vec![true, false]);
    assert_eq!(shows(&compositor, child), Some(24));
    compositor.on_commit(root, &vec![false, true]);
    assert_eq!(shows(&compositor, child), Some(26));
}

#[test]
fn surfaces_in_a_circle_can_be_committed() {
    let mut compositor = Compositor::new();
    let a = compositor.new_surface(id(1));
    let b = subsurface(&mut compositor, 2, a);
    compositor.set_parent(a, b);
    assert_eq!((compositor.parent(a), compositor.parent(b)), (Some(b), Some(a)));
    compositor.attach(b, Some(buffer(22)));
    compositor.commit(b, says);
    assert_eq!(shows(&compositor, b), None);
    compositor.attach(a, Some(buffer(24)));
    compositor.commit(a, says);
    assert_eq!((shows(&compositor, a), shows(&compositor, b)), (Some(24), Some(22)));
    compositor.attach(b, Some(buffer(26)));
    compositor.update_current_state_recursive(b, &vec![false, true]);
    assert_eq!(shows(&compositor, b), Some(22));
}

#[test]
fn dead_children_are_left_out() {
    let mut compositor = Compositor::new();
    let root = compositor.new_surface(id(1));
    let child = subsurface(&mut compositor, 2, root);
    compositor.attach(child, Some(buffer(22)));
    compositor.commit(child, says);
    compositor.release_surface(child);
    compositor.commit(root, says);
    assert_eq!(shows(&compositor, child), None);
}

#[test]
fn callbacks_survive_commits_and_are_answered_once() {
    let mut client = Client::new();
    let mut compositor = Compositor::new();
    let root = compositor.new_surface(id(1));
    let child = subsurface(&mut compositor, 2, root);
    assert_eq!(compositor.frame(child, &mut client, id(40)), Ok(()));
    compositor.commit(child, says);
    assert_eq!(compositor.frame(child, &mut client, id(41)), Ok(()));
    assert_eq!(
        compositor.frame(child, &mut client, id(41)),
        Err(WaylandError::FailedToInsertObject)
    );
    compositor.commit(child, says);
    assert_eq!(compositor.frame_event(child), None);
    compositor.frame(child, &mut client, id(42)).unwrap();
    compositor.commit(root, says);
    assert_eq!(
        compositor.frame_event(child),
        Some(Message::Frame(vec![id(40), id(41)]))
    );
    assert_eq!(compositor.frame_event(child), None);
    assert!(client.has(id(42), Interface::Callback));
}

#[test]
fn presentation_is_told_once() {
    let mut client = Client::new();
    let mut compositor = Compositor::new();
    let surface = compositor.new_surface(id(1));
    compositor.add_presentation_feedback(surface, id(50));
    compositor.add_presentation_feedback(surface, id(51));
    let display_timestamp =
        MonotonicTimestamp { secs: 0x2_0000_0003, subsec_nanos: 17 };
    let message = Message::SendPresentationFeedback {
        surface,
        display_timestamp,
        refresh_cycle: 0x5_0000_0006,
    };
    assert_eq!(
        Surface::submit_presentation_feedback(surface, display_timestamp, 0x5_0000_0006),
        message
    );
    handle_render_message(
        &mut client,
        &mut compositor,
        message,
        display_timestamp,
        Some(id(4)),
        true,
    );
    let presented = |feedback| Event::FeedbackPresented {
        feedback,
        tv_sec_hi: 2,
        tv_sec_lo: 3,
        tv_nsec: 17,
        refresh: 0,
        seq_hi: 5,
        seq_lo: 6,
        flags: 0,
    };
    assert_eq!(
        client.take_outgoing(),
        vec![
            Event::FeedbackSyncOutput { feedback: id(50), output: id(4) },
            presented(id(50)),
            Event::FeedbackSyncOutput { feedback: id(51), output: id(4) },
            presented(id(51)),
        ]
    );
    compositor.send_presentation_feedback(surface, &mut client, None, display_timestamp, 1);
    assert_eq!(client.take_outgoing(), vec![]);
}

#[test]
fn committed_buffers_are_shown_on_the_panel_item() {
    let mut client = Client::new();
    let mut compositor = Compositor::new();
    let surface = compositor.new_surface(id(5));
    let xdg = compositor.new_xdg_surface(id(6), 3, surface);
    XdgSurface::get_toplevel(&mut compositor, &mut client, xdg, id(7)).unwrap();
    compositor.set_surface_id(surface, SurfaceUpdateTarget::Toplevel);
    compositor.set_panel_item(0, XdgBackend::new().0);
    compositor.take_actions();
    compositor.attach(surface, Some(buffer(21)));
    compositor.commit(surface, says);
    assert_eq!(
        compositor.take_actions(),
        vec![
            Action::Reconfigure { toplevel: 0 },
            // The handlers see the buffer that was just committed.
            Action::Shell {
                toplevel: 0,
                call: ShellCall::ToplevelResized { size: Vector2 { x: 64, y: 32 } },
            },
            Action::Shell {
                toplevel: 0,
                call: ShellCall::UpdateSurfaceDmatex {
                    target: SurfaceUpdateTarget::Toplevel,
                    buffer: id(21),
                    opaque: true,
                },
            },
        ]
    );
}

#[test]
fn frames_concern_live_surfaces() {
    let mut client = Client::new();
    let mut compositor = Compositor::new();
    let a = compositor.new_surface(id(1));
    let b = compositor.new_surface(id(2));
    let c = compositor.new_surface(id(3));
    for (surface, raw) in [(a, 61), (b, 62), (c, 63)] {
        compositor.attach(surface, Some(buffer(raw + 10)));
        compositor.frame(surface, &mut client, id(raw)).unwrap();
        compositor.commit(surface, says);
    }
    compositor.release_surface(b);
    assert_eq!(WaylandPlugin::valid_surfaces(&compositor), vec![a, c]);

    let mut used = UsedBuffers::new();
    used.before_render(&compositor);
    let held: Vec<u32> = used.buffers.iter().map(|b| b.id.raw).collect();
    assert_eq!(held, vec![71, 73]);
    used.after_render();
    assert!(used.buffers.is_empty());

    assert_eq!(
        WaylandPlugin::frame_events(&mut compositor),
        vec![Message::Frame(vec![id(61)]), Message::Frame(vec![id(63)])]
    );
    assert_eq!(WaylandPlugin::frame_events(&mut compositor), vec![]);

    let mut timings = FrameTimings::new();
    let clock = MonotonicTimestamp { secs: 9, subsec_nanos: 1 };
    let predicted = MonotonicTimestamp { secs: 10, subsec_nanos: 2 };
    let told = |surface, display_timestamp, refresh_cycle| {
        Message::SendPresentationFeedback { surface, display_timestamp, refresh_cycle }
    };
    assert_eq!(
        timings.submit_frame_timings(&compositor, None, clock),
        vec![told(a, clock, 1), told(c, clock, 1)]
    );
    assert_eq!(
        timings.submit_frame_timings(&compositor, Some(predicted), clock),
        vec![told(a, predicted, 2), told(c, predicted, 2)]
    );
}
