//! `xdg_popup`: a short-lived surface next to another one.
use crate::client::{Client, ClientView};
use crate::compositor::Compositor;
use crate::event::{Event, EventView};
use crate::protocols::wl::surface::{Surface, SurfaceView};
use crate::protocols::xdg::surface::popup_events;
use crate::scene::Scene;
use crate::types::{Geometry, ObjectId, SurfaceUpdateTarget};
use vstd::prelude::*;

verus! {

/// The version from which a client is told which of its requests a new place answers.
pub const REPOSITIONED_SINCE: u32 = 5;

/// A popup of the `xdg_surface` at the place `surface`.
#[derive(Debug, Clone, Copy, PartialEq, Eq)]
pub struct Popup {
    pub version: u32,
    pub surface: usize,
    /// Where the positioner puts the popup when nothing is in its way.
    pub geometry: Geometry,
    pub id: ObjectId,
    /// Whether anything still refers to the popup.
    pub alive: bool,
}

impl Scene {
    /// The scene once a popup was given another place.
    pub open spec fn repositioned(self, popup: usize, geometry: Geometry) -> Scene {
        let p = self.popups[popup as int];
        let w = self.xdg_surfaces[p.surface as int].wl_surface;
        (Scene {
            popups: self.popups.update(popup as int, Popup { geometry, ..p }),
            ..self
        }).with_moved_child(w as int, geometry)
    }

    /// The scene once nothing refers to a popup any more.
    pub open spec fn popup_released(self, popup: usize) -> Scene {
        let p = self.popups[popup as int];
        let w = self.xdg_surfaces[p.surface as int].wl_surface;
        (Scene {
            popups: self.popups.update(popup as int, Popup { alive: false, ..p }),
            ..self
        }).without_child(w as int)
    }
}

impl Popup {
    /// A popup whose surface is the child `child` of a panel item, unless it was named before.
    pub fn new(
        wl_surface: &mut Surface,
        version: u32,
        surface: usize,
        geometry: Geometry,
        id: ObjectId,
        child: u64,
    ) -> (popup: Self)
        ensures
            popup == (Popup { version, surface, geometry, id, alive: true }),
            final(wl_surface)@ == (SurfaceView {
                surface_id: match old(wl_surface)@.surface_id {
                    Some(first) => Some(first),
                    None => Some(SurfaceUpdateTarget::Child { id: child }),
                },
                ..old(wl_surface)@
            }),
    {
        wl_surface.set_surface_id(SurfaceUpdateTarget::Child { id: child });
        Popup { version, surface, geometry, id, alive: true }
    }

    /// Tells the client where the popup is.
    pub fn configure(&self, client: &mut Client, sender_id: ObjectId, geometry: Geometry)
        ensures
            final(client)@ == old(client)@.after(
                seq![
                    EventView::Plain(
                        Event::PopupConfigure {
                            popup: sender_id,
                            x: geometry.origin.x,
                            y: geometry.origin.y,
                            width: geometry.size.x as i32,
                            height: geometry.size.y as i32,
                        },
                    ),
                ],
                0,
            ),
    {
        client.send(
            Event::PopupConfigure {
                popup: sender_id,
                x: geometry.origin.x,
                y: geometry.origin.y,
                width: geometry.size.x as i32,
                height: geometry.size.y as i32,
            },
        );
    }

    /// Gives a popup another place, and tells the client and the panel shell of it.
    pub fn reposition(
        compositor: &mut Compositor,
        client: &mut Client,
        popup: usize,
        sender_id: ObjectId,
        geometry: Geometry,
        token: u32,
    )
        requires
            old(compositor).wf(),
            popup < old(compositor)@.popups.len(),
        ensures
            final(compositor).wf(),
            final(compositor)@ == old(compositor)@.repositioned(popup, geometry),
            ({
                let p = old(compositor)@.popups[popup as int];
                let surface = old(compositor)@.xdg_surfaces[p.surface as int].id;
                let named = if p.version >= REPOSITIONED_SINCE {
                    seq![EventView::Plain(Event::PopupRepositioned { popup: sender_id, token })]
                } else {
                    Seq::empty()
                };
                final(client)@ == old(client)@.after(
                    named + popup_events(sender_id, surface, geometry, old(client)@.serial),
                    1,
                )
            }),
    {
        let ghost before = compositor@;
        let p: Popup = compositor.popups[popup];
        assert(before.popups[popup as int].surface < before.xdg_surfaces.len());
        assert(before.xdg_surfaces[p.surface as int].wl_surface < before.surfaces.len());
        compositor.popups[popup].geometry = geometry;
        if p.version >= REPOSITIONED_SINCE {
            client.send(Event::PopupRepositioned { popup: sender_id, token });
        }
        p.configure(client, sender_id, geometry);
        compositor.xdg_surfaces[p.surface].reconfigure(client);
        proof {
            let surface = before.xdg_surfaces[p.surface as int].id;
            let named = if p.version >= REPOSITIONED_SINCE {
                seq![EventView::Plain(Event::PopupRepositioned { popup: sender_id, token })]
            } else {
                Seq::empty()
            };
            assert(client@.sent =~= old(client)@.sent + (named + popup_events(
                sender_id,
                surface,
                geometry,
                old(client)@.serial,
            )));
            assert(compositor@ =~= (Scene {
                popups: before.popups.update(popup as int, Popup { geometry, ..p }),
                ..before
            }));
            assert(compositor.wf());
        }
        let w: usize = compositor.xdg_surfaces[p.surface].wl_surface;
        compositor.reposition_child(w, geometry);
    }

    /// Takes the popup out of the client's objects.
    pub fn destroy(&self, client: &mut Client)
        ensures
            final(client)@ == (ClientView {
                objects: old(client)@.objects.remove(self.id.raw),
                ..old(client)@
            }),
    {
        client.remove(self.id);
    }

    /// Ends a popup: nothing refers to it any more, and its panel item drops it.
    pub fn release(compositor: &mut Compositor, popup: usize)
        requires
            old(compositor).wf(),
            popup < old(compositor)@.popups.len(),
        ensures
            final(compositor).wf(),
            final(compositor)@ == old(compositor)@.popup_released(popup),
    {
        let ghost before = compositor@;
        let p: Popup = compositor.popups[popup];
        assert(before.popups[popup as int].surface < before.xdg_surfaces.len());
        assert(before.xdg_surfaces[p.surface as int].wl_surface < before.surfaces.len());
        compositor.popups[popup].alive = false;
        proof {
            assert(compositor@ =~= (Scene {
                popups: before.popups.update(popup as int, Popup { alive: false, ..p }),
                ..before
            }));
            assert(compositor.wf());
        }
        let w: usize = compositor.xdg_surfaces[p.surface].wl_surface;
        compositor.remove_child(w);
    }
}

} // verus!
