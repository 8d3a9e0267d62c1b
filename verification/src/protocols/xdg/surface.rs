//! `xdg_surface`: a surface on its way to becoming a window or a popup.
use crate::client::{Client, ClientView, Interface};
use crate::collections::random_id;
use crate::compositor::Compositor;
use crate::error::{WaylandError, WaylandResult};
use crate::event::{Event, EventView};
use crate::protocols::wl::surface::{CommitHandler, SurfaceRole, SurfaceView};
use crate::protocols::xdg::popup::Popup;
use crate::protocols::xdg::toplevel::{Toplevel, ToplevelView};
use crate::scene::{lemma_grown, lemma_relinked, Scene};
use crate::types::{
    ChildState, Geometry, InputRegions, ObjectId, SurfaceId, SurfaceUpdateTarget,
};
use vstd::prelude::*;

verus! {

/// The protocol error of a surface that was given another role before.
pub const ALREADY_CONSTRUCTED: u32 = 2;

/// The protocol error of a popup whose parent cannot have popups.
pub const INVALID_POPUP_PARENT: u32 = 3;

/// The `xdg_surface` of the surface at the place `wl_surface`.
#[derive(Debug, Clone, Copy, PartialEq, Eq, Structural)]
pub struct Surface {
    pub id: ObjectId,
    pub version: u32,
    pub wl_surface: usize,
    /// Whether the client has answered a configure event.
    pub configured: bool,
}

/// The error of a surface that has another role than the one it is to get.
pub open spec fn role_conflict(surface: SurfaceView, role: SurfaceRole) -> Option<WaylandError> {
    match surface.role {
        Some(current) if current != role => Some(
            WaylandError::Fatal {
                object_id: surface.id,
                code: ALREADY_CONSTRUCTED,
                message: "Surface has an incomparible role",
            },
        ),
        _ => None,
    }
}

/// The place of the newest `xdg_surface` with an id.
pub open spec fn place_of(xdg_surfaces: Seq<Surface>, id: ObjectId) -> Option<usize>
    decreases xdg_surfaces.len(),
{
    if xdg_surfaces.len() == 0 {
        None
    } else if xdg_surfaces.last().id == id {
        Some((xdg_surfaces.len() - 1) as usize)
    } else {
        place_of(xdg_surfaces.drop_last(), id)
    }
}

/// The place of the `xdg_surface` that a client has under an id.
pub open spec fn xdg_surface_named(
    client: ClientView,
    xdg_surfaces: Seq<Surface>,
    id: ObjectId,
) -> Option<usize> {
    if client.objects.contains_key(id.raw) && client.objects[id.raw] == Interface::XdgSurface {
        place_of(xdg_surfaces, id)
    } else {
        None
    }
}

/// What a panel shell is told of a popup: that it is a child of its parent, one level above
/// it, and takes input everywhere. `None` where the popup is no child or its parent is no
/// part of a panel item.
pub open spec fn popup_state(
    popup: Option<SurfaceUpdateTarget>,
    parent: Option<SurfaceUpdateTarget>,
    geometry: Geometry,
) -> Option<ChildState> {
    match (popup, parent) {
        (Some(SurfaceUpdateTarget::Child { id }), Some(parent)) => Some(
            ChildState {
                id,
                parent: match parent {
                    SurfaceUpdateTarget::Child { id } => SurfaceId::Child { id },
                    _ => SurfaceId::Toplevel,
                },
                geometry,
                z_order: 1,
                input_regions: InputRegions::Whole,
            },
        ),
        _ => None,
    }
}

/// The events that tell a client where a popup is.
pub open spec fn popup_events(
    popup: ObjectId,
    surface: ObjectId,
    geometry: Geometry,
    serial: u32,
) -> Seq<EventView> {
    seq![
        EventView::Plain(
            Event::PopupConfigure {
                popup,
                x: geometry.origin.x,
                y: geometry.origin.y,
                width: geometry.size.x as i32,
                height: geometry.size.y as i32,
            },
        ),
        EventView::Plain(Event::XdgSurfaceConfigure { surface, serial }),
    ]
}

impl Scene {
    /// The scene, the client and the answer after a request for a toplevel. The toplevel
    /// is there even where the surface turns out to have another role.
    pub open spec fn toplevel_requested(
        self,
        client: ClientView,
        surface: usize,
        toplevel_id: ObjectId,
    ) -> (Scene, ClientView, WaylandResult<()>) {
        let w = self.xdg_surfaces[surface as int].wl_surface;
        let s = self.surfaces[w as int];
        let toplevel = self.toplevels.len() as usize;
        let made = Scene {
            toplevels: self.toplevels.push(ToplevelView::new(toplevel_id, w, surface)),
            ..self
        };
        let after = ClientView {
            objects: client.objects.insert(toplevel_id.raw, Interface::Toplevel),
            ..client
        };
        if client.objects.contains_key(toplevel_id.raw) {
            (self, client, Err(WaylandError::FailedToInsertObject))
        } else if let Some(e) = role_conflict(s, SurfaceRole::XdgToplevel) {
            (made, after, Err(e))
        } else {
            (
                made.with_surface(
                    w as int,
                    SurfaceView {
                        role: Some(SurfaceRole::XdgToplevel),
                        toplevel: Some(toplevel),
                        on_commit_handlers: s.on_commit_handlers.push(
                            CommitHandler::Toplevel { toplevel, first_commit: true },
                        ),
                        ..s
                    },
                ),
                after,
                Ok(()),
            )
        }
    }

    /// The scene once a surface shares the toplevel of another one, and is the child `child`
    /// of it unless it was named before.
    pub open spec fn with_popup_surface(self, w: usize, parent: usize, child: u64) -> Scene {
        let s = self.surfaces[w as int];
        self.with_surface(
            w as int,
            SurfaceView {
                toplevel: self.surfaces[parent as int].toplevel,
                surface_id: match s.surface_id {
                    Some(first) => Some(first),
                    None => Some(SurfaceUpdateTarget::Child { id: child }),
                },
                ..s
            },
        )
    }

    /// The scene, the client and the answer after a request for a popup whose surface is
    /// given the role already.
    pub open spec fn popup_made(
        self,
        client: ClientView,
        surface: usize,
        sender_id: ObjectId,
        popup_id: ObjectId,
        parent: usize,
        geometry: Geometry,
        child: u64,
    ) -> (Scene, ClientView, WaylandResult<()>) {
        let x = self.xdg_surfaces[surface as int];
        let w = x.wl_surface;
        let p = self.xdg_surfaces[parent as int].wl_surface;
        let named = self.with_popup_surface(w, p, child);
        let s = named.surfaces[w as int];
        if client.objects.contains_key(popup_id.raw) {
            (named.without_child(w as int), client, Err(WaylandError::FailedToInsertObject))
        } else {
            let made = Scene {
                popups: named.popups.push(
                    Popup { version: x.version, surface, geometry, id: popup_id, alive: true },
                ),
                ..named
            };
            let after = (ClientView {
                objects: client.objects.insert(popup_id.raw, Interface::Popup),
                ..client
            }).after(popup_events(popup_id, sender_id, geometry, client.serial), 1);
            match popup_state(s.surface_id, named.surfaces[p as int].surface_id, geometry) {
                Some(info) => (
                    made.with_surface(
                        w as int,
                        SurfaceView {
                            on_commit_handlers: s.on_commit_handlers.push(
                                CommitHandler::Popup { popup: named.popups.len() as usize, info },
                            ),
                            ..s
                        },
                    ),
                    after,
                    Ok(()),
                ),
                None => (made, after, Ok(())),
            }
        }
    }

    /// The scene, the client and the answer after a request for a popup, `child` being the
    /// number by which its panel item may know it.
    pub open spec fn popup_requested(
        self,
        client: ClientView,
        surface: usize,
        sender_id: ObjectId,
        popup_id: ObjectId,
        parent: Option<ObjectId>,
        geometry: Geometry,
        child: u64,
    ) -> (Scene, ClientView, WaylandResult<()>) {
        let w = self.xdg_surfaces[surface as int].wl_surface;
        let s = self.surfaces[w as int];
        let roled = self.with_surface(
            w as int,
            SurfaceView { role: Some(SurfaceRole::XdgPopup), ..s },
        );
        if let Some(e) = role_conflict(s, SurfaceRole::XdgPopup) {
            (self, client, Err(e))
        } else {
            match parent {
                None => (
                    roled,
                    client,
                    Err(
                        WaylandError::Fatal {
                            object_id: popup_id,
                            code: INVALID_POPUP_PARENT,
                            message: "Parent surface does not have an XDG role",
                        },
                    ),
                ),
                Some(parent) => match xdg_surface_named(client, self.xdg_surfaces, parent) {
                    None => (
                        roled,
                        client,
                        Err(
                            WaylandError::Fatal {
                                object_id: popup_id,
                                code: INVALID_POPUP_PARENT,
                                message: "Parent surface does not exist",
                            },
                        ),
                    ),
                    Some(parent) => roled.popup_made(
                        client,
                        surface,
                        sender_id,
                        popup_id,
                        parent,
                        geometry,
                        child,
                    ),
                },
            }
        }
    }
}

impl Surface {
    pub fn new(id: ObjectId, version: u32, wl_surface: usize) -> (surface: Self)
        ensures
            surface == (Surface { id, version, wl_surface, configured: false }),
    {
        Surface { id, version, wl_surface, configured: false }
    }

    /// Asks the client to answer a new configuration.
    pub fn reconfigure(&self, client: &mut Client)
        ensures
            final(client)@ == old(client)@.after(
                seq![
                    EventView::Plain(
                        Event::XdgSurfaceConfigure {
                            surface: self.id,
                            serial: old(client)@.serial,
                        },
                    ),
                ],
                1,
            ),
    {
        let serial: u32 = client.next_event_serial();
        client.send(Event::XdgSurfaceConfigure { surface: self.id, serial });
    }

    /// Takes the object out of the client's objects.
    pub fn destroy(&self, client: &mut Client)
        ensures
            final(client)@ == (ClientView {
                objects: old(client)@.objects.remove(self.id.raw),
                ..old(client)@
            }),
    {
        client.remove(self.id);
    }

    /// Notes that the client has answered a configuration, whichever it was.
    pub fn ack_configure(&mut self, _serial: u32)
        ensures
            *final(self) == (Surface { configured: true, ..*old(self) }),
    {
        self.configured = true;
    }

    /// Makes a toplevel of the surface. On its first commit the toplevel is configured, and
    /// once it is ready it is mapped.
    pub fn get_toplevel(
        compositor: &mut Compositor,
        client: &mut Client,
        surface: usize,
        toplevel_id: ObjectId,
    ) -> (r: WaylandResult<()>)
        requires
            old(compositor).wf(),
            surface < old(compositor)@.xdg_surfaces.len(),
        ensures
            final(compositor).wf(),
            (final(compositor)@, final(client)@, r) == old(compositor)@.toplevel_requested(
                old(client)@,
                surface,
                toplevel_id,
            ),
    {
        let ghost before = compositor@;
        let w: usize = compositor.xdg_surfaces[surface].wl_surface;
        assert(before.xdg_surfaces[surface as int].wl_surface < before.surfaces.len());
        if let Err(e) = client.insert(toplevel_id, Interface::Toplevel) {
            assert(compositor@ =~= before);
            return Err(e);
        }
        let toplevel: usize = compositor.toplevels.len();
        compositor.toplevels.push(Toplevel::new(toplevel_id, w, surface));
        let ghost made = compositor@;
        proof {
            assert(made.toplevels =~= before.toplevels.push(
                ToplevelView::new(toplevel_id, w, surface),
            ));
            lemma_grown(before, made);
            assert(made.surfaces[w as int] == compositor.surfaces@[w as int]@);
            assert(made.surfaces[w as int] == before.surfaces[w as int]);
        }
        if let Err(e) = compositor.surfaces[w].try_set_role(
            SurfaceRole::XdgToplevel,
            ALREADY_CONSTRUCTED,
        ) {
            assert(compositor@ =~= made);
            return Err(e);
        }
        compositor.surfaces[w].toplevel = Some(toplevel);
        compositor.surfaces[w].add_commit_handler(
            CommitHandler::Toplevel { toplevel, first_commit: true },
        );
        proof {
            let s = before.surfaces[w as int];
            let view = SurfaceView {
                role: Some(SurfaceRole::XdgToplevel),
                toplevel: Some(toplevel),
                on_commit_handlers: s.on_commit_handlers.push(
                    CommitHandler::Toplevel { toplevel, first_commit: true },
                ),
                ..s
            };
            assert(compositor@ =~= made.with_surface(w as int, view));
            lemma_relinked(made, w as int, view);
        }
        Ok(())
    }

    /// The place of the `xdg_surface` that a client has under an id.
    fn find(compositor: &Compositor, client: &Client, id: ObjectId) -> (place: Option<usize>)
        ensures
            place == xdg_surface_named(client@, compositor@.xdg_surfaces, id),
            place matches Some(p) ==> p < compositor@.xdg_surfaces.len(),
    {
        if !client.has(id, Interface::XdgSurface) {
            return None;
        }
        let ghost all = compositor.xdg_surfaces@;
        let mut n: usize = compositor.xdg_surfaces.len();
        assert(all.take(n as int) =~= all);
        while n > 0
            invariant
                n <= all.len(),
                all == compositor.xdg_surfaces@,
                place_of(all, id) == place_of(all.take(n as int), id),
                client@.objects.contains_key(id.raw),
                client@.objects[id.raw] == Interface::XdgSurface,
            decreases n,
        {
            assert(all.take(n as int).drop_last() =~= all.take(n - 1));
            assert(all.take(n as int).last() == all[n - 1]);
            n -= 1;
            if compositor.xdg_surfaces[n].id == id {
                return Some(n);
            }
        }
        None
    }

    /// Makes a popup of the surface, next to the one that has the id `parent`, where
    /// `geometry` says. The number by which its panel item knows it is drawn at random.
    pub fn get_popup(
        compositor: &mut Compositor,
        client: &mut Client,
        surface: usize,
        sender_id: ObjectId,
        popup_id: ObjectId,
        parent: Option<ObjectId>,
        geometry: Geometry,
    ) -> (r: WaylandResult<()>)
        requires
            old(compositor).wf(),
            surface < old(compositor)@.xdg_surfaces.len(),
        ensures
            final(compositor).wf(),
            exists|child: u64|
                (final(compositor)@, final(client)@, r)
                    == #[trigger] old(compositor)@.popup_requested(
                    old(client)@,
                    surface,
                    sender_id,
                    popup_id,
                    parent,
                    geometry,
                    child,
                ),
    {
        let child: u64 = random_id();
        Self::get_popup_as(
            compositor,
            client,
            surface,
            sender_id,
            popup_id,
            parent,
            geometry,
            child,
        )
    }

    /// As [`Surface::get_popup`], with the number that was drawn.
    pub fn get_popup_as(
        compositor: &mut Compositor,
        client: &mut Client,
        surface: usize,
        sender_id: ObjectId,
        popup_id: ObjectId,
        parent: Option<ObjectId>,
        geometry: Geometry,
        child: u64,
    ) -> (r: WaylandResult<()>)
        requires
            old(compositor).wf(),
            surface < old(compositor)@.xdg_surfaces.len(),
        ensures
            final(compositor).wf(),
            (final(compositor)@, final(client)@, r) == old(compositor)@.popup_requested(
                old(client)@,
                surface,
                sender_id,
                popup_id,
                parent,
                geometry,
                child,
            ),
    {
        let ghost before = compositor@;
        let w: usize = compositor.xdg_surfaces[surface].wl_surface;
        assert(before.xdg_surfaces[surface as int].wl_surface < before.surfaces.len());
        assert(before.surfaces[w as int] == compositor.surfaces@[w as int]@);
        if let Err(e) = compositor.surfaces[w].try_set_role(
            SurfaceRole::XdgPopup,
            ALREADY_CONSTRUCTED,
        ) {
            assert(compositor@ =~= before);
            return Err(e);
        }
        let ghost view = SurfaceView {
            role: Some(SurfaceRole::XdgPopup),
            ..before.surfaces[w as int]
        };
        proof {
            assert(compositor@ =~= before.with_surface(w as int, view));
            lemma_relinked(before, w as int, view);
        }
        let parent = match parent {
            Some(parent) => parent,
            None => {
                return Err(
                    WaylandError::Fatal {
                        object_id: popup_id,
                        code: INVALID_POPUP_PARENT,
                        message: "Parent surface does not have an XDG role",
                    },
                );
            },
        };
        match Self::find(compositor, client, parent) {
            Some(parent) => Self::make_popup(
                compositor,
                client,
                surface,
                sender_id,
                popup_id,
                parent,
                geometry,
                child,
            ),
            None => Err(
                WaylandError::Fatal {
                    object_id: popup_id,
                    code: INVALID_POPUP_PARENT,
                    message: "Parent surface does not exist",
                },
            ),
        }
    }

    fn make_popup(
        compositor: &mut Compositor,
        client: &mut Client,
        surface: usize,
        sender_id: ObjectId,
        popup_id: ObjectId,
        parent: usize,
        geometry: Geometry,
        child: u64,
    ) -> (r: WaylandResult<()>)
        requires
            old(compositor).wf(),
            surface < old(compositor)@.xdg_surfaces.len(),
            parent < old(compositor)@.xdg_surfaces.len(),
        ensures
            final(compositor).wf(),
            (final(compositor)@, final(client)@, r) == old(compositor)@.popup_made(
                old(client)@,
                surface,
                sender_id,
                popup_id,
                parent,
                geometry,
                child,
            ),
    {
        let ghost before = compositor@;
        let w: usize = compositor.xdg_surfaces[surface].wl_surface;
        let p: usize = compositor.xdg_surfaces[parent].wl_surface;
        assert(before.xdg_surfaces[surface as int].wl_surface < before.surfaces.len());
        assert(before.xdg_surfaces[parent as int].wl_surface < before.surfaces.len());
        assert(before.surfaces[w as int] == compositor.surfaces@[w as int]@);
        assert(before.surfaces[p as int] == compositor.surfaces@[p as int]@);
        let toplevel: Option<usize> = compositor.surfaces[p].toplevel;
        compositor.surfaces[w].toplevel = toplevel;
        let version: u32 = compositor.xdg_surfaces[surface].version;
        let popup = Popup::new(
            &mut compositor.surfaces[w],
            version,
            surface,
            geometry,
            popup_id,
            child,
        );
        let ghost named = before.with_popup_surface(w, p, child);
        proof {
            assert(compositor@ =~= named);
            assert(named == before.with_surface(w as int, named.surfaces[w as int]));
            lemma_relinked(before, w as int, named.surfaces[w as int]);
        }
        if let Err(e) = client.insert(popup_id, Interface::Popup) {
            compositor.remove_child(w);
            return Err(e);
        }
        let place: usize = compositor.popups.len();
        compositor.popups.push(popup);
        let ghost made = compositor@;
        proof {
            assert(made.popups =~= named.popups.push(popup));
            lemma_grown(named, made);
            assert(made.surfaces[w as int] == compositor.surfaces@[w as int]@);
            assert(made.surfaces[p as int] == compositor.surfaces@[p as int]@);
        }
        popup.configure(client, popup_id, geometry);
        let serial: u32 = client.next_event_serial();
        client.send(Event::XdgSurfaceConfigure { surface: sender_id, serial });
        assert(client@.sent =~= old(client)@.sent + popup_events(
            popup_id,
            sender_id,
            geometry,
            old(client)@.serial,
        ));
        let id: u64 = match compositor.surfaces[w].surface_id {
            Some(SurfaceUpdateTarget::Child { id }) => id,
            _ => {
                return Ok(());
            },
        };
        let parent: SurfaceId = match compositor.surfaces[p].surface_id {
            Some(SurfaceUpdateTarget::Child { id }) => SurfaceId::Child { id },
            Some(SurfaceUpdateTarget::Toplevel) => SurfaceId::Toplevel,
            Some(SurfaceUpdateTarget::Cursor) => SurfaceId::Toplevel,
            None => {
                return Ok(());
            },
        };
        let info = ChildState {
            id,
            parent,
            geometry,
            z_order: 1,
            input_regions: InputRegions::Whole,
        };
        compositor.surfaces[w].add_commit_handler(CommitHandler::Popup { popup: place, info });
        proof {
            let s = named.surfaces[w as int];
            let view = SurfaceView {
                on_commit_handlers: s.on_commit_handlers.push(
                    CommitHandler::Popup { popup: place, info },
                ),
                ..s
            };
            assert(compositor@ =~= made.with_surface(w as int, view));
            lemma_relinked(made, w as int, view);
        }
        Ok(())
    }
}

} // verus!
