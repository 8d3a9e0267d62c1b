//! What clients ask of one of their surfaces, and what a compositor shows of its parts.
use crate::client::{Client, ClientView, Interface};
use crate::compositor::{Action, Compositor};
use crate::error::{WaylandError, WaylandResult};
use crate::message::Message;
use crate::presentation::MonotonicTimestamp;
use crate::protocols::wl::surface::{
    all_presented_events, CommitFilter, Surface, SurfaceRole, SurfaceView,
};
use crate::protocols::wl::surface_state::AttachedBuffer;
use crate::protocols::xdg::popup::Popup;
use crate::protocols::xdg::surface::Surface as XdgSurface;
use crate::protocols::xdg::toplevel::{Toplevel, ToplevelView};
use crate::scene::{lemma_relinked, Scene};
use crate::types::{ObjectId, SurfaceUpdateTarget};
use vstd::prelude::*;

verus! {

/// The parts of a compositor, by their places.
impl Compositor {
    pub fn surfaces(&self) -> (surfaces: &Vec<Surface>)
        ensures
            surfaces@.map_values(|s: Surface| s@) == self@.surfaces,
    {
        &self.surfaces
    }

    pub fn xdg_surfaces(&self) -> (xdg_surfaces: &Vec<XdgSurface>)
        ensures
            xdg_surfaces@ == self@.xdg_surfaces,
    {
        &self.xdg_surfaces
    }

    pub fn toplevels(&self) -> (toplevels: &Vec<Toplevel>)
        ensures
            toplevels@.map_values(|t: Toplevel| t@) == self@.toplevels,
    {
        &self.toplevels
    }

    pub fn popups(&self) -> (popups: &Vec<Popup>)
        ensures
            popups@ == self@.popups,
    {
        &self.popups
    }

    /// Takes what is to be done, oldest first.
    pub fn take_actions(&mut self) -> (actions: Vec<Action>)
        ensures
            actions@ == old(self)@.actions,
            final(self)@ == (Scene { actions: Seq::empty(), ..old(self)@ }),
    {
        let mut actions: Vec<Action> = Vec::new();
        std::mem::swap(&mut actions, &mut self.actions);
        actions
    }
}

/// A compositor of whose surfaces one was changed, though not what it names, is still whole.
proof fn lemma_one_changed(before: Compositor, after: Compositor, k: int)
    requires
        before.wf(),
        0 <= k < before.surfaces@.len(),
        after.surfaces@ == before.surfaces@.update(k, after.surfaces@[k]),
        after.xdg_surfaces == before.xdg_surfaces,
        after.toplevels == before.toplevels,
        after.popups == before.popups,
        after.actions == before.actions,
        after.surfaces@[k]@.children == before.surfaces@[k]@.children,
        after.surfaces@[k]@.parent == before.surfaces@[k]@.parent,
        after.surfaces@[k]@.toplevel == before.surfaces@[k]@.toplevel,
        after.surfaces@[k]@.on_commit_handlers == before.surfaces@[k]@.on_commit_handlers,
    ensures
        after.wf(),
        before@.surfaces[k] == before.surfaces@[k]@,
        after@ == before@.with_surface(k, after.surfaces@[k]@),
{
    let view = after.surfaces@[k]@;
    assert(before@.surfaces[k] == before.surfaces@[k]@);
    assert(after@ =~= before@.with_surface(k, view));
    lemma_relinked(before@, k, view);
}

/// A compositor of whose toplevels one was changed, though not what it names, is still whole.
proof fn lemma_one_toplevel_changed(before: Compositor, after: Compositor, k: int)
    requires
        before.wf(),
        0 <= k < before.toplevels@.len(),
        after.surfaces == before.surfaces,
        after.xdg_surfaces == before.xdg_surfaces,
        after.toplevels@ == before.toplevels@.update(k, after.toplevels@[k]),
        after.popups == before.popups,
        after.actions == before.actions,
        after.toplevels@[k]@.wl_surface == before.toplevels@[k]@.wl_surface,
        after.toplevels@[k]@.xdg_surface == before.toplevels@[k]@.xdg_surface,
        after.toplevels@[k]@.mapped == before.toplevels@[k]@.mapped,
    ensures
        after.wf(),
        before@.toplevels[k] == before.toplevels@[k]@,
        after@ == before@.with_toplevel(k, after.toplevels@[k]@),
{
    assert(before@.toplevels[k] == before.toplevels@[k]@);
    assert(after@ =~= before@.with_toplevel(k, after.toplevels@[k]@));
    assert(after@.links());
}

/// What clients ask of a surface at a place.
impl Compositor {
    /// See [`Surface::try_set_role`].
    pub fn try_set_role(
        &mut self,
        surface: usize,
        role: SurfaceRole,
        role_error: u32,
    ) -> (r: WaylandResult<()>)
        requires
            old(self).wf(),
            surface < old(self)@.surfaces.len(),
        ensures
            final(self).wf(),
            ({
                let (after, answer) = old(self)@.surfaces[surface as int].with_role(
                    role,
                    role_error,
                );
                &&& final(self)@ == old(self)@.with_surface(surface as int, after)
                &&& r == answer
            }),
    {
        let r = self.surfaces[surface].try_set_role(role, role_error);
        proof {
            lemma_one_changed(*old(self), *self, surface as int);
        }
        r
    }

    /// See [`Surface::set_surface_id`].
    pub fn set_surface_id(&mut self, surface: usize, target: SurfaceUpdateTarget)
        requires
            old(self).wf(),
            surface < old(self)@.surfaces.len(),
        ensures
            final(self).wf(),
            final(self)@ == old(self)@.with_surface(
                surface as int,
                old(self)@.surfaces[surface as int].named(target),
            ),
    {
        self.surfaces[surface].set_surface_id(target);
        proof {
            lemma_one_changed(*old(self), *self, surface as int);
        }
    }

    /// See [`Surface::set_parent_syncronized_filter`].
    pub fn set_parent_syncronized_filter(&mut self, surface: usize, filter: CommitFilter)
        requires
            old(self).wf(),
            surface < old(self)@.surfaces.len(),
        ensures
            final(self).wf(),
            final(self)@ == old(self)@.with_surface(
                surface as int,
                SurfaceView {
                    requires_parent_sync: Some(filter),
                    ..old(self)@.surfaces[surface as int]
                },
            ),
    {
        self.surfaces[surface].set_parent_syncronized_filter(filter);
        proof {
            lemma_one_changed(*old(self), *self, surface as int);
        }
    }

    /// See [`Surface::clear_parent_syncronized_filter`].
    pub fn clear_parent_syncronized_filter(&mut self, surface: usize)
        requires
            old(self).wf(),
            surface < old(self)@.surfaces.len(),
        ensures
            final(self).wf(),
            final(self)@ == old(self)@.with_surface(
                surface as int,
                SurfaceView {
                    requires_parent_sync: None,
                    ..old(self)@.surfaces[surface as int]
                },
            ),
    {
        self.surfaces[surface].clear_parent_syncronized_filter();
        proof {
            lemma_one_changed(*old(self), *self, surface as int);
        }
    }

    /// See [`Surface::attach`].
    pub fn attach(&mut self, surface: usize, buffer: Option<AttachedBuffer>)
        requires
            old(self).wf(),
            surface < old(self)@.surfaces.len(),
        ensures
            final(self).wf(),
            final(self)@ == old(self)@.with_surface(
                surface as int,
                old(self)@.surfaces[surface as int].attached(buffer),
            ),
    {
        self.surfaces[surface].attach(buffer);
        proof {
            lemma_one_changed(*old(self), *self, surface as int);
        }
    }

    /// See [`Surface::set_buffer_scale`].
    pub fn set_buffer_scale(&mut self, surface: usize, scale: i32)
        requires
            old(self).wf(),
            surface < old(self)@.surfaces.len(),
        ensures
            final(self).wf(),
            final(self)@ == old(self)@.with_surface(
                surface as int,
                old(self)@.surfaces[surface as int].scaled(scale),
            ),
    {
        self.surfaces[surface].set_buffer_scale(scale);
        proof {
            lemma_one_changed(*old(self), *self, surface as int);
        }
    }

    /// See [`Surface::frame`].
    pub fn frame(
        &mut self,
        surface: usize,
        client: &mut Client,
        callback: ObjectId,
    ) -> (r: WaylandResult<()>)
        requires
            old(self).wf(),
            surface < old(self)@.surfaces.len(),
        ensures
            final(self).wf(),
            if old(client)@.objects.contains_key(callback.raw) {
                &&& r == Err::<(), _>(WaylandError::FailedToInsertObject)
                &&& final(client)@ == old(client)@
                &&& final(self)@ == old(self)@
            } else {
                &&& r == Ok::<(), WaylandError>(())
                &&& final(client)@ == (ClientView {
                    objects: old(client)@.objects.insert(callback.raw, Interface::Callback),
                    ..old(client)@
                })
                &&& final(self)@ == old(self)@.with_surface(
                    surface as int,
                    old(self)@.surfaces[surface as int].awaiting(callback),
                )
            },
    {
        let r = self.surfaces[surface].frame(client, callback);
        proof {
            lemma_one_changed(*old(self), *self, surface as int);
        }
        r
    }

    /// See [`Surface::frame_event`].
    pub fn frame_event(&mut self, surface: usize) -> (message: Option<Message>)
        requires
            old(self).wf(),
            surface < old(self)@.surfaces.len(),
        ensures
            final(self).wf(),
            final(self)@ == old(self)@.with_surface(
                surface as int,
                old(self)@.surfaces[surface as int].framed(),
            ),
            match message {
                Some(Message::Frame(callbacks)) => {
                    &&& callbacks@ == old(
                        self,
                    )@.surfaces[surface as int].state.current.frame_callbacks
                    &&& callbacks@.len() > 0
                },
                Some(_) => false,
                None => old(
                    self,
                )@.surfaces[surface as int].state.current.frame_callbacks.len() == 0,
            },
    {
        let message = self.surfaces[surface].frame_event();
        proof {
            lemma_one_changed(*old(self), *self, surface as int);
        }
        message
    }

    /// See [`Surface::add_presentation_feedback`].
    pub fn add_presentation_feedback(&mut self, surface: usize, feedback: ObjectId)
        requires
            old(self).wf(),
            surface < old(self)@.surfaces.len(),
        ensures
            final(self).wf(),
            final(self)@ == old(self)@.with_surface(
                surface as int,
                SurfaceView {
                    presentation_feedback: old(
                        self,
                    )@.surfaces[surface as int].presentation_feedback.push(feedback),
                    ..old(self)@.surfaces[surface as int]
                },
            ),
    {
        self.surfaces[surface].add_presentation_feedback(feedback);
        proof {
            lemma_one_changed(*old(self), *self, surface as int);
        }
    }

    /// See [`Surface::send_presentation_feedback`].
    pub fn send_presentation_feedback(
        &mut self,
        surface: usize,
        client: &mut Client,
        output: Option<ObjectId>,
        display_timestamp: MonotonicTimestamp,
        refresh_cycle: u64,
    )
        requires
            old(self).wf(),
            surface < old(self)@.surfaces.len(),
        ensures
            final(self).wf(),
            final(self)@ == old(self)@.with_surface(
                surface as int,
                SurfaceView {
                    presentation_feedback: Seq::empty(),
                    ..old(self)@.surfaces[surface as int]
                },
            ),
            final(client)@ == old(client)@.after(
                all_presented_events(
                    old(self)@.surfaces[surface as int].presentation_feedback,
                    output,
                    display_timestamp,
                    refresh_cycle,
                ),
                0,
            ),
    {
        self.surfaces[surface].send_presentation_feedback(
            client,
            output,
            display_timestamp,
            refresh_cycle,
        );
        proof {
            lemma_one_changed(*old(self), *self, surface as int);
        }
    }

    /// See [`Surface::release`].
    pub fn release_surface(&mut self, surface: usize)
        requires
            old(self).wf(),
            surface < old(self)@.surfaces.len(),
        ensures
            final(self).wf(),
            final(self)@ == old(self)@.with_surface(
                surface as int,
                old(self)@.surfaces[surface as int].released(),
            ),
    {
        self.surfaces[surface].release();
        proof {
            lemma_one_changed(*old(self), *self, surface as int);
        }
    }

    /// Notes that the client has answered a configuration of the `xdg_surface` at a place.
    pub fn ack_configure(&mut self, xdg_surface: usize, serial: u32)
        requires
            old(self).wf(),
            xdg_surface < old(self)@.xdg_surfaces.len(),
        ensures
            final(self).wf(),
            final(self)@ == (Scene {
                xdg_surfaces: old(self)@.xdg_surfaces.update(
                    xdg_surface as int,
                    XdgSurface {
                        configured: true,
                        ..old(self)@.xdg_surfaces[xdg_surface as int]
                    },
                ),
                ..old(self)@
            }),
    {
        let ghost before = self@;
        self.xdg_surfaces[xdg_surface].ack_configure(serial);
        proof {
            assert(before.xdg_surfaces[xdg_surface as int].wl_surface < before.surfaces.len());
            assert(self@ =~= (Scene {
                xdg_surfaces: before.xdg_surfaces.update(
                    xdg_surface as int,
                    XdgSurface { configured: true, ..before.xdg_surfaces[xdg_surface as int] },
                ),
                ..before
            }));
            assert(self@.links());
        }
    }

    /// Ends the toplevel at a place: nothing refers to it any more.
    pub fn release_toplevel(&mut self, toplevel: usize)
        requires
            old(self).wf(),
            toplevel < old(self)@.toplevels.len(),
        ensures
            final(self).wf(),
            final(self)@ == old(self)@.with_toplevel(
                toplevel as int,
                ToplevelView { alive: false, ..old(self)@.toplevels[toplevel as int] },
            ),
    {
        self.toplevels[toplevel].release();
        proof {
            lemma_one_toplevel_changed(*old(self), *self, toplevel as int);
        }
    }

    /// The client has named the toplevel at a place.
    pub fn set_title(&mut self, toplevel: usize, title: String)
        requires
            old(self).wf(),
            toplevel < old(self)@.toplevels.len(),
        ensures
            final(self).wf(),
            final(self)@ == old(self)@.with_toplevel(
                toplevel as int,
                ToplevelView {
                    title: Some(title),
                    ..old(self)@.toplevels[toplevel as int]
                },
            ),
    {
        self.toplevels[toplevel].title = Some(title);
        proof {
            lemma_one_toplevel_changed(*old(self), *self, toplevel as int);
        }
    }

    /// The client has said which program the toplevel at a place is of.
    pub fn set_app_id(&mut self, toplevel: usize, app_id: String)
        requires
            old(self).wf(),
            toplevel < old(self)@.toplevels.len(),
        ensures
            final(self).wf(),
            final(self)@ == old(self)@.with_toplevel(
                toplevel as int,
                ToplevelView {
                    app_id: Some(app_id),
                    ..old(self)@.toplevels[toplevel as int]
                },
            ),
    {
        self.toplevels[toplevel].app_id = Some(app_id);
        proof {
            lemma_one_toplevel_changed(*old(self), *self, toplevel as int);
        }
    }
}

} // verus!
