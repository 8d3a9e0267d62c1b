//! The surfaces of a client and what a commit of one of them sets off.
use crate::collections::Child;
use crate::protocols::wl::surface::{
    CommitFilter, CommitHandler, Surface, SurfaceView, UpdatedHandler,
};
use crate::protocols::xdg::backend::{ShellCall, XdgBackend};
use crate::protocols::xdg::popup::Popup;
use crate::protocols::xdg::surface::Surface as XdgSurface;
use crate::protocols::xdg::toplevel::Toplevel;
use crate::scene::{
    are_answers, child_order, children_link, ends, handler_links, is_linked, lemma_asked_wf,
    lemma_does_not_wait, lemma_handled_wf, lemma_refreshed_wf, lemma_same_ends, lemma_same_order,
    lemma_same_shape, lemma_shown_tree, lemma_shown_wf, lemma_update_ends,
    lemma_with_parent_linked, same_tree, sync_order, update_order, waits, waits_for_itself, Scene,
};
use crate::types::{ChildState, Geometry, ObjectId, SurfaceId, Vector2};
use vstd::prelude::*;

verus! {

/// What is to be done for a toplevel outside of this library, in the order of the list.
#[derive(Debug, Clone, Copy, PartialEq, Eq)]
pub enum Action {
    /// Send the client a new configuration of the toplevel.
    Reconfigure { toplevel: usize },
    /// Launch the panel shell that [`shell_to_launch`] names for the toplevel, if it names one,
    /// and make a panel item for the toplevel at its [`startup_place`].
    ///
    /// [`shell_to_launch`]: crate::protocols::xdg::toplevel::shell_to_launch
    /// [`startup_place`]: crate::protocols::xdg::toplevel::startup_place
    MapToplevel { toplevel: usize },
    /// Call the shell of the toplevel's panel item.
    Shell { toplevel: usize, call: ShellCall },
}

/// All surfaces of a client. Nothing leaves its place, so a place names its surface for good.
pub struct Compositor {
    pub(crate) surfaces: Vec<Surface>,
    pub(crate) xdg_surfaces: Vec<XdgSurface>,
    pub(crate) toplevels: Vec<Toplevel>,
    pub(crate) popups: Vec<Popup>,
    pub(crate) actions: Vec<Action>,
}

impl View for Compositor {
    type V = Scene;

    open(crate) spec fn view(&self) -> Scene {
        Scene {
            surfaces: self.surfaces@.map_values(|s: Surface| s@),
            xdg_surfaces: self.xdg_surfaces@,
            toplevels: self.toplevels@.map_values(|t: Toplevel| t@),
            popups: self.popups@,
            actions: self.actions@,
        }
    }
}

impl Compositor {
    pub open spec fn wf(self) -> bool {
        &&& is_linked(self@.surfaces)
        &&& self@.links()
    }

    pub fn new() -> (compositor: Self)
        ensures
            compositor.wf(),
            compositor@ == (Scene {
                surfaces: Seq::empty(),
                xdg_surfaces: Seq::empty(),
                toplevels: Seq::empty(),
                popups: Seq::empty(),
                actions: Seq::empty(),
            }),
    {
        let compositor = Compositor {
            surfaces: Vec::new(),
            xdg_surfaces: Vec::new(),
            toplevels: Vec::new(),
            popups: Vec::new(),
            actions: Vec::new(),
        };
        assert(compositor@.surfaces =~= Seq::empty());
        assert(compositor@.toplevels =~= Seq::empty());
        compositor
    }

    /// The place of the toplevel whose panel item shows a surface.
    pub fn panel_item(&self, surface: usize) -> (r: Option<usize>)
        requires
            self.wf(),
            surface < self@.surfaces.len(),
        ensures
            r == self@.panel_item(surface as int),
    {
        let ghost s = self@.surfaces[surface as int];
        match self.surfaces[surface].toplevel {
            Some(t) => {
                assert(self@.toplevels[t as int] == self.toplevels@[t as int]@);
                if self.toplevels[t].alive && self.toplevels[t].mapped.is_some() {
                    Some(t)
                } else {
                    None
                }
            },
            None => None,
        }
    }

    fn run_commit_handler(&mut self, surface: usize, handler: CommitHandler) -> (r: Option<
        CommitHandler,
    >)
        requires
            old(self).wf(),
            surface < old(self)@.surfaces.len(),
            handler_links(handler, old(self)@.toplevels.len(), old(self)@.popups.len()),
        ensures
            (final(self)@, r) == old(self)@.handled(surface, handler),
    {
        let ghost s = self@.surfaces[surface as int];
        assert(s == self.surfaces@[surface as int]@);
        match handler {
            CommitHandler::Toplevel { toplevel, first_commit } => {
                assert(self@.toplevels[toplevel as int] == self.toplevels@[toplevel as int]@);
                if !self.toplevels[toplevel].alive {
                    return Some(handler);
                }
                if first_commit {
                    self.actions.push(Action::Reconfigure { toplevel });
                }
                let xdg_surface: usize = self.toplevels[toplevel].xdg_surface;
                if self.toplevels[toplevel].mapped.is_none() {
                    if self.xdg_surfaces[xdg_surface].configured
                        && self.surfaces[surface].currently_has_valid_buffer() {
                        self.actions.push(Action::MapToplevel { toplevel });
                        return None;
                    }
                } else if let Some(size) = self.surfaces[surface].current_buffer_size() {
                    let reported = match self.toplevels[toplevel].last_committed_res {
                        Some(last) => last.x == size.x && last.y == size.y,
                        None => false,
                    };
                    if !reported {
                        let size = Vector2 { x: size.x as u32, y: size.y as u32 };
                        self.actions.push(
                            Action::Shell { toplevel, call: ShellCall::ToplevelResized { size } },
                        );
                    }
                }
                Some(CommitHandler::Toplevel { toplevel, first_commit: false })
            },
            CommitHandler::Popup { popup, info } => {
                if !self.popups[popup].alive {
                    return Some(handler);
                }
                let xdg_surface: usize = self.popups[popup].surface;
                match self.panel_item(surface) {
                    Some(toplevel) => {
                        if self.xdg_surfaces[xdg_surface].configured
                            && self.surfaces[surface].currently_has_valid_buffer() {
                            self.add_child(toplevel, surface, info);
                            None
                        } else {
                            Some(handler)
                        }
                    },
                    None => Some(handler),
                }
            },
        }
    }

    /// Adds a surface to a panel item, where the surface is a child.
    fn add_child(&mut self, toplevel: usize, surface: usize, info: ChildState)
        requires
            toplevel < old(self)@.toplevels.len(),
            surface < old(self)@.surfaces.len(),
        ensures
            final(self)@ == old(self)@.with_child(toplevel, surface, info),
    {
        let surface_id = self.surfaces[surface].surface_id;
        if let Some(backend) = &mut self.toplevels[toplevel].mapped {
            if let Some(call) = backend.add_child(surface, surface_id, info) {
                self.actions.push(Action::Shell { toplevel, call });
            }
        }
        assert(self@ =~= old(self)@.with_child(toplevel, surface, info));
    }

    /// Moves a surface on its panel item, where it has one and the surface is a child.
    pub fn reposition_child(&mut self, surface: usize, geometry: Geometry)
        requires
            old(self).wf(),
            surface < old(self)@.surfaces.len(),
        ensures
            final(self).wf(),
            final(self)@ == old(self)@.with_moved_child(surface as int, geometry),
    {
        let ghost before = self@;
        assert(before.surfaces[surface as int] == self.surfaces@[surface as int]@);
        let surface_id = self.surfaces[surface].surface_id;
        if let Some(toplevel) = self.panel_item(surface) {
            assert(before.toplevels[toplevel as int] == self.toplevels@[toplevel as int]@);
            if let Some(backend) = &mut self.toplevels[toplevel].mapped {
                if let Some(call) = backend.reposition_child(surface_id, geometry) {
                    self.actions.push(Action::Shell { toplevel, call });
                }
            }
        }
        assert(self@ =~= before.with_moved_child(surface as int, geometry));
        assert(self.wf());
    }

    /// Puts a surface on another level of its panel item, where it has one and the surface was
    /// added to it.
    pub fn update_child_z_order(&mut self, surface: usize, z_order: i32)
        requires
            old(self).wf(),
            surface < old(self)@.surfaces.len(),
        ensures
            final(self).wf(),
            final(self)@ == old(self)@.with_child_level(surface as int, z_order),
    {
        let ghost before = self@;
        assert(before.surfaces[surface as int] == self.surfaces@[surface as int]@);
        let surface_id = self.surfaces[surface].surface_id;
        if let Some(toplevel) = self.panel_item(surface) {
            assert(before.toplevels[toplevel as int] == self.toplevels@[toplevel as int]@);
            if let Some(backend) = &mut self.toplevels[toplevel].mapped {
                if let Some(call) = backend.update_child_z_order(surface_id, z_order) {
                    self.actions.push(Action::Shell { toplevel, call });
                }
            }
        }
        assert(self@ =~= before.with_child_level(surface as int, z_order));
        assert(self.wf());
    }

    /// Drops a surface from its panel item, where it has one and the surface is a child.
    pub fn remove_child(&mut self, surface: usize)
        requires
            old(self).wf(),
            surface < old(self)@.surfaces.len(),
        ensures
            final(self).wf(),
            final(self)@ == old(self)@.without_child(surface as int),
    {
        let ghost before = self@;
        assert(before.surfaces[surface as int] == self.surfaces@[surface as int]@);
        let surface_id = self.surfaces[surface].surface_id;
        if let Some(toplevel) = self.panel_item(surface) {
            assert(before.toplevels[toplevel as int] == self.toplevels@[toplevel as int]@);
            if let Some(backend) = &mut self.toplevels[toplevel].mapped {
                if let Some(call) = backend.remove_child(surface_id) {
                    self.actions.push(Action::Shell { toplevel, call });
                }
            }
        }
        assert(self@ =~= before.without_child(surface as int));
        assert(self.wf());
    }

    /// Shows the current buffer of a surface on its panel item.
    fn buffer_update(&mut self, surface: usize)
        requires
            old(self).wf(),
            surface < old(self)@.surfaces.len(),
        ensures
            final(self)@ == match old(self)@.buffer_action(surface as int) {
                Some(action) => old(self)@.with_action(action),
                None => old(self)@,
            },
    {
        assert(self@.surfaces[surface as int] == self.surfaces@[surface as int]@);
        if let Some(buffer) = self.surfaces[surface].state.current.buffer {
            if let Some(toplevel) = self.panel_item(surface) {
                if let Some(target) = self.surfaces[surface].surface_id {
                    let call = ShellCall::UpdateSurfaceDmatex {
                        target,
                        buffer: buffer.id,
                        opaque: !buffer.transparent,
                    };
                    self.actions.push(Action::Shell { toplevel, call });
                }
            }
        }
    }

    fn run_updated_state_handlers(&mut self, surface: usize)
        requires
            old(self).wf(),
            surface < old(self)@.surfaces.len(),
        ensures
            final(self)@ == (Scene {
                actions: old(self)@.actions + old(self)@.updated_actions(surface as int),
                ..old(self)@
            }),
    {
        let ghost before = self@;
        let n: usize = self.surfaces[surface].on_updated_current_state_handlers.len();
        let mut i: usize = 0;
        assert(before.surfaces[surface as int] == self.surfaces@[surface as int]@);
        assert(self@ =~= (Scene {
            actions: before.actions + before.updated_actions(surface as int).take(0),
            ..before
        }));
        while i < n
            invariant
                i <= n,
                surface < before.surfaces.len(),
                self.wf(),
                n == before.surfaces[surface as int].on_updated_current_state_handlers.len(),
                before == old(self)@,
                self@ == (Scene {
                    actions: before.actions + match before.buffer_action(surface as int) {
                        Some(action) => Seq::new(i as nat, |j: int| action),
                        None => Seq::empty(),
                    },
                    ..before
                }),
            decreases n - i,
        {
            let ghost here = self@;
            assert(here.buffer_action(surface as int) == before.buffer_action(surface as int));
            assert(self@.surfaces[surface as int] == self.surfaces@[surface as int]@);
            match self.surfaces[surface].on_updated_current_state_handlers[i] {
                UpdatedHandler::BufferUpdate => self.buffer_update(surface),
            }
            i += 1;
            assert(self@ =~= (Scene {
                actions: before.actions + match before.buffer_action(surface as int) {
                    Some(action) => Seq::new(i as nat, |j: int| action),
                    None => Seq::empty(),
                },
                ..before
            }));
            assert(self.wf());
        }
    }

    /// Notes what the filters of all surfaces say, by the places of the surfaces.
    fn note_answers(&mut self, answers: &Vec<bool>)
        requires
            old(self).wf(),
            answers@.len() == old(self)@.surfaces.len(),
        ensures
            final(self).wf(),
            final(self)@ == old(self)@.asked(answers@),
    {
        let ghost before = self@;
        let mut i: usize = 0;
        while i < self.surfaces.len()
            invariant
                i <= self.surfaces.len(),
                self.surfaces.len() == before.surfaces.len(),
                answers@.len() == before.surfaces.len(),
                self@.xdg_surfaces == before.xdg_surfaces,
                self@.toplevels == before.toplevels,
                self@.popups == before.popups,
                self@.actions == before.actions,
                forall|j: int|
                    0 <= j < before.surfaces.len() ==> (#[trigger] self.surfaces@[j])@ == if j < i {
                        before.surfaces[j].asked(answers@[j])
                    } else {
                        before.surfaces[j]
                    },
            decreases self.surfaces.len() - i,
        {
            self.surfaces[i].filter_answer = answers[i];
            i += 1;
        }
        proof {
            assert(self@ =~= before.asked(answers@));
            lemma_asked_wf(before, answers@);
        }
    }

    /// Makes current what was set aside for a surface and for those below that wait for it,
    /// and shows each of them. `answers` is what the filter of each surface says.
    pub fn update_current_state_recursive(&mut self, surface: usize, answers: &Vec<bool>)
        requires
            old(self).wf(),
            surface < old(self)@.surfaces.len(),
            answers@.len() == old(self)@.surfaces.len(),
            !waits_for_itself(old(self)@.asked(answers@).surfaces, surface as int),
        ensures
            final(self)@ == old(self)@.asked(answers@).shown(
                update_order(old(self)@.asked(answers@).surfaces, surface as int),
            ),
            final(self).wf(),
    {
        self.note_answers(answers);
        let ghost depth = self@.surfaces.len();
        proof {
            lemma_update_ends(self@.surfaces, surface as int);
        }
        self.update_below(surface, Ghost(depth));
    }

    /// Updates a surface and those that wait for it, none of which lies deeper than a depth.
    fn update_below(&mut self, surface: usize, Ghost(depth): Ghost<nat>)
        requires
            old(self).wf(),
            surface < old(self)@.surfaces.len(),
            ends(old(self)@.surfaces, surface as int, depth),
        ensures
            final(self)@ == old(self)@.shown(
                sync_order(old(self)@.surfaces, surface as int, depth),
            ),
            final(self).wf(),
        decreases depth,
    {
        let ghost before = self@;
        let ghost k = surface as int;
        assert(before.surfaces[k] == self.surfaces@[k]@);
        self.surfaces[surface].state.update_current();
        proof {
            assert(self@ =~= before.refreshed(seq![k])) by {
                assert(seq![k].contains(k)) by {
                    assert(seq![k][0] == k);
                }
            }
            lemma_refreshed_wf(before, seq![k]);
        }
        self.run_updated_state_handlers(surface);
        proof {
            assert(seq![k].drop_last() =~= Seq::<int>::empty());
            assert(before.order_actions(Seq::empty()) =~= Seq::<Action>::empty());
            assert(self@.actions =~= before.shown(seq![k]).actions);
            assert(self@ =~= before.shown(seq![k]));
            assert(seq![k] + child_order(before.surfaces, k, 0, depth) =~= seq![k]);
            lemma_shown_wf(before, seq![k]);
        }
        let n: usize = self.surfaces[surface].children.len();
        let mut i: usize = 0;
        while i < n
            invariant
                i <= n,
                k == surface,
                surface < before.surfaces.len(),
                n == before.surfaces[k].children.len(),
                is_linked(before.surfaces),
                before.links(),
                ends(before.surfaces, k, depth),
                self@ == before.shown(seq![k] + child_order(before.surfaces, k, i as nat, depth)),
                self.wf(),
            decreases n - i,
        {
            let ghost here = self@;
            let ghost done = seq![k] + child_order(before.surfaces, k, i as nat, depth);
            proof {
                lemma_shown_tree(before, done);
                assert(here.surfaces[k].children == before.surfaces[k].children);
                assert(here.surfaces[k] == self.surfaces@[k]@);
            }
            let child: usize = self.surfaces[surface].children[i];
            proof {
                assert(before.surfaces[k].children[i as int] == child);
                assert(here.surfaces[child as int] == self.surfaces@[child as int]@);
            }
            if self.surfaces[child].alive && self.surfaces[child].waits_for_parent() {
                let ghost below = (depth - 1) as nat;
                proof {
                    assert(waits(before.surfaces, child as int));
                    lemma_same_ends(before.surfaces, here.surfaces, child as int, below);
                    lemma_same_order(before.surfaces, here.surfaces, child as int, below);
                }
                self.update_below(child, Ghost(below));
                proof {
                    let order = sync_order(before.surfaces, child as int, below);
                    before.lemma_shown(done, order);
                    assert(done + order =~= seq![k] + child_order(
                        before.surfaces,
                        k,
                        (i + 1) as nat,
                        depth,
                    ));
                }
            } else {
                assert(done =~= seq![k] + child_order(before.surfaces, k, (i + 1) as nat, depth));
            }
            i += 1;
        }
    }

    /// Runs the commit handlers of a surface and keeps those that are not done.
    fn run_commit_handlers(&mut self, surface: usize)
        requires
            old(self).wf(),
            surface < old(self)@.surfaces.len(),
        ensures
            ({
                let s = old(self)@.surfaces[surface as int];
                let (handled, kept) = old(self)@.all_handled(surface, s.on_commit_handlers);
                final(self)@ == handled.with_surface(
                    surface as int,
                    SurfaceView {
                        on_commit_handlers: kept,
                        ..handled.surfaces[surface as int]
                    },
                )
            }),
            final(self).wf(),
            same_tree(old(self)@.surfaces, final(self)@.surfaces),
    {
        let ghost before = self@;
        let ghost handlers = before.surfaces[surface as int].on_commit_handlers;
        assert(before.surfaces[surface as int] == self.surfaces@[surface as int]@);
        let n: usize = self.surfaces[surface].on_commit_handlers.len();
        let mut kept: Vec<CommitHandler> = Vec::new();
        let mut i: usize = 0;
        while i < n
            invariant
                i <= n,
                n == handlers.len(),
                surface < before.surfaces.len(),
                handlers == before.surfaces[surface as int].on_commit_handlers,
                before.links(),
                is_linked(before.surfaces),
                self.wf(),
                (self@, kept@) == before.all_handled(surface, handlers.take(i as int)),
                self@.surfaces == before.surfaces,
                self@.xdg_surfaces == before.xdg_surfaces,
                self@.popups == before.popups,
                self@.toplevels.len() == before.toplevels.len(),
                forall|j: int|
                    0 <= j < kept@.len() ==> #[trigger] handler_links(
                        kept@[j],
                        before.toplevels.len(),
                        before.popups.len(),
                    ),
            decreases n - i,
        {
            assert(self@.surfaces[surface as int] == self.surfaces@[surface as int]@);
            let handler = self.surfaces[surface].on_commit_handlers[i];
            proof {
                assert(handler == handlers[i as int]);
                assert(handler_links(handlers[i as int], before.toplevels.len(), before.popups.len()));
                lemma_handled_wf(self@, surface, handler);
                assert(handlers.take(i + 1).drop_last() =~= handlers.take(i as int));
            }
            if let Some(next) = self.run_commit_handler(surface, handler) {
                kept.push(next);
            }
            i += 1;
        }
        assert(handlers.take(n as int) =~= handlers);
        let ghost handled = self@;
        let ghost kept_view = kept@;
        self.surfaces[surface].on_commit_handlers = kept;
        proof {
            assert(handled.surfaces[surface as int] == before.surfaces[surface as int]);
            assert(self@ =~= handled.with_surface(
                surface as int,
                SurfaceView {
                    on_commit_handlers: kept_view,
                    ..handled.surfaces[surface as int]
                },
            ));
            lemma_same_shape(before.surfaces, self@.surfaces);
        }
    }

    /// Commits a surface. A surface that waits for its parent stays as it is shown; any other
    /// is updated, and with it the surfaces below that wait for it. `answers` is what the
    /// filter of each surface says.
    pub fn on_commit(&mut self, surface: usize, answers: &Vec<bool>)
        requires
            old(self).wf(),
            surface < old(self)@.surfaces.len(),
            answers@.len() == old(self)@.surfaces.len(),
        ensures
            final(self)@ == old(self)@.asked(answers@).committed(surface),
            final(self).wf(),
    {
        self.note_answers(answers);
        let ghost before = self@;
        let ghost s = before.surfaces[surface as int];
        assert(s == self.surfaces@[surface as int]@);
        let wait: bool = self.surfaces[surface].waits_for_parent();
        self.surfaces[surface].state.apply(wait);
        proof {
            let applied = before.with_surface(
                surface as int,
                SurfaceView { state: s.state.committed(wait), ..s },
            );
            assert(self@ =~= applied);
            lemma_same_shape(before.surfaces, applied.surfaces);
            assert(self@.links());
        }
        self.run_commit_handlers(surface);
        if !wait {
            let ghost depth = self@.surfaces.len();
            proof {
                lemma_does_not_wait(self@.surfaces, surface as int);
                lemma_update_ends(self@.surfaces, surface as int);
            }
            self.update_below(surface, Ghost(depth));
        }
    }

    /// Commits a surface. `ask` is called for every filter, to find out what it says now.
    pub fn commit<F: Fn(CommitFilter) -> bool>(&mut self, surface: usize, ask: F)
        requires
            old(self).wf(),
            surface < old(self)@.surfaces.len(),
            forall|filter: CommitFilter| #[trigger] ask.requires((filter,)),
        ensures
            final(self).wf(),
            exists|answers: Seq<bool>| #[trigger]
                are_answers(ask, old(self)@.surfaces, answers) && final(self)@ == old(
                    self,
                )@.asked(answers).committed(surface),
    {
        let ghost surfaces = self@.surfaces;
        let mut answers: Vec<bool> = Vec::new();
        let mut i: usize = 0;
        while i < self.surfaces.len()
            invariant
                i <= self.surfaces.len(),
                *self == *old(self),
                surfaces == self@.surfaces,
                answers@.len() == i,
                forall|filter: CommitFilter| #[trigger] ask.requires((filter,)),
                forall|j: int|
                    0 <= j < i ==> (#[trigger] surfaces[j].requires_parent_sync matches Some(filter)
                        ==> ask.ensures((filter,), answers@[j])),
            decreases self.surfaces.len() - i,
        {
            assert(surfaces[i as int] == self.surfaces@[i as int]@);
            let answer: bool = match self.surfaces[i].requires_parent_sync {
                Some(filter) => ask(filter),
                None => false,
            };
            answers.push(answer);
            i += 1;
        }
        assert(are_answers(ask, surfaces, answers@));
        self.on_commit(surface, &answers);
    }

    /// Adds a surface to those of the client and returns its place.
    pub fn new_surface(&mut self, id: ObjectId) -> (surface: usize)
        requires
            old(self).wf(),
        ensures
            final(self).wf(),
            surface == old(self)@.surfaces.len(),
            final(self)@ == (Scene {
                surfaces: old(self)@.surfaces.push(SurfaceView::new(id)),
                ..old(self)@
            }),
    {
        let ghost before = self@;
        let surface: usize = self.surfaces.len();
        self.surfaces.push(Surface::new(id));
        proof {
            assert(self@.surfaces =~= before.surfaces.push(SurfaceView::new(id)));
            assert forall|c: int| 0 <= c < self@.surfaces.len() && (
            #[trigger] self@.surfaces[c]).parent is Some implies {
                let p = self@.surfaces[c].parent->0 as int;
                &&& 0 <= p < self@.surfaces.len()
                &&& self@.surfaces[p].children.contains(c as usize)
            } by {
                assert(self@.surfaces[c] == before.surfaces[c]);
            }
            assert(self.surfaces.len() == self@.surfaces.len());
            assert(self.wf());
        }
        surface
    }

    /// Adds the `xdg_surface` of a surface and returns its place.
    pub fn new_xdg_surface(&mut self, id: ObjectId, version: u32, wl_surface: usize) -> (place:
        usize)
        requires
            old(self).wf(),
            wl_surface < old(self)@.surfaces.len(),
        ensures
            final(self).wf(),
            place == old(self)@.xdg_surfaces.len(),
            final(self)@ == (Scene {
                xdg_surfaces: old(self)@.xdg_surfaces.push(
                    XdgSurface { id, version, wl_surface, configured: false },
                ),
                ..old(self)@
            }),
    {
        let ghost before = self@;
        let place: usize = self.xdg_surfaces.len();
        self.xdg_surfaces.push(XdgSurface::new(id, version, wl_surface));
        proof {
            let after = self@;
            assert(after.surfaces == before.surfaces);
            assert forall|i: int| 0 <= i < after.toplevels.len() implies {
                &&& (#[trigger] after.toplevels[i]).wl_surface < after.surfaces.len()
                &&& after.toplevels[i].xdg_surface < after.xdg_surfaces.len()
                &&& children_link(after.toplevels[i].mapped, after.surfaces.len())
            } by {
                assert(after.toplevels[i] == before.toplevels[i]);
            }
            assert(after.links());
        }
        place
    }

    /// Shows a toplevel with a new panel item, which has no children; the old one, if there
    /// was one, is gone.
    pub fn set_panel_item(&mut self, toplevel: usize, backend: XdgBackend)
        requires
            old(self).wf(),
            toplevel < old(self)@.toplevels.len(),
            backend@ == Map::<u64, Child>::empty(),
        ensures
            final(self).wf(),
            final(self)@ == old(self)@.with_panel_item(toplevel, Map::empty()),
    {
        let ghost before = self@;
        assert(before.toplevels[toplevel as int] == self.toplevels@[toplevel as int]@);
        self.toplevels[toplevel].mapped = Some(backend);
        assert(self@ =~= before.with_panel_item(toplevel, Map::empty()));
        assert(self@.links());
    }

    /// The place of the surface that a part of a toplevel's panel item shows.
    pub fn surface_from_id(&self, toplevel: usize, id: SurfaceId) -> (surface: Option<usize>)
        requires
            self.wf(),
            toplevel < self@.toplevels.len(),
        ensures
            surface == self@.item_surface(toplevel, id),
    {
        assert(self@.toplevels[toplevel as int] == self.toplevels@[toplevel as int]@);
        match id {
            SurfaceId::Toplevel => Some(self.toplevels[toplevel].wl_surface),
            SurfaceId::Child { id } => {
                match &self.toplevels[toplevel].mapped {
                    Some(backend) => {
                        match backend.child(id) {
                            Some(child) => {
                                let surface: usize = child.surface;
                                assert(self@.surfaces[surface as int]
                                    == self.surfaces@[surface as int]@);
                                if self.surfaces[surface].alive {
                                    Some(surface)
                                } else {
                                    None
                                }
                            },
                            None => None,
                        }
                    },
                    None => None,
                }
            },
        }
    }

    /// The parent of a surface, as long as anything refers to it.
    pub fn parent(&self, surface: usize) -> (parent: Option<usize>)
        requires
            self.wf(),
            surface < self@.surfaces.len(),
        ensures
            parent == match self@.surfaces[surface as int].parent {
                Some(p) if self@.surfaces[p as int].alive => Some(p),
                _ => None,
            },
    {
        assert(self@.surfaces[surface as int] == self.surfaces@[surface as int]@);
        match self.surfaces[surface].parent {
            Some(p) => {
                assert(self@.surfaces[p as int] == self.surfaces@[p as int]@);
                if self.surfaces[p].alive {
                    Some(p)
                } else {
                    None
                }
            },
            None => None,
        }
    }

    /// Puts a surface below another one. It joins the toplevel of that surface; a surface
    /// that has a parent already keeps it.
    pub fn set_parent(&mut self, surface: usize, parent: usize)
        requires
            old(self).wf(),
            surface < old(self)@.surfaces.len(),
            parent < old(self)@.surfaces.len(),
            surface != parent,
        ensures
            final(self).wf(),
            final(self)@ == old(self)@.with_parent(surface, parent),
    {
        let ghost before = self@;
        assert(before.surfaces[surface as int] == self.surfaces@[surface as int]@);
        assert(before.surfaces[parent as int] == self.surfaces@[parent as int]@);
        let toplevel: Option<usize> = self.surfaces[parent].toplevel;
        self.surfaces[surface].toplevel = toplevel;
        if self.surfaces[surface].parent.is_none() {
            self.surfaces[surface].parent = Some(parent);
            self.surfaces[parent].children.push(surface);
            assert(self@ =~= before.with_parent(surface, parent));
            proof {
                lemma_with_parent_linked(before, surface, parent);
            }
        } else {
            assert(self@ =~= before.with_parent(surface, parent));
            proof {
                lemma_same_shape(before.surfaces, self@.surfaces);
            }
        }
        assert(self@.links());
    }
}

} // verus!
