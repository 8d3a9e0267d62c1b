//! `wl_surface`: what a single surface holds and answers for itself. What a commit sets off
//! among several surfaces is in [`crate::compositor`].
use crate::client::{Client, ClientView, Interface};
use crate::error::{WaylandError, WaylandResult};
use crate::event::{Event, EventView};
use crate::message::Message;
use crate::presentation::{halves, split, MonotonicTimestamp};
use crate::protocols::wl::surface_state::{
    AttachedBuffer, CommitView, StateView, SurfaceCommitAwareBuffer, SurfaceState,
};
use crate::types::{ChildState, ObjectId, SurfaceUpdateTarget, Vector2};
use vstd::prelude::*;

verus! {

/// What a surface is used for. A surface keeps the first role it gets.
#[derive(Debug, Clone, Copy, PartialEq, Eq, Structural)]
pub enum SurfaceRole {
    Cursor,
    Subsurface,
    XdgToplevel,
    XdgPopup,
}

impl SurfaceRole {
    pub fn name(&self) -> (name: &'static str)
        ensures
            name == match *self {
                SurfaceRole::Cursor => "SurfaceRole::Cursor",
                SurfaceRole::Subsurface => "SurfaceRole::Subsurface",
                SurfaceRole::XdgToplevel => "SurfaceRole::XdgToplevel",
                SurfaceRole::XdgPopup => "SurfaceRole::XdgPopup",
            },
    {
        match self {
            SurfaceRole::Cursor => "SurfaceRole::Cursor",
            SurfaceRole::Subsurface => "SurfaceRole::Subsurface",
            SurfaceRole::XdgToplevel => "SurfaceRole::XdgToplevel",
            SurfaceRole::XdgPopup => "SurfaceRole::XdgPopup",
        }
    }
}

/// What happens on every commit of a surface until it is done.
#[derive(Debug, Clone, Copy, PartialEq, Eq)]
pub enum CommitHandler {
    /// Configures a toplevel on its first commit, maps it once it is ready and reports its
    /// size from then on.
    Toplevel { toplevel: usize, first_commit: bool },
    /// Adds a popup to the panel item of its toplevel once it is ready.
    Popup { popup: usize, info: ChildState },
}

/// Stands for a filter, which can be asked whether a surface waits for its parent's commit.
/// What it says may change at any time, so it is asked at every commit.
#[derive(Debug, Clone, Copy, PartialEq, Eq, Structural)]
pub struct CommitFilter {
    pub raw: u64,
}

/// What happens whenever the current state of a surface was updated.
#[derive(Debug, Clone, Copy, PartialEq, Eq, Structural)]
pub enum UpdatedHandler {
    /// Shows the current buffer on the panel item.
    BufferUpdate,
}

/// A surface. Other surfaces and toplevels are named by their places in the compositor.
pub struct Surface {
    pub id: ObjectId,
    pub surface_id: Option<SurfaceUpdateTarget>,
    pub state: SurfaceCommitAwareBuffer,
    pub role: Option<SurfaceRole>,
    /// Says whether the current state is to be updated on the parent's commit; unset by
    /// default.
    pub requires_parent_sync: Option<CommitFilter>,
    /// What the filter said at the last commit.
    pub filter_answer: bool,
    pub on_commit_handlers: Vec<CommitHandler>,
    pub on_updated_current_state_handlers: Vec<UpdatedHandler>,
    pub presentation_feedback: Vec<ObjectId>,
    pub children: Vec<usize>,
    pub parent: Option<usize>,
    pub toplevel: Option<usize>,
    /// Whether anything still refers to the surface.
    pub alive: bool,
}

#[verifier::ext_equal]
pub ghost struct SurfaceView {
    pub id: ObjectId,
    pub surface_id: Option<SurfaceUpdateTarget>,
    pub state: CommitView,
    pub role: Option<SurfaceRole>,
    pub requires_parent_sync: Option<CommitFilter>,
    pub filter_answer: bool,
    pub on_commit_handlers: Seq<CommitHandler>,
    pub on_updated_current_state_handlers: Seq<UpdatedHandler>,
    pub presentation_feedback: Seq<ObjectId>,
    pub children: Seq<usize>,
    pub parent: Option<usize>,
    pub toplevel: Option<usize>,
    pub alive: bool,
}

impl View for Surface {
    type V = SurfaceView;

    open spec fn view(&self) -> SurfaceView {
        SurfaceView {
            id: self.id,
            surface_id: self.surface_id,
            state: self.state@,
            role: self.role,
            requires_parent_sync: self.requires_parent_sync,
            filter_answer: self.filter_answer,
            on_commit_handlers: self.on_commit_handlers@,
            on_updated_current_state_handlers: self.on_updated_current_state_handlers@,
            presentation_feedback: self.presentation_feedback@,
            children: self.children@,
            parent: self.parent,
            toplevel: self.toplevel,
            alive: self.alive,
        }
    }
}

impl SurfaceView {
    /// A surface without a role, a buffer or a parent.
    pub open spec fn new(id: ObjectId) -> SurfaceView {
        SurfaceView {
            id,
            surface_id: None,
            state: CommitView {
                current: StateView::initial(),
                queued: None,
                pending: StateView::initial(),
            },
            role: None,
            requires_parent_sync: None,
            filter_answer: false,
            on_commit_handlers: Seq::empty(),
            on_updated_current_state_handlers: seq![UpdatedHandler::BufferUpdate],
            presentation_feedback: Seq::empty(),
            children: Seq::empty(),
            parent: None,
            toplevel: None,
            alive: true,
        }
    }

    /// The surface once its filter was asked.
    pub open spec fn asked(self, answer: bool) -> SurfaceView {
        SurfaceView { filter_answer: answer, ..self }
    }

    /// Whether the surface waits for its parent's commit: only subsurfaces do, and only
    /// while they have a filter that says so.
    pub open spec fn requires_sync(self) -> bool {
        self.role == Some(SurfaceRole::Subsurface) && self.requires_parent_sync is Some
            && self.filter_answer
    }

    /// The surface and the answer once it was to get a role: it gets it unless it has another
    /// one already; then the client made the protocol error `role_error`.
    pub open spec fn with_role(self, role: SurfaceRole, role_error: u32) -> (
        SurfaceView,
        WaylandResult<()>,
    ) {
        match self.role {
            Some(current) if current != role => (
                self,
                Err(
                    WaylandError::Fatal {
                        object_id: self.id,
                        code: role_error,
                        message: "Surface has an incomparible role",
                    },
                ),
            ),
            _ => (SurfaceView { role: Some(role), ..self }, Ok(())),
        }
    }

    /// The surface with a name for the part of a panel item that it is; only the first name
    /// counts.
    pub open spec fn named(self, target: SurfaceUpdateTarget) -> SurfaceView {
        SurfaceView {
            surface_id: match self.surface_id {
                Some(first) => Some(first),
                None => Some(target),
            },
            ..self
        }
    }

    /// The surface with another pending state.
    pub open spec fn with_pending(self, pending: StateView) -> SurfaceView {
        SurfaceView { state: CommitView { pending, ..self.state }, ..self }
    }

    /// The surface with another buffer to be committed.
    pub open spec fn attached(self, buffer: Option<AttachedBuffer>) -> SurfaceView {
        self.with_pending(StateView { buffer, ..self.state.pending })
    }

    /// The surface with another scale to be committed.
    pub open spec fn scaled(self, scale: i32) -> SurfaceView {
        self.with_pending(StateView { density: scale, ..self.state.pending })
    }

    /// The surface with one more frame callback to be committed.
    pub open spec fn awaiting(self, callback: ObjectId) -> SurfaceView {
        self.with_pending(
            StateView {
                frame_callbacks: self.state.pending.frame_callbacks.push(callback),
                ..self.state.pending
            },
        )
    }

    /// The surface once the frame callbacks of its current state were taken.
    pub open spec fn framed(self) -> SurfaceView {
        SurfaceView {
            state: CommitView {
                current: StateView { frame_callbacks: Seq::empty(), ..self.state.current },
                ..self.state
            },
            ..self
        }
    }

    /// The surface once nothing refers to it any more.
    pub open spec fn released(self) -> SurfaceView {
        SurfaceView { role: None, alive: false, ..self }
    }

    /// The surface once what commits have set aside is current.
    pub open spec fn refreshed(self) -> SurfaceView {
        SurfaceView { state: self.state.updated(), ..self }
    }
}

/// The events that tell one feedback object when its frame was shown.
pub open spec fn presented_events(
    feedback: ObjectId,
    output: Option<ObjectId>,
    timestamp: MonotonicTimestamp,
    refresh_cycle: u64,
) -> Seq<EventView> {
    let presented = EventView::Plain(
        Event::FeedbackPresented {
            feedback,
            tv_sec_hi: halves(timestamp.secs).0,
            tv_sec_lo: halves(timestamp.secs).1,
            tv_nsec: timestamp.subsec_nanos,
            refresh: 0,
            seq_hi: halves(refresh_cycle).0,
            seq_lo: halves(refresh_cycle).1,
            flags: 0,
        },
    );
    match output {
        Some(output) => seq![
            EventView::Plain(Event::FeedbackSyncOutput { feedback, output }),
            presented,
        ],
        None => seq![presented],
    }
}

/// The events for a list of feedback objects, in the order of the list.
pub open spec fn all_presented_events(
    feedbacks: Seq<ObjectId>,
    output: Option<ObjectId>,
    timestamp: MonotonicTimestamp,
    refresh_cycle: u64,
) -> Seq<EventView>
    decreases feedbacks.len(),
{
    if feedbacks.len() == 0 {
        Seq::empty()
    } else {
        all_presented_events(feedbacks.drop_last(), output, timestamp, refresh_cycle)
            + presented_events(feedbacks.last(), output, timestamp, refresh_cycle)
    }
}

impl Surface {
    /// A surface without a role, a buffer or a parent, whose buffers are shown as they
    /// become current.
    pub fn new(id: ObjectId) -> (surface: Self)
        ensures
            surface@ == SurfaceView::new(id),
    {
        let mut surface = Surface {
            id,
            surface_id: None,
            state: SurfaceCommitAwareBuffer::new(SurfaceState::default()),
            role: None,
            requires_parent_sync: None,
            filter_answer: false,
            on_commit_handlers: Vec::new(),
            on_updated_current_state_handlers: Vec::new(),
            presentation_feedback: Vec::new(),
            children: Vec::new(),
            parent: None,
            toplevel: None,
            alive: true,
        };
        surface.add_updated_current_state_handler(UpdatedHandler::BufferUpdate);
        surface
    }

    /// Gives the surface a role, unless it has another one already; then the client made the
    /// protocol error `role_error`.
    pub fn try_set_role(&mut self, role: SurfaceRole, role_error: u32) -> (r: WaylandResult<()>)
        ensures
            (final(self)@, r) == old(self)@.with_role(role, role_error),
    {
        match self.role {
            Some(current) => {
                if current == role {
                    Ok(())
                } else {
                    Err(
                        WaylandError::Fatal {
                            object_id: self.id,
                            code: role_error,
                            message: "Surface has an incomparible role",
                        },
                    )
                }
            },
            None => {
                self.role = Some(role);
                Ok(())
            },
        }
    }

    /// Names the part of a panel item that the surface is; only the first name counts.
    pub fn set_surface_id(&mut self, target: SurfaceUpdateTarget)
        ensures
            final(self)@ == old(self)@.named(target),
    {
        if self.surface_id.is_none() {
            self.surface_id = Some(target);
        }
    }

    /// What commits have made of the surface so far.
    pub fn state_lock(&self) -> (state: &SurfaceCommitAwareBuffer)
        ensures
            state@ == self@.state,
    {
        &self.state
    }

    pub fn currently_has_valid_buffer(&self) -> (r: bool)
        ensures
            r == self@.state.current.has_valid_buffer(),
    {
        self.state.current.has_valid_buffer()
    }

    /// Sets the filter that controls whether the current state is updated on a commit. It says
    /// true where the state is to be updated on the parent's commit. Only one filter counts at
    /// a time.
    pub fn set_parent_syncronized_filter(&mut self, filter: CommitFilter)
        ensures
            final(self)@ == (SurfaceView { requires_parent_sync: Some(filter), ..old(self)@ }),
    {
        self.requires_parent_sync = Some(filter);
    }

    /// Removes the filter, so that commits take effect at once again.
    pub fn clear_parent_syncronized_filter(&mut self)
        ensures
            final(self)@ == (SurfaceView { requires_parent_sync: None, ..old(self)@ }),
    {
        self.requires_parent_sync = None;
    }

    pub fn add_commit_handler(&mut self, handler: CommitHandler)
        ensures
            final(self)@ == (SurfaceView {
                on_commit_handlers: old(self)@.on_commit_handlers.push(handler),
                ..old(self)@
            }),
    {
        self.on_commit_handlers.push(handler);
    }

    pub fn add_updated_current_state_handler(&mut self, handler: UpdatedHandler)
        ensures
            final(self)@ == (SurfaceView {
                on_updated_current_state_handlers:
                    old(self)@.on_updated_current_state_handlers.push(handler),
                ..old(self)@
            }),
    {
        self.on_updated_current_state_handlers.push(handler);
    }

    pub fn current_buffer_size(&self) -> (size: Option<Vector2<usize>>)
        ensures
            size == match self@.state.current.buffer {
                Some(buffer) => Some(buffer.size),
                None => None,
            },
    {
        match self.state.current.buffer {
            Some(buffer) => Some(buffer.size),
            None => None,
        }
    }

    pub fn current_buffer_usage(&self) -> (buffer: Option<AttachedBuffer>)
        ensures
            buffer == self@.state.current.buffer,
    {
        self.state.current.buffer
    }

    pub fn add_presentation_feedback(&mut self, feedback: ObjectId)
        ensures
            final(self)@ == (SurfaceView {
                presentation_feedback: old(self)@.presentation_feedback.push(feedback),
                ..old(self)@
            }),
    {
        self.presentation_feedback.push(feedback);
    }

    /// Tells every waiting feedback object, oldest first, when the frame was shown; each is
    /// told once.
    pub fn send_presentation_feedback(
        &mut self,
        client: &mut Client,
        output: Option<ObjectId>,
        display_timestamp: MonotonicTimestamp,
        refresh_cycle: u64,
    )
        ensures
            final(self)@ == (SurfaceView { presentation_feedback: Seq::empty(), ..old(self)@ }),
            final(client)@ == old(client)@.after(
                all_presented_events(
                    old(self)@.presentation_feedback,
                    output,
                    display_timestamp,
                    refresh_cycle,
                ),
                0,
            ),
    {
        let mut feedbacks: Vec<ObjectId> = Vec::new();
        feedbacks.append(&mut self.presentation_feedback);
        let ghost all = feedbacks@;
        let cycle: (u32, u32) = split(refresh_cycle);
        let mut i: usize = 0;
        assert(client@ == old(client)@.after(Seq::empty(), 0)) by {
            assert(old(client)@.sent + Seq::<EventView>::empty() =~= old(client)@.sent);
        }
        while i < feedbacks.len()
            invariant
                i <= feedbacks.len(),
                feedbacks@ == all,
                cycle == halves(refresh_cycle),
                client@ == old(client)@.after(
                    all_presented_events(
                        all.take(i as int),
                        output,
                        display_timestamp,
                        refresh_cycle,
                    ),
                    0,
                ),
            decreases feedbacks.len() - i,
        {
            let feedback: ObjectId = feedbacks[i];
            if let Some(output) = output {
                client.send(Event::FeedbackSyncOutput { feedback, output });
            }
            client.send(
                Event::FeedbackPresented {
                    feedback,
                    tv_sec_hi: display_timestamp.secs_hi(),
                    tv_sec_lo: display_timestamp.secs_lo(),
                    tv_nsec: display_timestamp.subsec_nanos(),
                    refresh: 0,
                    seq_hi: cycle.0,
                    seq_lo: cycle.1,
                    flags: 0,
                },
            );
            proof {
                assert(all.take(i + 1).drop_last() =~= all.take(i as int));
                assert(client@.sent =~= old(client)@.sent + all_presented_events(
                    all.take(i + 1),
                    output,
                    display_timestamp,
                    refresh_cycle,
                ));
            }
            i += 1;
        }
        assert(all.take(all.len() as int) =~= all);
    }

    /// The message that makes the client's task tell the surface's feedback objects of a frame.
    pub fn submit_presentation_feedback(
        surface: usize,
        display_timestamp: MonotonicTimestamp,
        refresh_cycle: u64,
    ) -> (message: Message)
        ensures
            message == (Message::SendPresentationFeedback {
                surface,
                display_timestamp,
                refresh_cycle,
            }),
    {
        Message::SendPresentationFeedback { surface, display_timestamp, refresh_cycle }
    }

    /// Whether the surface waits for its parent's commit. `answer` is what its filter, if it
    /// has one, says.
    pub fn requires_surface_syncronization(&self, answer: bool) -> (r: bool)
        ensures
            r == self@.asked(answer).requires_sync(),
    {
        if self.role != Some(SurfaceRole::Subsurface) {
            return false;
        }
        self.requires_parent_sync.is_some() && answer
    }

    /// Whether the surface waits for its parent's commit, its filter having been asked.
    pub(crate) fn waits_for_parent(&self) -> (r: bool)
        ensures
            r == self@.requires_sync(),
    {
        self.requires_surface_syncronization(self.filter_answer)
    }

    /// Takes the frame callbacks of the current state, for the client to be told of them;
    /// nothing is sent where there are none.
    pub fn frame_event(&mut self) -> (message: Option<Message>)
        ensures
            match message {
                Some(Message::Frame(callbacks)) => {
                    &&& callbacks@ == old(self)@.state.current.frame_callbacks
                    &&& callbacks@.len() > 0
                },
                Some(_) => false,
                None => old(self)@.state.current.frame_callbacks.len() == 0,
            },
            final(self)@ == old(self)@.framed(),
    {
        let mut callbacks: Vec<ObjectId> = Vec::new();
        callbacks.append(&mut self.state.current.frame_callbacks);
        assert(callbacks@ =~= old(self)@.state.current.frame_callbacks);
        if callbacks.is_empty() {
            None
        } else {
            Some(Message::Frame(callbacks))
        }
    }

    /// Sets the buffer of the pending state; a request that names no buffer, or none that
    /// exists, takes it away.
    pub fn attach(&mut self, buffer: Option<AttachedBuffer>)
        ensures
            final(self)@ == old(self)@.attached(buffer),
    {
        self.state.pending.buffer = buffer;
    }

    /// Asks for a frame callback with the next commit. The callback becomes an object of the
    /// client, unless its id is taken.
    pub fn frame(&mut self, client: &mut Client, callback: ObjectId) -> (r: WaylandResult<()>)
        ensures
            final(client)@.serial == old(client)@.serial,
            final(client)@.sent == old(client)@.sent,
            if old(client)@.objects.contains_key(callback.raw) {
                &&& r == Err::<(), _>(WaylandError::FailedToInsertObject)
                &&& final(client)@.objects == old(client)@.objects
                &&& final(self)@ == old(self)@
            } else {
                &&& r == Ok::<(), WaylandError>(())
                &&& final(client)@.objects == old(client)@.objects.insert(
                    callback.raw,
                    Interface::Callback,
                )
                &&& final(self)@ == old(self)@.awaiting(callback)
            },
    {
        match client.insert(callback, Interface::Callback) {
            Ok(()) => {
                self.state.pending.frame_callbacks.push(callback);
                Ok(())
            },
            Err(e) => Err(e),
        }
    }

    /// Sets how many buffer pixels make up a surface pixel.
    pub fn set_buffer_scale(&mut self, scale: i32)
        ensures
            final(self)@ == old(self)@.scaled(scale),
    {
        self.state.pending.density = scale;
    }

    /// Takes the surface out of the client's objects.
    pub fn destroy(&self, client: &mut Client)
        ensures
            final(client)@ == (ClientView {
                objects: old(client)@.objects.remove(self@.id.raw),
                ..old(client)@
            }),
    {
        client.remove(self.id);
    }

    /// Ends the surface: nothing refers to it any more, and it gives up its role.
    pub fn release(&mut self)
        ensures
            final(self)@ == old(self)@.released(),
    {
        self.role = None;
        self.alive = false;
    }
}

/// A frame event answers the oldest waiting callbacks and leaves the others waiting, in order.
pub proof fn frame_event_answers_oldest(before: CommitView, after: CommitView)
    requires
        after == (CommitView {
            current: StateView { frame_callbacks: Seq::empty(), ..before.current },
            ..before
        }),
    ensures
        before.current.frame_callbacks + after.callbacks() == before.callbacks(),
{
    assert(before.current.frame_callbacks + after.callbacks() =~= before.callbacks());
}

} // verus!
