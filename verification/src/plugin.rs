//! What happens to all surfaces of a client around every frame.
use crate::compositor::Compositor;
use crate::message::Message;
use crate::presentation::MonotonicTimestamp;
use crate::protocols::wl::surface::{Surface, SurfaceView};
use crate::protocols::wl::surface_state::{AttachedBuffer, CommitView, StateView};
use crate::scene::{lemma_relinked, Scene};
use crate::types::ObjectId;
use vstd::prelude::*;

verus! {

/// Ties the surfaces to the frames of the renderer.
#[derive(Debug, Clone, Copy, PartialEq, Eq, Structural)]
pub struct WaylandPlugin;

/// The buffers that must not be given back while a frame is rendered.
pub struct UsedBuffers {
    pub buffers: Vec<AttachedBuffer>,
}

/// How many frames were shown.
#[derive(Debug, Clone, Copy, PartialEq, Eq, Structural)]
pub struct FrameTimings {
    pub frame_count: u64,
}

/// The surfaces that anything still refers to, in the order of their places.
pub open spec fn live_places(surfaces: Seq<SurfaceView>) -> Seq<usize>
    decreases surfaces.len(),
{
    if surfaces.len() == 0 {
        Seq::empty()
    } else if surfaces.last().alive {
        live_places(surfaces.drop_last()).push((surfaces.len() - 1) as usize)
    } else {
        live_places(surfaces.drop_last())
    }
}

/// The buffers that live surfaces show.
pub open spec fn shown_buffers(surfaces: Seq<SurfaceView>) -> Seq<AttachedBuffer>
    decreases surfaces.len(),
{
    if surfaces.len() == 0 {
        Seq::empty()
    } else {
        let first = shown_buffers(surfaces.drop_last());
        match surfaces.last().state.current.buffer {
            Some(buffer) if surfaces.last().alive => first.push(buffer),
            _ => first,
        }
    }
}

/// A surface that was told of a frame: no callback of what it shows waits any more.
pub open spec fn answered(surface: SurfaceView) -> SurfaceView {
    SurfaceView {
        state: CommitView {
            current: StateView { frame_callbacks: Seq::empty(), ..surface.state.current },
            ..surface.state
        },
        ..surface
    }
}

/// The surfaces once the live ones among the first `n` were told of a frame.
pub open spec fn all_answered(surfaces: Seq<SurfaceView>, n: int) -> Seq<SurfaceView> {
    Seq::new(
        surfaces.len(),
        |i: int|
            if i < n && surfaces[i].alive {
                answered(surfaces[i])
            } else {
                surfaces[i]
            },
    )
}

/// The callbacks of each live surface that has any.
pub open spec fn frame_callbacks(surfaces: Seq<SurfaceView>) -> Seq<Seq<ObjectId>>
    decreases surfaces.len(),
{
    if surfaces.len() == 0 {
        Seq::empty()
    } else {
        let first = frame_callbacks(surfaces.drop_last());
        let callbacks = surfaces.last().state.current.frame_callbacks;
        if surfaces.last().alive && callbacks.len() > 0 {
            first.push(callbacks)
        } else {
            first
        }
    }
}

/// Whether messages are for these lists of callbacks.
pub open spec fn are_frames(messages: Seq<Message>, callbacks: Seq<Seq<ObjectId>>) -> bool {
    &&& messages.len() == callbacks.len()
    &&& forall|i: int|
        0 <= i < messages.len() ==> (#[trigger] messages[i] matches Message::Frame(list) && list@
            == callbacks[i])
}

impl WaylandPlugin {
    /// Makes the messages that answer the frame callbacks of every live surface; each
    /// callback is answered once.
    pub fn frame_events(compositor: &mut Compositor) -> (messages: Vec<Message>)
        requires
            old(compositor).wf(),
        ensures
            final(compositor).wf(),
            are_frames(messages@, frame_callbacks(old(compositor)@.surfaces)),
            final(compositor)@ == (Scene {
                surfaces: all_answered(
                    old(compositor)@.surfaces,
                    old(compositor)@.surfaces.len() as int,
                ),
                ..old(compositor)@
            }),
    {
        let ghost before = compositor@;
        let mut messages: Vec<Message> = Vec::new();
        let mut i: usize = 0;
        assert(before.surfaces.take(0) =~= Seq::empty());
        assert(compositor@ =~= (Scene { surfaces: all_answered(before.surfaces, 0), ..before }));
        while i < compositor.surfaces.len()
            invariant
                i <= compositor.surfaces.len(),
                compositor.surfaces.len() == before.surfaces.len(),
                compositor.wf(),
                are_frames(messages@, frame_callbacks(before.surfaces.take(i as int))),
                compositor@ == (Scene {
                    surfaces: all_answered(before.surfaces, i as int),
                    ..before
                }),
            decreases compositor.surfaces.len() - i,
        {
            let ghost here = compositor@;
            let ghost k = i as int;
            proof {
                assert(here.surfaces[k] == compositor.surfaces@[k]@);
                assert(here.surfaces[k] == before.surfaces[k]);
                assert(before.surfaces.take(k + 1).drop_last() =~= before.surfaces.take(k));
                assert(before.surfaces.take(k + 1).last() == before.surfaces[k]);
            }
            if compositor.surfaces[i].alive {
                if let Some(message) = compositor.surfaces[i].frame_event() {
                    messages.push(message);
                }
                proof {
                    assert(compositor@ =~= here.with_surface(k, answered(here.surfaces[k])));
                    lemma_relinked(here, k, answered(here.surfaces[k]));
                }
            }
            i += 1;
            assert(compositor@ =~= (Scene {
                surfaces: all_answered(before.surfaces, i as int),
                ..before
            }));
        }
        assert(before.surfaces.take(before.surfaces.len() as int) =~= before.surfaces);
        messages
    }

    /// The surfaces that anything still refers to.
    pub fn valid_surfaces(compositor: &Compositor) -> (places: Vec<usize>)
        ensures
            places@ == live_places(compositor@.surfaces),
    {
        let ghost surfaces = compositor@.surfaces;
        let mut places: Vec<usize> = Vec::new();
        let mut i: usize = 0;
        assert(surfaces.take(0) =~= Seq::empty());
        while i < compositor.surfaces.len()
            invariant
                i <= compositor.surfaces.len(),
                surfaces == compositor@.surfaces,
                places@ == live_places(surfaces.take(i as int)),
            decreases compositor.surfaces.len() - i,
        {
            assert(surfaces[i as int] == compositor.surfaces@[i as int]@);
            if compositor.surfaces[i].alive {
                places.push(i);
            }
            i += 1;
            assert(surfaces.take(i as int).drop_last() =~= surfaces.take(i - 1));
        }
        assert(surfaces.take(surfaces.len() as int) =~= surfaces);
        places
    }
}

impl UsedBuffers {
    pub fn new() -> (used: Self)
        ensures
            used.buffers@ == Seq::<AttachedBuffer>::empty(),
    {
        UsedBuffers { buffers: Vec::new() }
    }

    /// Keeps the buffers that live surfaces show.
    pub fn before_render(&mut self, compositor: &Compositor)
        ensures
            final(self).buffers@ == old(self).buffers@ + shown_buffers(compositor@.surfaces),
    {
        let ghost surfaces = compositor@.surfaces;
        let ghost start = self.buffers@;
        let mut i: usize = 0;
        assert(surfaces.take(0) =~= Seq::empty());
        assert(start + shown_buffers(surfaces.take(0)) =~= start);
        while i < compositor.surfaces.len()
            invariant
                i <= compositor.surfaces.len(),
                surfaces == compositor@.surfaces,
                self.buffers@ == start + shown_buffers(surfaces.take(i as int)),
            decreases compositor.surfaces.len() - i,
        {
            assert(surfaces[i as int] == compositor.surfaces@[i as int]@);
            if compositor.surfaces[i].alive {
                if let Some(buffer) = compositor.surfaces[i].current_buffer_usage() {
                    self.buffers.push(buffer);
                }
            }
            i += 1;
            assert(surfaces.take(i as int).drop_last() =~= surfaces.take(i - 1));
            assert(self.buffers@ =~= start + shown_buffers(surfaces.take(i as int)));
        }
        assert(surfaces.take(surfaces.len() as int) =~= surfaces);
    }

    /// Lets go of all buffers.
    pub fn after_render(&mut self)
        ensures
            final(self).buffers@ == Seq::<AttachedBuffer>::empty(),
    {
        self.buffers.clear();
    }
}

impl FrameTimings {
    pub fn new() -> (timings: Self)
        ensures
            timings.frame_count == 0,
    {
        FrameTimings { frame_count: 0 }
    }

    /// Counts a frame and makes the messages that tell every live surface when it was shown:
    /// at the time that the runtime gave, or else at the time of the clock.
    pub fn submit_frame_timings(
        &mut self,
        compositor: &Compositor,
        predicted: Option<MonotonicTimestamp>,
        clock: MonotonicTimestamp,
    ) -> (messages: Vec<Message>)
        requires
            old(self).frame_count < u64::MAX,
        ensures
            final(self).frame_count == old(self).frame_count + 1,
            messages@ == live_places(compositor@.surfaces).map_values(
                |surface: usize|
                    Message::SendPresentationFeedback {
                        surface,
                        display_timestamp: match predicted {
                            Some(time) => time,
                            None => clock,
                        },
                        refresh_cycle: (old(self).frame_count + 1) as u64,
                    },
            ),
    {
        self.frame_count = self.frame_count + 1;
        let refresh_cycle: u64 = self.frame_count;
        let display_timestamp: MonotonicTimestamp = match predicted {
            Some(time) => time,
            None => clock,
        };
        let places: Vec<usize> = WaylandPlugin::valid_surfaces(compositor);
        let mut messages: Vec<Message> = Vec::new();
        let ghost tell = |surface: usize|
            Message::SendPresentationFeedback { surface, display_timestamp, refresh_cycle };
        let mut i: usize = 0;
        assert(messages@ =~= places@.take(0).map_values(tell));
        while i < places.len()
            invariant
                i <= places.len(),
                tell == (|surface: usize|
                    Message::SendPresentationFeedback {
                        surface,
                        display_timestamp,
                        refresh_cycle,
                    }),
                messages@ == places@.take(i as int).map_values(tell),
            decreases places.len() - i,
        {
            messages.push(
                Surface::submit_presentation_feedback(
                    places[i],
                    display_timestamp,
                    refresh_cycle,
                ),
            );
            i += 1;
            assert(messages@ =~= places@.take(i as int).map_values(tell));
        }
        assert(places@.take(places@.len() as int) =~= places@);
        assert(messages@ =~= live_places(compositor@.surfaces).map_values(
            |surface: usize|
                Message::SendPresentationFeedback {
                    surface,
                    display_timestamp: match predicted {
                        Some(time) => time,
                        None => clock,
                    },
                    refresh_cycle: (old(self).frame_count + 1) as u64,
                },
        ));
        messages
    }
}

/// Every surface that anything still refers to has its place in the list once, and no other.
pub proof fn live_surfaces_are_listed_once(surfaces: Seq<SurfaceView>)
    requires
        surfaces.len() <= usize::MAX,
    ensures
        live_places(surfaces).no_duplicates(),
        forall|i: int|
            0 <= i < surfaces.len() ==> (#[trigger] surfaces[i].alive <==> live_places(
                surfaces,
            ).contains(i as usize)),
        forall|k: int|
            0 <= k < live_places(surfaces).len() ==> #[trigger] live_places(surfaces)[k]
                < surfaces.len(),
    decreases surfaces.len(),
{
    if surfaces.len() > 0 {
        let first = surfaces.drop_last();
        let n = surfaces.len() - 1;
        let all = live_places(surfaces);
        let some = live_places(first);
        live_surfaces_are_listed_once(first);
        assert forall|i: int| 0 <= i < surfaces.len() implies (
        #[trigger] surfaces[i].alive <==> all.contains(i as usize)) by {
            if i < n {
                assert(first[i].alive == surfaces[i].alive);
                if some.contains(i as usize) {
                    let k = choose|k: int| 0 <= k < some.len() && some[k] == i as usize;
                    assert(all[k] == i as usize);
                }
                if all.contains(i as usize) {
                    let k = choose|k: int| 0 <= k < all.len() && all[k] == i as usize;
                    assert(k < some.len());
                    assert(some[k] == i as usize);
                }
            } else {
                if surfaces[i].alive {
                    assert(all[all.len() - 1] == i as usize);
                } else if all.contains(i as usize) {
                    let k = choose|k: int| 0 <= k < all.len() && all[k] == i as usize;
                    assert(some[k] < first.len());
                }
            }
        }
        assert forall|i: int, j: int| 0 <= i < j < all.len() implies all[i] != all[j] by {
            if j < some.len() {
                assert(some[i] != some[j]);
            } else {
                assert(some[i] < first.len());
            }
        }
        assert forall|k: int| 0 <= k < all.len() implies #[trigger] all[k] < surfaces.len() by {
            if k < some.len() {
                assert(some[k] < first.len());
            }
        }
    }
}

} // verus!
