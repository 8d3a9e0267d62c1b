//! Where frame events come from.
use vstd::prelude::*;

verus! {

/// Gives access to the frame events of the server.
#[derive(Debug, Clone, Copy, PartialEq, Eq, Structural)]
pub struct FrameEventProvider {}

impl FrameEventProvider {
    pub fn new() -> (provider: Self)
        ensures
            provider == (FrameEventProvider {  }),
    {
        FrameEventProvider {  }
    }
}

/// What came of waiting for a frame event.
#[derive(Debug, PartialEq, Eq)]
pub enum FrameEvent<F> {
    /// There are no more.
    Closed,
    /// So many were missed.
    Lagged(u64),
    Frame(F),
}

/// What a task that waits for frame events does next.
#[derive(Debug, PartialEq, Eq)]
pub enum FrameStep<F> {
    Stop,
    Wait,
    Handle(F),
}

/// What a task does with what it waited for: it ends with the frame events, and with the first
/// one that finds nothing to be updated any more.
pub fn frame_step<F>(event: FrameEvent<F>, needed: bool) -> (step: FrameStep<F>)
    ensures
        step == match event {
            FrameEvent::Closed => FrameStep::<F>::Stop,
            FrameEvent::Lagged(_) => FrameStep::<F>::Wait,
            FrameEvent::Frame(frame) => if needed {
                FrameStep::Handle(frame)
            } else {
                FrameStep::<F>::Stop
            },
        },
{
    match event {
        FrameEvent::Closed => FrameStep::Stop,
        FrameEvent::Lagged(_) => FrameStep::Wait,
        FrameEvent::Frame(frame) => {
            if needed {
                FrameStep::Handle(frame)
            } else {
                FrameStep::Stop
            }
        },
    }
}

} // verus!
