//! `wl_buffer`: pixels that a surface can show.
use crate::client::{Client, ClientView, Interface};
use crate::error::{WaylandError, WaylandResult};
use crate::message::Message;
use crate::protocols::dmabuf::buffer_backing::DmabufBacking;
use crate::protocols::dmabuf::fourcc::has_alpha;
use crate::protocols::wl::shm::XRGB8888;
use crate::protocols::wl::shm_buffer_backing::ShmBufferBacking;
use crate::protocols::wl::timeline::{point_after, Points};
use crate::signal_on_drop::SignalOnDrop;
use crate::types::{ObjectId, Vector2};
use vstd::prelude::*;

verus! {

/// Where the pixels of a buffer are.
#[derive(Debug, Clone, Copy, PartialEq, Eq)]
pub enum BufferBacking {
    Shm(ShmBufferBacking),
    Dmabuf(DmabufBacking),
}

#[derive(Debug, Clone, Copy, PartialEq, Eq)]
pub struct Buffer {
    pub id: ObjectId,
    pub backing: BufferBacking,
}

/// One hand-over of a buffer to those who show it.
#[derive(Debug, Clone, Copy, PartialEq, Eq, Structural)]
pub struct BufferSubmit {
    /// The point after which the buffer may be read.
    pub acquire: u64,
    /// The point after which the buffer is free again; then the client is told.
    pub release: SignalOnDrop,
    pub buffer: ObjectId,
}

impl BufferBacking {
    /// The next point of the timeline.
    pub open spec fn next_point(self) -> u64 {
        match self {
            BufferBacking::Shm(backing) => backing.points.next,
            BufferBacking::Dmabuf(backing) => backing.points.next,
        }
    }

    /// The same pixels, with another point as the next one.
    pub open spec fn with_next_point(self, next: u64) -> BufferBacking {
        match self {
            BufferBacking::Shm(backing) => BufferBacking::Shm(
                ShmBufferBacking {
                    points: Points { next },
                    ..backing
                },
            ),
            BufferBacking::Dmabuf(backing) => BufferBacking::Dmabuf(
                DmabufBacking {
                    points: Points { next },
                    ..backing
                },
            ),
        }
    }
}

impl Buffer {
    /// Adds a buffer to the client's objects.
    pub fn new(client: &mut Client, id: ObjectId, backing: BufferBacking) -> (r: WaylandResult<
        Self,
    >)
        ensures
            if old(client)@.objects.contains_key(id.raw) {
                &&& r == Err::<Buffer, _>(WaylandError::FailedToInsertObject)
                &&& final(client)@ == old(client)@
            } else {
                &&& r == Ok::<_, WaylandError>(Buffer { id, backing })
                &&& final(client)@ == (ClientView {
                    objects: old(client)@.objects.insert(id.raw, Interface::Buffer),
                    ..old(client)@
                })
            },
    {
        match client.insert(id, Interface::Buffer) {
            Ok(()) => Ok(Buffer { id, backing }),
            Err(e) => Err(e),
        }
    }

    /// Hands the buffer over with its next two points. Pixels in memory that the client
    /// shares are copied from `shm_data` to `staging` first.
    pub fn update(&mut self, shm_data: &Vec<u8>, staging: &mut Vec<u8>) -> (submit: BufferSubmit)
        requires
            old(self).backing matches BufferBacking::Shm(backing) ==> {
                &&& backing.lies_in(shm_data@.len())
                &&& old(staging)@.len() == backing.size.y * backing.line()
            },
        ensures
            ({
                let next = old(self).backing.next_point();
                &&& submit == (BufferSubmit {
                    acquire: next,
                    release: SignalOnDrop { point: point_after(next, 1), consumed: false },
                    buffer: old(self).id,
                })
                &&& *final(self) == (Buffer {
                    backing: old(self).backing.with_next_point(point_after(next, 2)),
                    ..*old(self)
                })
            }),
            final(staging)@ == match old(self).backing {
                BufferBacking::Shm(backing) => backing.packed(shm_data@),
                BufferBacking::Dmabuf(_) => old(staging)@,
            },
    {
        let points: (u64, u64) = match &mut self.backing {
            BufferBacking::Shm(backing) => backing.update(shm_data, staging),
            BufferBacking::Dmabuf(backing) => backing.update(),
        };
        BufferSubmit {
            acquire: points.0,
            release: SignalOnDrop::new(points.1),
            buffer: self.id,
        }
    }

    /// Whether pixels may let what is behind them through.
    pub fn is_transparent(&self) -> (r: bool)
        ensures
            r == match self.backing {
                BufferBacking::Shm(backing) => backing.wl_format != XRGB8888,
                BufferBacking::Dmabuf(backing) => has_alpha(backing.format.code),
            },
    {
        match &self.backing {
            BufferBacking::Shm(backing) => backing.is_transparent(),
            BufferBacking::Dmabuf(backing) => backing.is_transparent(),
        }
    }

    pub fn size(&self) -> (size: Vector2<usize>)
        ensures
            size == match self.backing {
                BufferBacking::Shm(backing) => Vector2 {
                    x: backing.size.x as usize,
                    y: backing.size.y as usize,
                },
                BufferBacking::Dmabuf(backing) => Vector2 {
                    x: backing.size.x as usize,
                    y: backing.size.y as usize,
                },
            },
    {
        match &self.backing {
            BufferBacking::Shm(backing) => backing.size(),
            BufferBacking::Dmabuf(backing) => backing.size(),
        }
    }

    fn new_timeline_point(&mut self) -> (point: u64)
        ensures
            point == old(self).backing.next_point(),
            *final(self) == (Buffer {
                backing: old(self).backing.with_next_point(
                    point_after(old(self).backing.next_point(), 1),
                ),
                ..*old(self)
            }),
    {
        match &mut self.backing {
            BufferBacking::Shm(backing) => backing.new_timeline_point(),
            BufferBacking::Dmabuf(backing) => backing.new_timeline_point(),
        }
    }

    /// The message that makes the client's task tell the client that the buffer is free.
    pub fn released(&self) -> (message: Message)
        ensures
            message == Message::ReleaseBuffer(self.id),
    {
        Message::ReleaseBuffer(self.id)
    }

    /// Takes the buffer out of the client's objects.
    pub fn destroy(&self, client: &mut Client)
        ensures
            final(client)@ == (ClientView {
                objects: old(client)@.objects.remove(self.id.raw),
                ..old(client)@
            }),
    {
        client.remove(self.id);
    }
}

impl BufferSubmit {
    /// Hands the same pixels over again, with a new point after which the buffer is free.
    /// Nothing waits for the old point any more. Returns that point as well, where nobody took
    /// it on and it has to be signalled therefore.
    pub fn reapply(self, buffer: &mut Buffer) -> (r: (BufferSubmit, Option<u64>))
        ensures
            r.0 == (BufferSubmit {
                release: SignalOnDrop {
                    point: old(buffer).backing.next_point(),
                    consumed: false,
                },
                ..self
            }),
            r.1 == (if self.release.consumed {
                None
            } else {
                Some(self.release.point)
            }),
            *final(buffer) == (Buffer {
                backing: old(buffer).backing.with_next_point(
                    point_after(old(buffer).backing.next_point(), 1),
                ),
                ..*old(buffer)
            }),
    {
        let new_release: u64 = buffer.new_timeline_point();
        let submit = BufferSubmit {
            acquire: self.acquire,
            release: SignalOnDrop::new(new_release),
            buffer: self.buffer,
        };
        (submit, self.release.dropped())
    }

    pub fn acquire(&self) -> (point: u64)
        ensures
            point == self.acquire,
    {
        self.acquire
    }

    pub fn release(&self) -> (point: u64)
        ensures
            point == self.release.point,
    {
        self.release.point
    }

    pub fn buffer(&self) -> (buffer: ObjectId)
        ensures
            buffer == self.buffer,
    {
        self.buffer
    }
}

} // verus!
