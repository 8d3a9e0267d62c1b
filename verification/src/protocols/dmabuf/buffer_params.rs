//! `zwp_linux_buffer_params_v1`: the planes from which a dmabuf buffer is made.
use crate::client::{free_server_id, server_ids_are_free, Client, ClientView, Interface};
use crate::collections::{planes_contains, planes_insert, planes_new};
use crate::error::{WaylandError, WaylandResult};
use crate::event::{Event, EventView};
use crate::protocols::dmabuf::buffer_backing::{
    in_order, BufferPlan, DmabufBacking, DmatexImportError,
};
use crate::protocols::dmabuf::fourcc::{fourcc_known, Fourcc};
use crate::protocols::wl::buffer::{Buffer, BufferBacking};
use crate::types::{Fd, ObjectId, Vector2, FIRST_SERVER_ID};
use rustc_hash::FxHashMap;
use vstd::prelude::*;

verus! {

/// The protocol error of a buffer that lacks planes or whose planes the server cannot take.
pub const INCOMPLETE: u32 = 3;

/// The protocol error of a buffer whose planes do not go together.
pub const INVALID_FORMAT: u32 = 4;

/// Where the pixels of one plane lie in its dmabuf.
#[derive(Debug, Clone, Copy, PartialEq, Eq, Structural)]
pub struct DmatexPlane {
    pub offset: u64,
    pub row_size: u64,
    pub array_element_size: u64,
    pub depth_slice_size: u64,
}

/// A plane together with the dmabuf that holds it.
#[derive(Debug, Clone, Copy, PartialEq, Eq, Structural)]
pub struct DisjointDmatexPlane {
    pub dmabuf_fd: Fd,
    pub plane: DmatexPlane,
}

/// How far planes have come on their way to becoming a buffer.
#[derive(Debug, Clone, Copy, PartialEq, Eq, Structural)]
pub enum ParamsStage {
    /// Planes are added.
    Collecting,
    /// The planes were handed over, and the client waits for what comes of it.
    Planned,
    /// The client was told what came of it.
    Answered,
}

/// Planes on their way to becoming a buffer, by their indices, and the modifier that they
/// have in common. They become one buffer at most.
pub struct BufferParams {
    pub id: ObjectId,
    pub planes: FxHashMap<u32, DisjointDmatexPlane>,
    pub modifier: Option<u64>,
    pub stage: ParamsStage,
}

#[verifier::ext_equal]
pub ghost struct ParamsView {
    pub id: ObjectId,
    pub planes: Map<u32, DisjointDmatexPlane>,
    pub modifier: Option<u64>,
    pub stage: ParamsStage,
}

impl View for BufferParams {
    type V = ParamsView;

    open spec fn view(&self) -> ParamsView {
        ParamsView {
            id: self.id,
            planes: self.planes@,
            modifier: self.modifier,
            stage: self.stage,
        }
    }
}

/// A plane of a picture without layers.
pub open spec fn flat_plane(dmabuf_fd: Fd, offset: u32, stride: u32) -> DisjointDmatexPlane {
    DisjointDmatexPlane {
        dmabuf_fd,
        plane: DmatexPlane {
            offset: offset as u64,
            row_size: stride as u64,
            array_element_size: 0,
            depth_slice_size: 0,
        },
    }
}

/// A number from its halves.
pub open spec fn joined(hi: u32, lo: u32) -> u64 {
    (hi * 0x1_0000_0000 + lo) as u64
}

/// Puts a number together from its halves.
pub fn join(hi: u32, lo: u32) -> (r: u64)
    ensures
        r == joined(hi, lo),
{
    let r: u64 = ((hi as u64) << 32) | (lo as u64);
    assert(r == (hi as u64) * 0x1_0000_0000 + (lo as u64)) by (bit_vector)
        requires
            r == ((hi as u64) << 32) | (lo as u64),
    ;
    r
}

/// Splitting a modifier for the wire and putting it together again gives it back.
pub proof fn halves_make_the_whole(modifier: u64)
    ensures
        joined(
            crate::presentation::halves(modifier).0,
            crate::presentation::halves(modifier).1,
        ) == modifier,
{
}

impl ParamsView {
    /// No planes, of which a buffer may still be made.
    pub open spec fn new(id: ObjectId) -> ParamsView {
        ParamsView { id, planes: Map::empty(), modifier: None, stage: ParamsStage::Collecting }
    }

    /// The planes and the answer once another one was to be added.
    pub open spec fn added(
        self,
        fd: Fd,
        plane_idx: u32,
        offset: u32,
        stride: u32,
        modifier: u64,
    ) -> (ParamsView, WaylandResult<()>) {
        if self.planes.contains_key(plane_idx) {
            (self, Err(WaylandError::MissingObject(self.id)))
        } else if self.modifier is Some && self.modifier != Some(modifier) {
            (
                self,
                Err(
                    WaylandError::Fatal {
                        object_id: self.id,
                        code: INVALID_FORMAT,
                        message: "used multiple differing modifiers for one buffer",
                    },
                ),
            )
        } else {
            (
                ParamsView {
                    planes: self.planes.insert(plane_idx, flat_plane(fd, offset, stride)),
                    modifier: Some(modifier),
                    ..self
                },
                Ok(()),
            )
        }
    }

    /// Why no buffer can be made of the planes, if none can.
    pub open spec fn refusal(self) -> Option<DmatexImportError> {
        if self.stage != ParamsStage::Collecting {
            Some(DmatexImportError::AlreadyUsed)
        } else if self.modifier is None || self.planes == Map::<u32, DisjointDmatexPlane>::empty() {
            Some(DmatexImportError::NoModifier)
        } else {
            None
        }
    }

    /// The planes once they were taken to make a buffer of them.
    pub open spec fn taken(self) -> ParamsView {
        ParamsView {
            planes: Map::empty(),
            stage: if self.refusal() is None {
                ParamsStage::Planned
            } else {
                self.stage
            },
            ..self
        }
    }

    /// The planes once the client was told what came of them.
    pub open spec fn answered(self) -> ParamsView {
        ParamsView { stage: ParamsStage::Answered, ..self }
    }
}

impl BufferParams {
    pub fn new(id: ObjectId) -> (params: Self)
        ensures
            params@ == ParamsView::new(id),
    {
        BufferParams { id, planes: planes_new(), modifier: None, stage: ParamsStage::Collecting }
    }

    /// Cancels what was to become a buffer: takes the object out of the client's objects.
    pub fn destroy(&self, client: &mut Client)
        ensures
            final(client)@ == (ClientView {
                objects: old(client)@.objects.remove(self@.id.raw),
                ..old(client)@
            }),
    {
        client.remove(self.id);
    }

    /// Adds a plane, unless its index is taken or its modifier differs from that of the
    /// first.
    pub fn add(
        &mut self,
        fd: Fd,
        plane_idx: u32,
        offset: u32,
        stride: u32,
        modifier_hi: u32,
        modifier_lo: u32,
    ) -> (r: WaylandResult<()>)
        ensures
            (final(self)@, r) == old(self)@.added(
                fd,
                plane_idx,
                offset,
                stride,
                joined(modifier_hi, modifier_lo),
            ),
    {
        if planes_contains(&self.planes, plane_idx) {
            return Err(WaylandError::MissingObject(self.id));
        }
        let plane = DisjointDmatexPlane {
            dmabuf_fd: fd,
            plane: DmatexPlane {
                offset: offset as u64,
                row_size: stride as u64,
                array_element_size: 0,
                depth_slice_size: 0,
            },
        };
        let modifier: u64 = join(modifier_hi, modifier_lo);
        let stored: u64 = match self.modifier {
            Some(stored) => stored,
            None => modifier,
        };
        self.modifier = Some(stored);
        if modifier != stored {
            return Err(
                WaylandError::Fatal {
                    object_id: self.id,
                    code: INVALID_FORMAT,
                    message: "used multiple differing modifiers for one buffer",
                },
            );
        }
        planes_insert(&mut self.planes, plane_idx, plane);
        Ok(())
    }

    /// Puts together what a buffer is to be made from, or says why it cannot be. Where the
    /// format is none that is known, nothing happens.
    pub fn plan(&mut self, width: i32, height: i32, format: u32) -> (r: Option<
        Result<BufferPlan, DmatexImportError>,
    >)
        ensures
            final(self)@ == if fourcc_known(format) {
                old(self)@.taken()
            } else {
                old(self)@
            },
            match r {
                None => !fourcc_known(format),
                Some(Ok(plan)) => {
                    &&& fourcc_known(format)
                    &&& old(self)@.refusal() is None
                    &&& in_order(old(self)@.planes, plan.planes@)
                    &&& plan.planes@.len() > 0
                    &&& Some(plan.modifier) == old(self)@.modifier
                    &&& plan.size == (Vector2 { x: width as u32, y: height as u32 })
                    &&& plan.format == (Fourcc { code: format })
                },
                Some(Err(e)) => fourcc_known(format) && old(self)@.refusal() == Some(e),
            },
    {
        let size: Vector2<u32> = Vector2 { x: width as u32, y: height as u32 };
        match Fourcc::recognized(format) {
            Some(format) => Some(DmabufBacking::from_params(self, size, format)),
            None => None,
        }
    }

    /// Answers a request for a buffer under a number of the service's choice, once it is known
    /// whether the server took it. A refusal ends the parameters, but not the client. So does
    /// a buffer that was not planned, or whose request was answered before.
    pub fn create(
        &mut self,
        client: &mut Client,
        imported: Result<DmabufBacking, DmatexImportError>,
    ) -> (r: WaylandResult<Option<Buffer>>)
        ensures
            final(self)@ == old(self)@.answered(),
            match imported {
                Ok(backing) if old(self)@.stage == ParamsStage::Planned => match free_server_id(
                    old(client)@.objects,
                ) {
                    Some(id) => {
                        &&& r == Ok::<_, WaylandError>(
                            Some(Buffer { id, backing: BufferBacking::Dmabuf(backing) }),
                        )
                        &&& final(client)@ == (ClientView {
                            objects: old(client)@.objects.insert(id.raw, Interface::Buffer),
                            ..old(client)@
                        }).after(
                            seq![
                                EventView::Plain(
                                    Event::BufferParamsCreated {
                                        params: old(self)@.id,
                                        buffer: id,
                                    },
                                ),
                            ],
                            0,
                        )
                    },
                    None => {
                        &&& r == Err::<Option<Buffer>, _>(WaylandError::FailedToInsertObject)
                        &&& final(client)@ == old(client)@
                    },
                },
                _ => {
                    &&& r == Ok::<_, WaylandError>(None::<Buffer>)
                    &&& final(client)@ == (ClientView {
                        objects: old(client)@.objects.remove(old(self)@.id.raw),
                        ..old(client)@
                    }).after(
                        seq![
                            EventView::Plain(Event::BufferParamsFailed { params: old(self)@.id }),
                        ],
                        0,
                    )
                },
            },
    {
        let planned: bool = self.stage == ParamsStage::Planned;
        self.stage = ParamsStage::Answered;
        match imported {
            Ok(backing) if planned => {
                let id: ObjectId = match client.next_server_id() {
                    Some(id) => id,
                    None => {
                        return Err(WaylandError::FailedToInsertObject);
                    },
                };
                proof {
                    server_ids_are_free(client@.objects, FIRST_SERVER_ID as int);
                }
                match Buffer::new(client, id, BufferBacking::Dmabuf(backing)) {
                    Ok(buffer) => {
                        client.send(Event::BufferParamsCreated { params: self.id, buffer: id });
                        Ok(Some(buffer))
                    },
                    Err(e) => Err(e),
                }
            },
            _ => {
                client.remove(self.id);
                client.send(Event::BufferParamsFailed { params: self.id });
                Ok(None)
            },
        }
    }

    /// Answers a request for a buffer under an id of the client's choice, once it is known
    /// whether the server took it. A refusal ends the client. So does a buffer that was not
    /// planned, or whose request was answered before.
    pub fn create_immed(
        &mut self,
        client: &mut Client,
        buffer_id: ObjectId,
        imported: Result<DmabufBacking, DmatexImportError>,
    ) -> (r: WaylandResult<Buffer>)
        ensures
            final(self)@ == old(self)@.answered(),
            match imported {
                Ok(backing) if old(self)@.stage == ParamsStage::Planned => if old(
                    client,
                )@.objects.contains_key(buffer_id.raw) {
                    &&& r == Err::<Buffer, _>(WaylandError::FailedToInsertObject)
                    &&& final(client)@ == old(client)@
                } else {
                    &&& r == Ok::<_, WaylandError>(
                        Buffer { id: buffer_id, backing: BufferBacking::Dmabuf(backing) },
                    )
                    &&& final(client)@ == (ClientView {
                        objects: old(client)@.objects.insert(buffer_id.raw, Interface::Buffer),
                        ..old(client)@
                    })
                },
                _ => {
                    &&& r == Err::<Buffer, _>(
                        WaylandError::Fatal {
                            object_id: buffer_id,
                            code: INCOMPLETE,
                            message: "Failed to import dmabuf",
                        },
                    )
                    &&& final(client)@ == old(client)@
                },
            },
    {
        let planned: bool = self.stage == ParamsStage::Planned;
        self.stage = ParamsStage::Answered;
        if let Ok(backing) = imported {
            if planned {
                return Buffer::new(client, buffer_id, BufferBacking::Dmabuf(backing));
            }
        }
        Err(
            WaylandError::Fatal {
                object_id: buffer_id,
                code: INCOMPLETE,
                message: "Failed to import dmabuf",
            },
        )
    }
}

/// What can be asked of planes on their way to becoming a buffer.
pub ghost enum ParamsCall {
    Add { fd: Fd, plane_idx: u32, offset: u32, stride: u32, modifier: u64 },
    Plan { format: u32 },
    /// An answer to the client: whether the server took the buffer, and whether the id that
    /// the buffer is to have is free.
    Answer { imported: bool, free: bool },
}

impl ParamsView {
    /// The planes after a call.
    pub open spec fn called(self, call: ParamsCall) -> ParamsView {
        match call {
            ParamsCall::Add { fd, plane_idx, offset, stride, modifier } => self.added(
                fd,
                plane_idx,
                offset,
                stride,
                modifier,
            ).0,
            ParamsCall::Plan { format } => if fourcc_known(format) {
                self.taken()
            } else {
                self
            },
            ParamsCall::Answer { .. } => self.answered(),
        }
    }

    /// Whether a call makes a buffer: an answer does, where the planes were handed over and
    /// not answered for, the server took them and the id is free.
    pub open spec fn makes_buffer(self, call: ParamsCall) -> bool {
        call == (ParamsCall::Answer { imported: true, free: true }) && self.stage
            == ParamsStage::Planned
    }

    /// The planes after some calls.
    pub open spec fn all_called(self, calls: Seq<ParamsCall>) -> ParamsView
        decreases calls.len(),
    {
        if calls.len() == 0 {
            self
        } else {
            self.all_called(calls.drop_last()).called(calls.last())
        }
    }

    /// How many buffers some calls make.
    pub open spec fn buffers_made(self, calls: Seq<ParamsCall>) -> nat
        decreases calls.len(),
    {
        if calls.len() == 0 {
            0
        } else {
            self.buffers_made(calls.drop_last()) + if self.all_called(
                calls.drop_last(),
            ).makes_buffer(calls.last()) {
                1nat
            } else {
                0nat
            }
        }
    }
}

/// Whatever is asked of them, planes become one buffer at most, and once they did, they are
/// refused.
pub proof fn params_make_one_buffer(params: ParamsView, calls: Seq<ParamsCall>)
    ensures
        params.buffers_made(calls) <= 1,
        params.buffers_made(calls) == 1 ==> {
            &&& params.all_called(calls).stage == ParamsStage::Answered
            &&& params.all_called(calls).refusal() == Some(DmatexImportError::AlreadyUsed)
        },
    decreases calls.len(),
{
    if calls.len() > 0 {
        params_make_one_buffer(params, calls.drop_last());
    }
}

} // verus!
