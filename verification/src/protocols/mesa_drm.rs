//! `wl_drm`: the older way to buffers in memory of the graphics device.
use crate::client::{Client, ClientView, Interface};
use crate::collections::{formats_insert, formats_list, formats_new};
use crate::event::{Event, EventView};
use crate::protocols::dmabuf::buffer_backing::{BufferPlan, DmabufBacking, DmatexImportError};
use crate::protocols::dmabuf::buffer_params::{flat_plane, DisjointDmatexPlane, DmatexPlane};
use crate::protocols::dmabuf::fourcc::{fourcc_known, Fourcc};
use crate::protocols::wl::buffer::{Buffer, BufferBacking};
use crate::text::{digits, numbered};
use crate::types::{Fd, ObjectId, Vector2};
use rustc_hash::FxHashSet;
use vstd::prelude::*;

verus! {

/// The capability that lets clients share buffers by file descriptors.
pub const PRIME: u32 = 1;

/// The version from which a client is told of capabilities.
pub const CAPABILITIES_SINCE: u32 = 2;

/// The modifier of a buffer of which it is not known how it is laid out.
pub const INVALID_MODIFIER: u64 = 72057594037927935;

#[derive(Debug, Clone, Copy, PartialEq, Eq, Structural)]
pub struct MesaDrm {
    pub version: u32,
}

/// The path of the device node with a number.
pub open spec fn render_node(dev_id: u64) -> Seq<char> {
    "/dev/dri/renderD"@ + digits((dev_id % 0x100) as nat)
}

/// What a client is told when it binds the global: the device, what it can do and the pixel
/// formats in the order `formats`.
pub open spec fn drm_events(
    drm: ObjectId,
    version: u32,
    dev_id: u64,
    formats: Seq<u32>,
) -> Seq<EventView> {
    let device = EventView::DrmDevice { drm, path: render_node(dev_id) };
    let capabilities = if version >= CAPABILITIES_SINCE {
        seq![EventView::Plain(Event::DrmCapabilities { drm, value: PRIME })]
    } else {
        Seq::empty()
    };
    seq![device] + capabilities + formats.map_values(
        |format: u32| EventView::Plain(Event::DrmFormat { drm, format }),
    )
}

/// Every value of a list once.
fn distinct(values: &Vec<u32>) -> (r: Vec<u32>)
    ensures
        r@.no_duplicates(),
        r@.to_set() == values@.to_set(),
{
    let mut seen: FxHashSet<u32> = formats_new();
    let mut i: usize = 0;
    assert(values@.take(0).to_set() =~= Set::empty());
    while i < values.len()
        invariant
            i <= values.len(),
            seen@ == values@.take(i as int).to_set(),
        decreases values.len() - i,
    {
        formats_insert(&mut seen, values[i]);
        i += 1;
        proof {
            let before = values@.take(i - 1);
            let after = values@.take(i as int);
            assert(after =~= before.push(values@[i - 1]));
            assert forall|x: u32| #[trigger] after.to_set().contains(x) <==> before.to_set().insert(
                values@[i - 1],
            ).contains(x) by {
                if before.contains(x) {
                    let k = choose|k: int| 0 <= k < before.len() && before[k] == x;
                    assert(after[k] == x);
                }
                if after.contains(x) && x != values@[i - 1] {
                    let k = choose|k: int| 0 <= k < after.len() && after[k] == x;
                    assert(before[k] == x);
                }
                assert(after[i - 1] == values@[i - 1]);
            }
            assert(after.to_set() =~= before.to_set().insert(values@[i - 1]));
        }
    }
    assert(values@.take(values@.len() as int) =~= values@);
    formats_list(seen)
}

impl MesaDrm {
    /// Tells a client of the device and of each of the pixel formats of the server once, in
    /// an order that is left open.
    pub fn new(
        client: &mut Client,
        id: ObjectId,
        version: u32,
        dev_id: u64,
        formats: Vec<u32>,
    ) -> (drm: Self)
        ensures
            drm.version == version,
            exists|once: Seq<u32>|
                {
                    &&& once.no_duplicates()
                    &&& once.to_set() == formats@.to_set()
                    &&& final(client)@ == old(client)@.after(
                        #[trigger] drm_events(id, version, dev_id, once),
                        0,
                    )
                },
    {
        let once: Vec<u32> = distinct(&formats);
        Self::announce(client, id, version, dev_id, &once)
    }

    /// As [`MesaDrm::new`], with the pixel formats in the order in which they are told.
    pub fn announce(
        client: &mut Client,
        id: ObjectId,
        version: u32,
        dev_id: u64,
        formats: &Vec<u32>,
    ) -> (drm: Self)
        ensures
            drm.version == version,
            final(client)@ == old(client)@.after(drm_events(id, version, dev_id, formats@), 0),
    {
        let ghost start = client@;
        assert(dev_id & 0xFF == dev_id % 0x100) by (bit_vector);
        client.send(
            Event::DrmDevice { drm: id, path: numbered("/dev/dri/renderD", dev_id & 0xFF) },
        );
        if version >= CAPABILITIES_SINCE {
            client.send(Event::DrmCapabilities { drm: id, value: PRIME });
        }
        let mut i: usize = 0;
        assert(client@.sent =~= start.sent + drm_events(id, version, dev_id, formats@.take(0)));
        while i < formats.len()
            invariant
                i <= formats.len(),
                client@ == start.after(
                    drm_events(id, version, dev_id, formats@.take(i as int)),
                    0,
                ),
            decreases formats.len() - i,
        {
            client.send(Event::DrmFormat { drm: id, format: formats[i] });
            i += 1;
            assert(client@.sent =~= start.sent + drm_events(
                id,
                version,
                dev_id,
                formats@.take(i as int),
            ));
        }
        assert(formats@.take(formats@.len() as int) =~= formats@);
        MesaDrm { version }
    }

    /// Everyone may use the device.
    pub fn authenticate(&self, client: &mut Client, sender_id: ObjectId)
        ensures
            final(client)@ == old(client)@.after(
                seq![EventView::Plain(Event::DrmAuthenticated { drm: sender_id })],
                0,
            ),
    {
        client.send(Event::DrmAuthenticated { drm: sender_id });
    }

    /// What a buffer of one plane is to be made from; nothing where the format is none that
    /// is known.
    pub fn create_prime_buffer(
        &self,
        name: Fd,
        width: i32,
        height: i32,
        format: u32,
        offset0: i32,
        stride0: i32,
    ) -> (r: Option<BufferPlan>)
        ensures
            match r {
                None => !fourcc_known(format),
                Some(plan) => {
                    &&& fourcc_known(format)
                    &&& plan.planes@ == seq![flat_plane(name, offset0 as u32, stride0 as u32)]
                    &&& plan.modifier == INVALID_MODIFIER
                    &&& plan.size == (Vector2 { x: width as u32, y: height as u32 })
                    &&& plan.format == (Fourcc { code: format })
                },
            },
    {
        match Fourcc::recognized(format) {
            Some(format) => Some(
                Self::prime_plan(name, width, height, format, offset0, stride0),
            ),
            None => None,
        }
    }

    /// What a buffer of one plane in a format is to be made from.
    pub fn prime_plan(
        name: Fd,
        width: i32,
        height: i32,
        format: Fourcc,
        offset0: i32,
        stride0: i32,
    ) -> (plan: BufferPlan)
        ensures
            plan.planes@ == seq![flat_plane(name, offset0 as u32, stride0 as u32)],
            plan.modifier == INVALID_MODIFIER,
            plan.size == (Vector2 { x: width as u32, y: height as u32 }),
            plan.format == format,
    {
        let offset: u32 = offset0 as u32;
        let stride: u32 = stride0 as u32;
        let mut planes: Vec<DisjointDmatexPlane> = Vec::new();
        planes.push(
            DisjointDmatexPlane {
                dmabuf_fd: name,
                plane: DmatexPlane {
                    offset: offset as u64,
                    row_size: stride as u64,
                    array_element_size: 0,
                    depth_slice_size: 0,
                },
            },
        );
        let size: Vector2<u32> = Vector2 { x: width as u32, y: height as u32 };
        BufferPlan { planes, modifier: INVALID_MODIFIER, size, format }
    }

    /// Adds the buffer once it is known whether the server took it. A client is not told of
    /// a refusal, nor that the id was taken.
    pub fn finish_prime_buffer(
        &self,
        client: &mut Client,
        buffer_id: ObjectId,
        imported: Result<DmabufBacking, DmatexImportError>,
    ) -> (r: Option<Buffer>)
        ensures
            match imported {
                Ok(backing) if !old(client)@.objects.contains_key(buffer_id.raw) => {
                    &&& r == Some(
                        Buffer { id: buffer_id, backing: BufferBacking::Dmabuf(backing) },
                    )
                    &&& final(client)@ == (ClientView {
                        objects: old(client)@.objects.insert(buffer_id.raw, Interface::Buffer),
                        ..old(client)@
                    })
                },
                _ => {
                    &&& r is None
                    &&& final(client)@ == old(client)@
                },
            },
    {
        match imported {
            Ok(backing) => {
                match Buffer::new(client, buffer_id, BufferBacking::Dmabuf(backing)) {
                    Ok(buffer) => Some(buffer),
                    Err(_) => None,
                }
            },
            Err(_) => None,
        }
    }
}

} // verus!
