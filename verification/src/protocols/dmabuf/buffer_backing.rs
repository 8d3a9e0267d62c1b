//! A buffer in memory of the graphics device, which is shown as it is.
use crate::collections::{planes_list, planes_new};
use crate::protocols::dmabuf::buffer_params::{
    BufferParams, DisjointDmatexPlane, DmatexPlane, ParamsStage,
};
use crate::protocols::dmabuf::fourcc::{has_alpha, Fourcc};
use crate::protocols::wl::timeline::{point_after, Points};
use crate::types::{Fd, Vector2};
use rustc_hash::FxHashMap;
use vstd::prelude::*;

verus! {

/// Why the server could not take a buffer.
#[derive(Debug, Clone, Copy, PartialEq, Eq, Structural)]
pub enum DmatexImportError {
    InvalidFormat,
    /// There are no planes.
    NoModifier,
    /// The planes were handed over before.
    AlreadyUsed,
    FailedToEnumerateServerFormats,
    DmatexImportError,
    TimelineCreationError,
    TimelineExportError,
    DmabufFdCloneError,
}

/// The file that a descriptor refers to.
#[derive(Debug, Clone, Copy, PartialEq, Eq, Structural)]
pub struct FileId {
    pub dev: u64,
    pub ino: u64,
}

/// What a buffer is to be made from: its planes in order, and how to read them.
#[derive(Debug, PartialEq, Eq)]
pub struct BufferPlan {
    pub planes: Vec<DisjointDmatexPlane>,
    pub modifier: u64,
    pub size: Vector2<u32>,
    pub format: Fourcc,
}

/// How the planes of a buffer are spread over dmabufs.
#[derive(Debug, PartialEq, Eq)]
pub enum DmatexPlanes {
    /// All planes lie in one dmabuf.
    Simple { dmabuf_fd: Fd, planes: Vec<DmatexPlane> },
    Disjoint { planes: Vec<DisjointDmatexPlane> },
}

/// How colours and alpha of an image go together.
#[derive(Debug, Clone, Copy, PartialEq, Eq, Structural)]
pub enum AlphaMode {
    /// Colours were multiplied with alpha as they are stored.
    PremultipliedElectrical,
}

/// What the server is asked to take.
#[derive(Debug, PartialEq, Eq)]
pub struct DmatexImport {
    pub size: Vector2<u32>,
    pub drm_fourcc: u32,
    pub drm_modifier: u64,
    pub is_srgb: bool,
    pub alpha_mode: AlphaMode,
    pub array_layers: u32,
    pub planes: DmatexPlanes,
    /// The dmabufs that have to be ready before the buffer may be read.
    pub watched: Vec<Fd>,
}

/// A buffer that the server has taken.
#[derive(Debug, Clone, Copy, PartialEq, Eq)]
pub struct DmabufBacking {
    pub size: Vector2<u32>,
    pub format: Fourcc,
    pub points: Points,
}

/// Whether two of the files that are known differ.
pub open spec fn files_differ(files: Seq<Option<FileId>>) -> bool {
    exists|i: int, j: int|
        0 <= i < j < files.len() && #[trigger] files[i] is Some && #[trigger] files[j] is Some
            && files[i] != files[j]
}

/// The descriptors of planes.
pub open spec fn plane_fds(planes: Seq<DisjointDmatexPlane>) -> Seq<Fd> {
    planes.map_values(|p: DisjointDmatexPlane| p.dmabuf_fd)
}

/// Planes without their descriptors.
pub open spec fn bare_planes(planes: Seq<DisjointDmatexPlane>) -> Seq<DmatexPlane> {
    planes.map_values(|p: DisjointDmatexPlane| p.plane)
}

/// The planes of a map in the order of their indices.
pub open spec fn in_order(
    planes: Map<u32, DisjointDmatexPlane>,
    list: Seq<DisjointDmatexPlane>,
) -> bool {
    exists|indices: Seq<u32>| #[trigger] ordered_by(planes, list, indices)
}

/// Whether a list holds the planes of a map, those with the smaller of `indices` first.
pub open spec fn ordered_by(
    planes: Map<u32, DisjointDmatexPlane>,
    list: Seq<DisjointDmatexPlane>,
    indices: Seq<u32>,
) -> bool {
    &&& indices.len() == list.len()
    &&& forall|i: int, j: int| 0 <= i < j < indices.len() ==> indices[i] < indices[j]
    &&& forall|index: u32| #[trigger] planes.contains_key(index) <==> indices.contains(index)
    &&& forall|i: int| 0 <= i < list.len() ==> list[i] == planes[#[trigger] indices[i]]
}

/// Planes have only one order.
pub proof fn planes_have_one_order(
    planes: Map<u32, DisjointDmatexPlane>,
    a: Seq<DisjointDmatexPlane>,
    b: Seq<DisjointDmatexPlane>,
)
    requires
        in_order(planes, a),
        in_order(planes, b),
    ensures
        a == b,
{
    let i = choose|i: Seq<u32>| #[trigger] ordered_by(planes, a, i);
    let j = choose|j: Seq<u32>| #[trigger] ordered_by(planes, b, j);
    assert forall|x: u32| #[trigger] i.contains(x) <==> j.contains(x) by {
        assert(planes.contains_key(x) <==> i.contains(x));
    }
    lemma_same_indices(i, j);
    assert forall|k: int| 0 <= k < a.len() implies a[k] == b[k] by {
        assert(a[k] == planes[i[k]]);
        assert(b[k] == planes[j[k]]);
    }
    assert(a =~= b);
}

proof fn lemma_same_indices(a: Seq<u32>, b: Seq<u32>)
    requires
        forall|i: int, j: int| 0 <= i < j < a.len() ==> a[i] < a[j],
        forall|i: int, j: int| 0 <= i < j < b.len() ==> b[i] < b[j],
        forall|x: u32| #[trigger] a.contains(x) <==> b.contains(x),
    ensures
        a == b,
    decreases a.len(),
{
    if a.len() == 0 {
        if b.len() > 0 {
            assert(a.contains(b[0]));
        }
        assert(a =~= b);
    } else {
        let last = a[a.len() - 1];
        assert(a.contains(last));
        let k = choose|k: int| 0 <= k < b.len() && b[k] == last;
        let other = b[b.len() - 1];
        assert(b.contains(other));
        let l = choose|l: int| 0 <= l < a.len() && a[l] == other;
        assert(a.contains(other));
        assert(last == other);
        let c = a.drop_last();
        let d = b.drop_last();
        assert forall|x: u32| #[trigger] c.contains(x) <==> d.contains(x) by {
            if c.contains(x) {
                let i = choose|i: int| 0 <= i < c.len() && c[i] == x;
                assert(a[i] == x);
                assert(a.contains(x));
                let j = choose|j: int| 0 <= j < b.len() && b[j] == x;
                assert(d[j] == x);
            }
            if d.contains(x) {
                let i = choose|i: int| 0 <= i < d.len() && d[i] == x;
                assert(b[i] == x);
                assert(b.contains(x));
                assert(a.contains(x));
                let j = choose|j: int| 0 <= j < a.len() && a[j] == x;
                assert(c[j] == x);
            }
        }
        lemma_same_indices(c, d);
        assert(a =~= c.push(last));
        assert(b =~= d.push(last));
    }
}

/// Whether two of the files that are known differ.
pub fn planes_disjoint(files: &Vec<Option<FileId>>) -> (r: bool)
    ensures
        r == files_differ(files@),
{
    let mut last: Option<FileId> = None;
    let ghost mut at: int = 0;
    let mut i: usize = 0;
    while i < files.len()
        invariant
            i <= files.len(),
            last is None ==> forall|k: int| 0 <= k < i ==> files@[k] is None,
            last is Some ==> 0 <= at < i && files@[at] == last,
            forall|k: int| 0 <= k < i && files@[k] is Some ==> files@[k] == last,
        decreases files.len() - i,
    {
        if let Some(file) = files[i] {
            if let Some(before) = last {
                if before != file {
                    proof {
                        assert(files@[at] is Some && files@[i as int] is Some);
                    }
                    return true;
                }
            }
            last = Some(file);
            proof {
                at = i as int;
            }
        }
        i += 1;
    }
    false
}

/// Puts planes in the order of their indices.
fn sort_planes(planes: Vec<(u32, DisjointDmatexPlane)>) -> (r: Vec<DisjointDmatexPlane>)
    requires
        forall|i: int, j: int| 0 <= i < j < planes@.len() ==> planes@[i].0 != planes@[j].0,
    ensures
        forall|all: Map<u32, DisjointDmatexPlane>|
            #![trigger in_order(all, r@)]
            holds(all, planes@) ==> in_order(all, r@),
{
    let ghost start = planes@;
    let mut rest: Vec<(u32, DisjointDmatexPlane)> = planes;
    let mut sorted: Vec<DisjointDmatexPlane> = Vec::new();
    let ghost mut indices: Seq<u32> = Seq::empty();
    while rest.len() > 0
        invariant
            indices.len() == sorted@.len(),
            forall|i: int, j: int| 0 <= i < j < indices.len() ==> indices[i] < indices[j],
            forall|i: int, j: int|
                0 <= i < indices.len() && 0 <= j < rest@.len() ==> indices[i] < (
                #[trigger] rest@[j]).0 && #[trigger] indices[i] == indices[i],
            forall|i: int, j: int| 0 <= i < j < rest@.len() ==> rest@[i].0 != rest@[j].0,
            forall|i: int|
                0 <= i < indices.len() ==> start.contains((#[trigger] indices[i], sorted@[i])),
            forall|j: int| 0 <= j < rest@.len() ==> start.contains(#[trigger] rest@[j]),
            forall|k: int|
                0 <= k < start.len() ==> rest@.contains(#[trigger] start[k]) || indices.contains(
                    start[k].0,
                ),
        decreases rest.len(),
    {
        let mut least: usize = 0;
        let mut i: usize = 1;
        while i < rest.len()
            invariant
                1 <= i <= rest.len(),
                least < i,
                forall|k: int| 0 <= k < i ==> rest@[least as int].0 <= (#[trigger] rest@[k]).0,
            decreases rest.len() - i,
        {
            if rest[i].0 < rest[least].0 {
                least = i;
            }
            i += 1;
        }
        let ghost before = rest@;
        let ghost old_indices = indices;
        let next: (u32, DisjointDmatexPlane) = rest.remove(least);
        sorted.push(next.1);
        proof {
            indices = indices.push(next.0);
            assert(next == before[least as int]);
            assert forall|j: int| 0 <= j < rest@.len() implies next.0 < (#[trigger] rest@[j]).0 by {
                let k = if j < least { j } else { j + 1 };
                assert(rest@[j] == before[k]);
                assert(before[least as int].0 != before[k].0);
            }
            assert forall|j: int| 0 <= j < rest@.len() implies start.contains(
                #[trigger] rest@[j],
            ) by {
                let k = if j < least { j } else { j + 1 };
                assert(rest@[j] == before[k]);
            }
            assert forall|i: int, j: int| 0 <= i < j < rest@.len() implies rest@[i].0
                != rest@[j].0 by {
                let k = if i < least { i } else { i + 1 };
                let l = if j < least { j } else { j + 1 };
                assert(before[k].0 != before[l].0);
            }
            assert forall|i: int, j: int| 0 <= i < indices.len() && 0 <= j < rest@.len() implies
                indices[i] < (#[trigger] rest@[j]).0 && #[trigger] indices[i] == indices[i] by {
                if i < old_indices.len() {
                    let k = if j < least { j } else { j + 1 };
                    assert(rest@[j] == before[k]);
                    assert(indices[i] == old_indices[i]);
                    assert(old_indices[i] < before[k].0);
                }
            }
            assert forall|k: int| 0 <= k < start.len() implies rest@.contains(#[trigger] start[k])
                || indices.contains(start[k].0) by {
                if before.contains(start[k]) {
                    let l = choose|l: int| 0 <= l < before.len() && before[l] == start[k];
                    if l == least {
                        assert(indices[indices.len() - 1] == start[k].0);
                    } else if l < least {
                        assert(rest@[l] == start[k]);
                    } else {
                        assert(rest@[l - 1] == start[k]);
                    }
                } else {
                    let l = choose|l: int|
                        0 <= l < old_indices.len() && old_indices[l] == start[k].0;
                    assert(old_indices.contains(start[k].0));
                    assert(indices[l] == start[k].0);
                }
            }
        }
    }
    proof {
        assert forall|all: Map<u32, DisjointDmatexPlane>|
            #![trigger in_order(all, sorted@)]
            holds(all, start) implies in_order(all, sorted@) by {
            assert forall|index: u32| #[trigger] all.contains_key(index) <==> indices.contains(
                index,
            ) by {
                if all.contains_key(index) {
                    let k = choose|k: int| 0 <= k < start.len() && start[k].0 == index;
                    assert(!rest@.contains(start[k]));
                }
                if indices.contains(index) {
                    let i = choose|i: int| 0 <= i < indices.len() && indices[i] == index;
                    assert(start.contains((indices[i], sorted@[i])));
                    let k = choose|k: int|
                        0 <= k < start.len() && start[k] == (indices[i], sorted@[i]);
                    assert(all.contains_pair(start[k].0, start[k].1));
                }
            }
            assert forall|i: int| 0 <= i < sorted@.len() implies sorted@[i]
                == all[#[trigger] indices[i]] by {
                assert(start.contains((indices[i], sorted@[i])));
                let k = choose|k: int|
                    0 <= k < start.len() && start[k] == (indices[i], sorted@[i]);
                assert(all.contains_pair(start[k].0, start[k].1));
            }
            assert(ordered_by(all, sorted@, indices));
        }
    }
    sorted
}

/// Whether a list holds every entry of a map, and nothing else.
spec fn holds(
    planes: Map<u32, DisjointDmatexPlane>,
    list: Seq<(u32, DisjointDmatexPlane)>,
) -> bool {
    &&& forall|i: int|
        0 <= i < list.len() ==> #[trigger] planes.contains_pair(list[i].0, list[i].1)
    &&& forall|index: u32| #[trigger]
        planes.contains_key(index) ==> exists|i: int| 0 <= i < list.len() && list[i].0 == index
}

impl DmabufBacking {
    /// A buffer and what the server is asked to take for it. `files` are the files of the
    /// planes, one for each as far as it is known.
    pub fn new(
        planes: Vec<DisjointDmatexPlane>,
        modifier: u64,
        size: Vector2<u32>,
        format: Fourcc,
        files: &Vec<Option<FileId>>,
    ) -> (r: (Self, DmatexImport))
        requires
            planes@.len() > 0,
            files@.len() == planes@.len(),
        ensures
            r.0 == (DmabufBacking { size, format, points: Points { next: 0 } }),
            r.1.size == size,
            r.1.drm_fourcc == format.code,
            r.1.drm_modifier == modifier,
            r.1.is_srgb,
            r.1.alpha_mode == AlphaMode::PremultipliedElectrical,
            r.1.array_layers == 1,
            match r.1.planes {
                DmatexPlanes::Disjoint { planes: all } => {
                    &&& files_differ(files@)
                    &&& all@ == planes@
                    &&& r.1.watched@ == plane_fds(planes@)
                },
                DmatexPlanes::Simple { dmabuf_fd, planes: all } => {
                    &&& !files_differ(files@)
                    &&& all@ == bare_planes(planes@)
                    &&& dmabuf_fd == planes@[0].dmabuf_fd
                    &&& r.1.watched@ == seq![dmabuf_fd]
                },
            },
    {
        let mut watched: Vec<Fd> = Vec::new();
        let planes = if planes_disjoint(files) {
            let mut i: usize = 0;
            while i < planes.len()
                invariant
                    i <= planes.len(),
                    watched@ == plane_fds(planes@.take(i as int)),
                decreases planes.len() - i,
            {
                watched.push(planes[i].dmabuf_fd);
                i += 1;
                assert(watched@ =~= plane_fds(planes@.take(i as int)));
            }
            assert(planes@.take(planes@.len() as int) =~= planes@);
            DmatexPlanes::Disjoint { planes }
        } else {
            let dmabuf_fd: Fd = planes[0].dmabuf_fd;
            watched.push(dmabuf_fd);
            let mut bare: Vec<DmatexPlane> = Vec::new();
            let mut i: usize = 0;
            while i < planes.len()
                invariant
                    i <= planes.len(),
                    bare@ == bare_planes(planes@.take(i as int)),
                decreases planes.len() - i,
            {
                bare.push(planes[i].plane);
                i += 1;
                assert(bare@ =~= bare_planes(planes@.take(i as int)));
            }
            assert(planes@.take(planes@.len() as int) =~= planes@);
            DmatexPlanes::Simple { dmabuf_fd, planes: bare }
        };
        (
            DmabufBacking { size, format, points: Points::new() },
            DmatexImport {
                size,
                drm_fourcc: format.code,
                drm_modifier: modifier,
                is_srgb: true,
                alpha_mode: AlphaMode::PremultipliedElectrical,
                array_layers: 1,
                planes,
                watched,
            },
        )
    }

    /// Takes the planes that were added and puts them in order. Where there are none, or where
    /// some were taken before, nothing can be made from them.
    pub fn from_params(params: &mut BufferParams, size: Vector2<u32>, format: Fourcc) -> (r: Result<
        BufferPlan,
        DmatexImportError,
    >)
        ensures
            final(params)@ == old(params)@.taken(),
            match r {
                Ok(plan) => {
                    &&& old(params)@.refusal() is None
                    &&& in_order(old(params)@.planes, plan.planes@)
                    &&& plan.planes@.len() > 0
                    &&& Some(plan.modifier) == old(params)@.modifier
                    &&& plan.size == size
                    &&& plan.format == format
                },
                Err(e) => old(params)@.refusal() == Some(e),
            },
    {
        let ghost all = params.planes@;
        let mut taken: FxHashMap<u32, DisjointDmatexPlane> = planes_new();
        std::mem::swap(&mut taken, &mut params.planes);
        let entries: Vec<(u32, DisjointDmatexPlane)> = planes_list(taken);
        assert(holds(all, entries@));
        if params.stage != ParamsStage::Collecting {
            return Err(DmatexImportError::AlreadyUsed);
        }
        if entries.is_empty() {
            assert(all =~= Map::empty());
            return Err(DmatexImportError::NoModifier);
        }
        assert(all.contains_pair(entries@[0].0, entries@[0].1));
        let planes: Vec<DisjointDmatexPlane> = sort_planes(entries);
        proof {
            assert(in_order(all, planes@));
            let indices = choose|indices: Seq<u32>| #[trigger] ordered_by(all, planes@, indices);
            assert(indices.contains(entries@[0].0));
        }
        match params.modifier {
            Some(modifier) => {
                params.stage = ParamsStage::Planned;
                Ok(BufferPlan { planes, modifier, size, format })
            },
            None => Err(DmatexImportError::NoModifier),
        }
    }

    /// Takes the points of a new submission.
    pub fn update(&mut self) -> (points: (u64, u64))
        ensures
            points.0 == old(self).points.next,
            points.1 == point_after(old(self).points.next, 1),
            *final(self) == (DmabufBacking {
                points: Points { next: point_after(old(self).points.next, 2) },
                ..*old(self)
            }),
    {
        self.points.submission()
    }

    /// A point for a release of the buffer that is not part of a new submission.
    pub fn new_timeline_point(&mut self) -> (point: u64)
        ensures
            point == old(self).points.next,
            *final(self) == (DmabufBacking {
                points: Points { next: point_after(old(self).points.next, 1) },
                ..*old(self)
            }),
    {
        self.points.take()
    }

    /// Whether pixels may let what is behind them through.
    pub fn is_transparent(&self) -> (r: bool)
        ensures
            r == has_alpha(self.format.code),
    {
        self.format.has_alpha()
    }

    pub fn size(&self) -> (size: Vector2<usize>)
        ensures
            size == (Vector2 { x: self.size.x as usize, y: self.size.y as usize }),
    {
        Vector2 { x: self.size.x as usize, y: self.size.y as usize }
    }
}

} // verus!
