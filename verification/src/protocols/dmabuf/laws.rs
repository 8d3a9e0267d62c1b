//! What becomes of planes, formats and modifiers, from what clients ask for to what the server
//! is asked to take.
use crate::client::{ClientView, Interface};
use crate::error::WaylandError;
use crate::event::{Event, EventView};
use crate::protocols::dmabuf::buffer_backing::{
    bare_planes, files_differ, in_order, ordered_by, plane_fds, DmatexImportError, FileId,
};
use crate::protocols::dmabuf::buffer_params::{
    flat_plane, joined, DisjointDmatexPlane, ParamsCall, ParamsStage, ParamsView,
};
use crate::protocols::dmabuf::fourcc::{fourcc_known, has_alpha};
use crate::protocols::dmabuf::{
    all_pairs, all_with_modifiers, format_events, with_modifiers, Dmabuf, FormatInfo,
};
use crate::presentation::halves;
use crate::types::{Fd, ObjectId};
use vstd::prelude::*;

verus! {

/// A plane that a client adds.
pub ghost struct NewPlane {
    pub fd: Fd,
    pub index: u32,
    pub offset: u32,
    pub stride: u32,
}

/// Parameters once planes with one modifier were added to them one after the other.
pub open spec fn with_planes(params: ParamsView, planes: Seq<NewPlane>, modifier: u64) -> ParamsView
    decreases planes.len(),
{
    if planes.len() == 0 {
        params
    } else {
        let p = planes.last();
        with_planes(params, planes.drop_last(), modifier).added(
            p.fd,
            p.index,
            p.offset,
            p.stride,
            modifier,
        ).0
    }
}

/// Whether no two planes have the same index.
pub open spec fn have_own_indices(planes: Seq<NewPlane>) -> bool {
    forall|i: int, j: int|
        0 <= i < j < planes.len() ==> (#[trigger] planes[i]).index != (#[trigger] planes[j]).index
}

/// Whether the plane under an index is the one that was added.
pub open spec fn is_plane(planes: Map<u32, DisjointDmatexPlane>, plane: NewPlane) -> bool {
    &&& planes.contains_key(plane.index)
    &&& planes[plane.index].dmabuf_fd == plane.fd
    &&& planes[plane.index].plane.offset == plane.offset
    &&& planes[plane.index].plane.row_size == plane.stride
    &&& planes[plane.index].plane.array_element_size == 0
    &&& planes[plane.index].plane.depth_slice_size == 0
}

/// Planes that are added to new parameters with one modifier, whichever it is, and each under
/// an index of its own are all taken, and where there is one at least, a buffer can be made of
/// them: of all of them, with that modifier.
pub proof fn added_planes_are_planned(id: ObjectId, planes: Seq<NewPlane>, modifier: u64)
    requires
        have_own_indices(planes),
    ensures
        ({
            let params = with_planes(ParamsView::new(id), planes, modifier);
            &&& params.id == id
            &&& params.stage == ParamsStage::Collecting
            &&& forall|i: int| 0 <= i < planes.len() ==> is_plane(params.planes, #[trigger] planes[i])
            &&& forall|index: u32| #[trigger]
                params.planes.contains_key(index) ==> exists|i: int|
                    0 <= i < planes.len() && (#[trigger] planes[i]).index == index
            &&& planes.len() > 0 ==> params.modifier == Some(modifier)
            &&& planes.len() > 0 <==> params.refusal() is None
            &&& planes.len() == 0 ==> params.refusal() == Some(DmatexImportError::NoModifier)
        }),
    decreases planes.len(),
{
    let params = with_planes(ParamsView::new(id), planes, modifier);
    if planes.len() > 0 {
        let rest = planes.drop_last();
        let last = planes.last();
        let before = with_planes(ParamsView::new(id), rest, modifier);
        assert(have_own_indices(rest));
        added_planes_are_planned(id, rest, modifier);
        if before.planes.contains_key(last.index) {
            let i = choose|i: int|
                0 <= i < rest.len() && (#[trigger] rest[i]).index == last.index;
            assert(planes[i].index == planes[planes.len() - 1].index);
        }
        if rest.len() == 0 {
            assert(before == ParamsView::new(id));
        }
        assert forall|i: int| 0 <= i < planes.len() implies is_plane(
            params.planes,
            #[trigger] planes[i],
        ) by {
            if i < rest.len() {
                assert(is_plane(before.planes, rest[i]));
                assert(planes[i].index != planes[planes.len() - 1].index);
            }
        }
        assert forall|index: u32| #[trigger] params.planes.contains_key(index) implies exists|i: int|
            0 <= i < planes.len() && (#[trigger] planes[i]).index == index by {
            if index == last.index {
                assert(planes[planes.len() - 1].index == index);
            } else {
                assert(before.planes.contains_key(index));
                let i = choose|i: int| 0 <= i < rest.len() && (#[trigger] rest[i]).index == index;
                assert(planes[i].index == index);
            }
        }
        assert(params.planes.contains_key(last.index));
    } else {
        assert(params == ParamsView::new(id));
    }
}

/// Whatever was asked of new parameters, a buffer can be made of their planes exactly where there
/// are planes and none were handed over before; and the planes have a modifier then.
pub proof fn planes_are_refused_for_a_reason(id: ObjectId, calls: Seq<ParamsCall>)
    ensures
        ({
            let params = ParamsView::new(id).all_called(calls);
            let some = exists|index: u32| #[trigger] params.planes.contains_key(index);
            &&& params.id == id
            &&& some ==> params.modifier is Some
            &&& params.refusal() is None <==> some && params.stage == ParamsStage::Collecting
            &&& params.stage != ParamsStage::Collecting ==> params.refusal() == Some(
                DmatexImportError::AlreadyUsed,
            )
            &&& params.stage == ParamsStage::Collecting && !some ==> params.refusal() == Some(
                DmatexImportError::NoModifier,
            )
        }),
    decreases calls.len(),
{
    let params = ParamsView::new(id).all_called(calls);
    if calls.len() > 0 {
        let before = ParamsView::new(id).all_called(calls.drop_last());
        planes_are_refused_for_a_reason(id, calls.drop_last());
        if exists|index: u32| #[trigger] params.planes.contains_key(index) {
            let index = choose|index: u32| #[trigger] params.planes.contains_key(index);
            if let ParamsCall::Add { plane_idx, .. } = calls.last() {
                if !before.planes.contains_key(index) {
                    assert(params.modifier is Some);
                }
            } else {
                assert(before.planes.contains_key(index));
            }
        }
    }
    if !(exists|index: u32| #[trigger] params.planes.contains_key(index)) {
        assert(params.planes =~= Map::empty());
    }
}

/// A plane is refused where its index is taken, or where its modifier is not that of the planes
/// before; then nothing changes. Any other one is added beside those that are there.
pub proof fn planes_are_added_beside_others(
    params: ParamsView,
    fd: Fd,
    index: u32,
    offset: u32,
    stride: u32,
    modifier: u64,
    other: u32,
)
    ensures
        ({
            let (after, answer) = params.added(fd, index, offset, stride, modifier);
            let taken = params.planes.contains_key(index);
            let differs = params.modifier is Some && params.modifier->0 != modifier;
            &&& answer is Ok <==> !taken && !differs
            &&& answer is Err ==> after == params
            &&& taken ==> answer == Err::<(), _>(WaylandError::MissingObject(params.id))
            &&& !taken && differs ==> answer == Err::<(), _>(
                WaylandError::Fatal {
                    object_id: params.id,
                    code: 4,
                    message: "used multiple differing modifiers for one buffer",
                },
            )
            &&& answer is Ok ==> {
                &&& after.modifier == Some(modifier)
                &&& after.id == params.id
                &&& after.stage == params.stage
                &&& is_plane(after.planes, NewPlane { fd, index, offset, stride })
                &&& other != index ==> (after.planes.contains_key(other)
                    <==> params.planes.contains_key(other))
                &&& other != index && params.planes.contains_key(other) ==> after.planes[other]
                    == params.planes[other]
            }
        }),
{
}

/// Planes that are taken are gone, whether or not a buffer can be made of them; where one can,
/// the client waits for the answer from then on.
pub proof fn taken_planes_are_gone(params: ParamsView, index: u32)
    ensures
        !params.taken().planes.contains_key(index),
        params.taken().id == params.id,
        params.taken().modifier == params.modifier,
        params.refusal() is None ==> params.taken().stage == ParamsStage::Planned,
        params.refusal() is Some ==> params.taken().stage == params.stage,
        params.answered().stage == ParamsStage::Answered,
        params.answered().planes == params.planes,
        params.answered().id == params.id,
        params.answered().modifier == params.modifier,
{
}

/// The planes of a buffer are in the order of their indices, whatever the order in which they
/// were added: between any two indices, the plane of the smaller one comes first.
pub proof fn planes_go_by_their_indices(
    planes: Map<u32, DisjointDmatexPlane>,
    list: Seq<DisjointDmatexPlane>,
)
    requires
        in_order(planes, list),
    ensures
        exists|indices: Seq<u32>|
            {
                &&& #[trigger] indices.len() == list.len()
                &&& forall|i: int, j: int| 0 <= i < j < indices.len() ==> indices[i] < indices[j]
                &&& forall|i: int|
                    0 <= i < list.len() ==> planes.contains_key(#[trigger] indices[i]) && list[i]
                        == planes[indices[i]]
                &&& forall|index: u32| #[trigger]
                    planes.contains_key(index) ==> exists|i: int|
                        0 <= i < indices.len() && indices[i] == index
            },
{
    let indices = choose|indices: Seq<u32>| #[trigger] ordered_by(planes, list, indices);
    assert(indices.len() == list.len());
    assert forall|i: int| 0 <= i < list.len() implies planes.contains_key(#[trigger] indices[i])
        && list[i] == planes[indices[i]] by {
        assert(indices.contains(indices[i]));
    }
}

/// A plane lies in its dmabuf at the offset and with the stride that the client gave, and has no
/// layers.
pub proof fn planes_lie_where_they_were_put(fd: Fd, offset: u32, stride: u32)
    ensures
        ({
            let p = flat_plane(fd, offset, stride);
            &&& p.dmabuf_fd == fd
            &&& p.plane.offset == offset
            &&& p.plane.row_size == stride
            &&& p.plane.array_element_size == 0
            &&& p.plane.depth_slice_size == 0
        }),
{
}

/// The first half of a number on the wire is the upper one.
pub proof fn upper_halves_come_first(hi: u32, lo: u32, value: u64)
    ensures
        joined(hi, lo) as int == hi as int * 0x1_0000_0000 + lo as int,
        halves(value).0 as int == value as int / 0x1_0000_0000,
        halves(value).1 as int == value as int - halves(value).0 as int * 0x1_0000_0000,
        halves(joined(hi, lo)) == (hi, lo),
{
}

/// Planes are spread over dmabufs exactly where two of the files that are known are different
/// files; descriptors whose files are not known count for nothing.
pub proof fn files_tell_dmabufs_apart(files: Seq<Option<FileId>>, i: int, j: int)
    requires
        0 <= i < files.len(),
        0 <= j < files.len(),
    ensures
        files[i] is Some && files[j] is Some && (files[i]->0.dev != files[j]->0.dev
            || files[i]->0.ino != files[j]->0.ino) ==> files_differ(files),
        (forall|a: int, b: int|
            0 <= a < files.len() && 0 <= b < files.len() && #[trigger] files[a] is Some
                && #[trigger] files[b] is Some ==> files[a]->0.dev == files[b]->0.dev
                && files[a]->0.ino == files[b]->0.ino) ==> !files_differ(files),
{
    if files[i] is Some && files[j] is Some && files[i] != files[j] {
        if i < j {
            assert(files_differ(files));
        } else {
            assert(files[j] is Some && files[i] is Some);
            assert(files_differ(files));
        }
    }
}

/// The descriptors and the layouts of planes are those of the planes, one by one.
pub proof fn planes_keep_their_parts(planes: Seq<DisjointDmatexPlane>, i: int)
    requires
        0 <= i < planes.len(),
    ensures
        plane_fds(planes).len() == planes.len(),
        plane_fds(planes)[i] == planes[i].dmabuf_fd,
        bare_planes(planes).len() == planes.len(),
        bare_planes(planes)[i] == planes[i].plane,
{
}

/// The pixel formats that have alpha, by their codes.
pub open spec fn codes_with_alpha() -> Seq<u32> {
    seq![
        0x35314241u32,
        0x48344241u32,
        0x30334241u32,
        0x32314241u32,
        0x34324241u32,
        0x35315241u32,
        0x48345241u32,
        0x30335241u32,
        0x32315241u32,
        0x34325241u32,
        0x30314241u32,
        0x56555941u32,
        0x30334152u32,
        0x32314152u32,
        0x35314152u32,
        0x34324152u32,
    ]
}

/// Exactly these formats let what is behind them through.
pub proof fn some_formats_have_alpha(code: u32)
    ensures
        has_alpha(code) <==> codes_with_alpha().contains(code),
{
    let all = codes_with_alpha();
    assert(all.len() == 16);
    if has_alpha(code) {
        assert(all[0] == code || all[1] == code || all[2] == code || all[3] == code || all[4]
            == code || all[5] == code || all[6] == code || all[7] == code || all[8] == code
            || all[9] == code || all[10] == code || all[11] == code || all[12] == code || all[13]
            == code || all[14] == code || all[15] == code);
    }
}

/// What a client is told of a format of the server: every pixel format of it with every modifier
/// of it, once each and in order, where its name has the letters `SRGB` somewhere; and nothing
/// where it has not.
pub proof fn formats_are_told_with_every_modifier(info: FormatInfo, f: int, m: int)
    ensures
        ({
            let named = exists|i: int|
                0 <= i <= info.name@.len() - 4 && #[trigger] info.name@.subrange(i, i + 4) == "SRGB"@;
            let n = info.modifiers@.len();
            &&& !named ==> info.pairs().len() == 0
            &&& named ==> info.pairs().len() == info.fourccs@.len() * n
            &&& named && 0 <= f < info.fourccs@.len() && 0 <= m < n ==> 0 <= f * n + m
                < info.pairs().len() && info.pairs()[f * n + m] == (
                info.fourccs@[f],
                info.modifiers@[m],
            )
        }),
{
    reveal_strlit("SRGB");
    let named = exists|i: int|
        0 <= i <= info.name@.len() - 4 && #[trigger] info.name@.subrange(i, i + 4) == "SRGB"@;
    if named {
        let i = choose|i: int|
            0 <= i <= info.name@.len() - 4 && #[trigger] info.name@.subrange(i, i + 4) == "SRGB"@;
        assert(crate::text::part_at("SRGB"@, info.name@, i));
    }
    if info.is_srgb() {
        let i = choose|i: int| #[trigger] crate::text::part_at("SRGB"@, info.name@, i);
        assert(info.name@.subrange(i, i + 4) == "SRGB"@);
    }
    lemma_all_with_modifiers(info.fourccs@, info.modifiers@, f, m);
}

proof fn lemma_all_with_modifiers(fourccs: Seq<u32>, modifiers: Seq<u64>, f: int, m: int)
    ensures
        all_with_modifiers(fourccs, modifiers).len() == fourccs.len() * modifiers.len(),
        0 <= f < fourccs.len() && 0 <= m < modifiers.len() ==> 0 <= f * modifiers.len() + m
            < fourccs.len() * modifiers.len() && all_with_modifiers(fourccs, modifiers)[f
            * modifiers.len() + m] == (fourccs[f], modifiers[m]),
    decreases fourccs.len(),
{
    let n = modifiers.len() as int;
    if fourccs.len() > 0 {
        let rest = fourccs.drop_last();
        let k = rest.len() as int;
        lemma_all_with_modifiers(rest, modifiers, f, m);
        assert((k + 1) * n == k * n + n) by (nonlinear_arith);
        if 0 <= f < fourccs.len() && 0 <= m < n {
            if f == k {
                assert(with_modifiers(fourccs.last(), modifiers)[m] == (fourccs[f], modifiers[m]));
            }
        }
    } else {
        assert(0 * n == 0);
    }
}

/// What clients are told of formats is told of each in turn.
pub proof fn formats_are_told_in_turn(infos: Seq<FormatInfo>, info: FormatInfo)
    ensures
        all_pairs(Seq::empty()).len() == 0,
        all_pairs(infos.push(info)) == all_pairs(infos) + info.pairs(),
{
    assert(infos.push(info).drop_last() =~= infos);
}

/// How formats are told depends on the version: without modifiers before the third, with them in
/// the third, and not at all from the fourth on. Each is told once, in order.
pub proof fn versions_tell_of_formats(
    dmabuf: ObjectId,
    version: u32,
    formats: Seq<(u32, u64)>,
    i: int,
)
    ensures
        ({
            let events = format_events(dmabuf, version, formats);
            &&& events.len() == if version >= 4 {
                0
            } else {
                formats.len()
            }
            &&& version < 3 && 0 <= i < formats.len() ==> events[i] == EventView::Plain(
                Event::DmabufFormat { dmabuf, format: formats[i].0 },
            )
            &&& version == 3 && 0 <= i < formats.len() ==> (events[i] matches EventView::Plain(
                Event::DmabufModifier { dmabuf: d, format, modifier_hi, modifier_lo },
            ) && d == dmabuf && format == formats[i].0 && modifier_hi * 0x1_0000_0000 + modifier_lo
                == formats[i].1)
        }),
{
}

/// A client gets an object that tells of the best formats exactly where its version has one, that
/// is from the fourth on, and the id is free; nothing is sent either way.
pub proof fn feedback_needs_the_fourth_version(dmabuf: Dmabuf, client: ClientView, id: ObjectId)
    ensures
        ({
            let (after, answer) = dmabuf.feedback_requested(client, id);
            &&& answer is Ok <==> dmabuf.version >= 4 && !client.objects.contains_key(id.raw)
            &&& answer is Err ==> after == client
            &&& dmabuf.version < 4 ==> answer == Err::<(), _>(
                WaylandError::Fatal {
                    object_id: id,
                    code: 71,
                    message: "Can't call get_default_feedback on version < 4 of dmabuf",
                },
            )
            &&& dmabuf.version >= 4 && answer is Err ==> answer == Err::<(), _>(
                WaylandError::FailedToInsertObject,
            )
            &&& answer is Ok ==> {
                &&& after.objects == client.objects.insert(id.raw, Interface::DmabufFeedback)
                &&& after.serial == client.serial
                &&& after.sent == client.sent
            }
        }),
{
}

/// Planes of a known format become a buffer with the first answer that says that the server took
/// them; a format that is not known leaves them where they are.
pub proof fn planned_planes_become_a_buffer(params: ParamsView, format: u32)
    requires
        params.refusal() is None,
    ensures
        ({
            let planned = params.called(ParamsCall::Plan { format });
            let taken = ParamsCall::Answer { imported: true, free: true };
            &&& fourcc_known(format) ==> planned.makes_buffer(taken)
            &&& !fourcc_known(format) ==> planned == params && !planned.makes_buffer(taken)
            &&& !planned.makes_buffer(ParamsCall::Answer { imported: false, free: true })
            &&& !planned.called(taken).makes_buffer(taken)
        }),
{
}

} // verus!
