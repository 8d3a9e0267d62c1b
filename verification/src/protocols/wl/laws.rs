//! What holds of buffers, their points and formats, and of what clients are told of frames and
//! of the display.
use crate::event::{Event, EventView};
use crate::message::{Message, SourceRef};
use crate::presentation::MonotonicTimestamp;
use crate::protocols::dmabuf::buffer_backing::DmabufBacking;
use crate::protocols::wl::buffer::BufferBacking;
use crate::protocols::wl::data_device::{
    is_selection, offer_events, tells_selection, ClipboardSelection,
};
use crate::protocols::wl::output::Output;
use crate::protocols::wl::shm_buffer_backing::{
    batch_size, texture_for, upload_copies, upload_signals, DmatexUpload, ShmBufferBacking,
};
use crate::protocols::wl::surface::{all_presented_events, presented_events};
use crate::protocols::wl::timeline::{point_after, Points};
use crate::types::ObjectId;
use vstd::prelude::*;

verus! {

/// Points are counted up by one and begin again at zero.
pub proof fn points_count_up(point: u64)
    ensures
        point_after(point, 0) == point,
        point < u64::MAX ==> point_after(point, 1) == point + 1,
        point < u64::MAX - 1 ==> point_after(point, 2) == point + 2,
        point_after(u64::MAX, 1) == 0,
        point_after(point_after(point, 1), 1) == point_after(point, 2),
{
}

/// The next point of a buffer is the one that it was given, and nothing else of the buffer
/// depends on it.
pub proof fn points_leave_the_buffer_alone(
    shm: ShmBufferBacking,
    dmabuf: DmabufBacking,
    next: u64,
)
    ensures
        BufferBacking::Shm(shm).next_point() == shm.points.next,
        BufferBacking::Dmabuf(dmabuf).next_point() == dmabuf.points.next,
        BufferBacking::Shm(shm).with_next_point(next) == BufferBacking::Shm(
            ShmBufferBacking { points: Points { next }, ..shm },
        ),
        BufferBacking::Dmabuf(dmabuf).with_next_point(next) == BufferBacking::Dmabuf(
            DmabufBacking { points: Points { next }, ..dmabuf },
        ),
        BufferBacking::Shm(shm).with_next_point(next).next_point() == next,
        BufferBacking::Dmabuf(dmabuf).with_next_point(next).next_point() == next,
{
}

/// Of the formats of shared memory, the first two can be shown, and both as the same texture.
pub proof fn two_formats_can_be_shown(wl_format: u32)
    ensures
        texture_for(wl_format) is Some <==> wl_format <= 1,
        wl_format <= 1 ==> texture_for(wl_format) == Some(50u32),
{
}

/// A pixel has four bytes, lines follow each other at the stride of the buffer, and a buffer lies
/// in the memory exactly where no pixel of it lies beyond the end.
pub proof fn pixels_lie_in_the_memory(backing: ShmBufferBacking, len: nat, y: int)
    ensures
        backing.line() == 4 * backing.size.x,
        backing.line_start(y) == backing.offset + y * backing.stride,
        backing.lies_in(len) && 0 <= y < backing.size.y ==> backing.offset + y * backing.stride + 4
            * backing.size.x <= len,
        (forall|i: int|
            0 <= i < backing.size.y ==> backing.offset + #[trigger] (i * backing.stride) + 4
                * backing.size.x <= len) ==> backing.lies_in(len),
{
    if backing.lies_in(len) && 0 <= y < backing.size.y {
        assert(backing.line_start(y) + backing.line() <= len);
    }
    if forall|i: int|
        0 <= i < backing.size.y ==> backing.offset + #[trigger] (i * backing.stride) + 4
            * backing.size.x <= len {
        assert forall|i: int| 0 <= i < backing.size.y implies #[trigger] backing.line_start(i)
            + backing.line() <= len by {
            assert(backing.offset + (i * backing.stride) + 4 * backing.size.x <= len);
        }
    }
}

/// The packed pixels are as many bytes as the pixels need, and each byte is that of the client's
/// memory.
pub proof fn pixels_are_copied(backing: ShmBufferBacking, data: Seq<u8>, y: int, x: int, b: int)
    requires
        0 <= y < backing.size.y,
        0 <= x < backing.size.x,
        0 <= b < 4,
    ensures
        backing.packed(data).len() == backing.size.y * (4 * backing.size.x),
        backing.packed(data)[y * (4 * backing.size.x) + 4 * x + b] == data[backing.offset + y
            * backing.stride + 4 * x + b],
{
    crate::protocols::wl::shm_buffer_backing::lines_are_packed(backing, data, y, 4 * x + b);
    assert(0 <= backing.size.y * (4 * backing.size.x)) by (nonlinear_arith)
        requires
            backing.size.y >= 0,
            backing.size.x >= 0,
    ;
}

/// Uploads go out sixteen at a time, or all where there are fewer.
pub proof fn sixteen_uploads_at_once(waiting: nat)
    ensures
        waiting <= 16 ==> batch_size(waiting) == waiting,
        waiting > 16 ==> batch_size(waiting) == 16,
{
}

/// Each upload is copied from its memory to its image, and leads to its point of the image's
/// timeline.
pub proof fn uploads_reach_their_image(uploads: Seq<DmatexUpload>, i: int)
    requires
        0 <= i < uploads.len(),
    ensures
        upload_copies(uploads).len() == uploads.len(),
        upload_copies(uploads)[i] == (uploads[i].staging, uploads[i].image),
        upload_signals(uploads).len() == uploads.len(),
        upload_signals(uploads)[i] == (uploads[i].image, uploads[i].acquire),
{
}

/// An object that waits for a frame is told on which output it was shown, where the client has
/// one, and then when: the seconds and the count of frames as whole numbers in two halves.
pub proof fn frames_are_told_as_shown(
    feedback: ObjectId,
    output: ObjectId,
    time: MonotonicTimestamp,
    cycle: u64,
)
    ensures
        ({
            let with = presented_events(feedback, Some(output), time, cycle);
            let without = presented_events(feedback, None, time, cycle);
            &&& with.len() == 2
            &&& without.len() == 1
            &&& with[1] == without[0]
            &&& with[0] == EventView::Plain(Event::FeedbackSyncOutput { feedback, output })
            &&& without[0] matches EventView::Plain(
                Event::FeedbackPresented {
                    feedback: f,
                    tv_sec_hi,
                    tv_sec_lo,
                    tv_nsec,
                    refresh,
                    seq_hi,
                    seq_lo,
                    flags,
                },
            ) && f == feedback && tv_sec_hi * 0x1_0000_0000 + tv_sec_lo == time.secs && tv_nsec
                == time.subsec_nanos && refresh == 0 && seq_hi * 0x1_0000_0000 + seq_lo == cycle
                && flags == 0
        }),
{
}

/// Objects that wait for a frame are told of it one after the other, oldest first.
pub proof fn feedback_goes_in_turn(
    feedbacks: Seq<ObjectId>,
    last: ObjectId,
    output: Option<ObjectId>,
    time: MonotonicTimestamp,
    cycle: u64,
)
    ensures
        all_presented_events(Seq::empty(), output, time, cycle).len() == 0,
        all_presented_events(feedbacks.push(last), output, time, cycle) == all_presented_events(
            feedbacks,
            output,
            time,
            cycle,
        ) + presented_events(last, output, time, cycle),
{
    assert(feedbacks.push(last).drop_last() =~= feedbacks);
}

/// Clients are told of a display of 2048 by 2048 pixels, which is shown 2048 times a second; of
/// its name from the fourth version on, and that it was all from the second on.
pub proof fn displays_are_told_by_version(output: Output)
    ensures
        ({
            let all = output.advertisement();
            let id = output.id;
            let name = "Stardust Virtual Display";
            let n: int = if output.version >= 4 {
                2
            } else {
                0
            };
            &&& all.len() == 2 + n + if output.version >= 2 {
                1int
            } else {
                0int
            }
            &&& all[0] == EventView::Plain(
                Event::OutputGeometry {
                    output: id,
                    x: 2048,
                    y: 2048,
                    physical_width: 0,
                    physical_height: 0,
                    make: name,
                    model: name,
                },
            )
            &&& n == 2 ==> all[1] == EventView::Plain(Event::OutputName { output: id, name })
            &&& n == 2 ==> all[2] == EventView::Plain(
                Event::OutputDescription {
                    output: id,
                    description: "I needed this to account for dumb clients",
                },
            )
            &&& all[1 + n] == EventView::Plain(
                Event::OutputMode {
                    output: id,
                    flags: 3,
                    width: 2048,
                    height: 2048,
                    refresh_mhz: 2_048_000,
                },
            )
            &&& output.version >= 2 ==> all[2 + n] == EventView::Plain(
                Event::OutputDone { output: id },
            )
        }),
{
}

/// A selection is of a source with types exactly where it has that source and those types, and so
/// is a message that tells of one.
pub proof fn selections_have_a_source(
    selection: ClipboardSelection,
    message: Message,
    source: SourceRef,
    types: Seq<String>,
)
    ensures
        is_selection(Some(selection), source, types) <==> selection.source == source
            && selection.mime_types@ == types,
        !is_selection(None, source, types),
        tells_selection(message, source, types) ==> (message matches Message::ClipboardSelection {
            source: s,
            mime_types,
        } && s == source && mime_types@ == types),
{
}

/// An offer is made, its types are named one by one and in order, and then it is the selection.
pub proof fn offers_name_their_types(device: ObjectId, offer: ObjectId, types: Seq<String>, i: int)
    ensures
        ({
            let all = offer_events(device, offer, types);
            &&& all.len() == types.len() + 2
            &&& all[0] == EventView::Plain(Event::DataDeviceDataOffer { device, offer })
            &&& 0 <= i < types.len() ==> all[1 + i] == (EventView::DataOfferOffer {
                offer,
                mime_type: types[i]@,
            })
            &&& all[types.len() as int + 1] == EventView::Plain(
                Event::DataDeviceSelection { device, offer: Some(offer) },
            )
        }),
{
}

} // verus!
