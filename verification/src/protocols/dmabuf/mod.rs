//! `zwp_linux_dmabuf_v1`: buffers in memory of the graphics device.
pub mod buffer_backing;
pub mod buffer_params;
pub mod fourcc;
pub mod laws;

use crate::client::{Client, ClientView, Interface};
use crate::error::{WaylandError, WaylandResult};
use crate::event::{Event, EventView};
use crate::presentation::{halves, split};
use crate::text::{contains, is_part};
use crate::types::ObjectId;
use vstd::prelude::*;

verus! {

/// The version from which formats come with their modifiers, one event for each pair.
pub const MODIFIER_SINCE: u32 = 3;

/// The version from which a feedback object tells of the formats instead.
pub const FEEDBACK_SINCE: u32 = 4;

/// The code of the error that answers a request which the version does not have.
pub const UNSUPPORTED_REQUEST: u32 = 71;

/// A texture format that the server can take: its name, the pixel formats that it stands for,
/// and the modifiers with which it can be read.
#[derive(Debug, PartialEq, Eq)]
pub struct FormatInfo {
    pub name: String,
    pub fourccs: Vec<u32>,
    pub modifiers: Vec<u64>,
}

/// The main object of the protocol, and what clients are told of formats.
#[derive(Debug, PartialEq, Eq)]
pub struct Dmabuf {
    pub version: u32,
    pub formats: Vec<(u32, u64)>,
}

/// A pixel format with each of some modifiers.
pub open spec fn with_modifiers(fourcc: u32, modifiers: Seq<u64>) -> Seq<(u32, u64)> {
    modifiers.map_values(|modifier: u64| (fourcc, modifier))
}

/// Each of some pixel formats with each of some modifiers.
pub open spec fn all_with_modifiers(fourccs: Seq<u32>, modifiers: Seq<u64>) -> Seq<(u32, u64)>
    decreases fourccs.len(),
{
    if fourccs.len() == 0 {
        Seq::empty()
    } else {
        all_with_modifiers(fourccs.drop_last(), modifiers) + with_modifiers(
            fourccs.last(),
            modifiers,
        )
    }
}

impl FormatInfo {
    /// Whether the colours of the format are encoded the way clients expect.
    pub open spec fn is_srgb(self) -> bool {
        is_part("SRGB"@, self.name@)
    }

    /// What clients are told of the format.
    pub open spec fn pairs(self) -> Seq<(u32, u64)> {
        if self.is_srgb() {
            all_with_modifiers(self.fourccs@, self.modifiers@)
        } else {
            Seq::empty()
        }
    }
}

/// What clients are told of a list of formats.
pub open spec fn all_pairs(infos: Seq<FormatInfo>) -> Seq<(u32, u64)>
    decreases infos.len(),
{
    if infos.len() == 0 {
        Seq::empty()
    } else {
        all_pairs(infos.drop_last()) + infos.last().pairs()
    }
}

/// The events that tell a client of the formats. From the version on that has a feedback
/// object, there are none.
pub open spec fn format_events(
    dmabuf: ObjectId,
    version: u32,
    formats: Seq<(u32, u64)>,
) -> Seq<EventView> {
    if version < MODIFIER_SINCE {
        formats.map_values(
            |f: (u32, u64)| EventView::Plain(Event::DmabufFormat { dmabuf, format: f.0 }),
        )
    } else if version == MODIFIER_SINCE {
        formats.map_values(
            |f: (u32, u64)|
                EventView::Plain(
                    Event::DmabufModifier {
                        dmabuf,
                        format: f.0,
                        modifier_hi: halves(f.1).0,
                        modifier_lo: halves(f.1).1,
                    },
                ),
        )
    } else {
        Seq::empty()
    }
}

/// Adds what clients are told of a format.
fn push_pairs(formats: &mut Vec<(u32, u64)>, info: &FormatInfo)
    ensures
        final(formats)@ == old(formats)@ + info.pairs(),
{
    let ghost before = formats@;
    if !contains(info.name.as_str(), "SRGB") {
        assert(formats@ =~= before + info.pairs());
        return ;
    }
    let mut i: usize = 0;
    assert(formats@ =~= before + all_with_modifiers(info.fourccs@.take(0), info.modifiers@));
    while i < info.fourccs.len()
        invariant
            i <= info.fourccs.len(),
            formats@ == before + all_with_modifiers(
                info.fourccs@.take(i as int),
                info.modifiers@,
            ),
        decreases info.fourccs.len() - i,
    {
        let fourcc: u32 = info.fourccs[i];
        let ghost here = formats@;
        let mut j: usize = 0;
        assert(formats@ =~= here + with_modifiers(fourcc, info.modifiers@.take(0)));
        while j < info.modifiers.len()
            invariant
                j <= info.modifiers.len(),
                formats@ == here + with_modifiers(fourcc, info.modifiers@.take(j as int)),
            decreases info.modifiers.len() - j,
        {
            formats.push((fourcc, info.modifiers[j]));
            j += 1;
            assert(formats@ =~= here + with_modifiers(fourcc, info.modifiers@.take(j as int)));
        }
        i += 1;
        proof {
            assert(info.modifiers@.take(info.modifiers@.len() as int) =~= info.modifiers@);
            assert(info.fourccs@.take(i as int).drop_last() =~= info.fourccs@.take(i - 1));
            assert(formats@ =~= before + all_with_modifiers(
                info.fourccs@.take(i as int),
                info.modifiers@,
            ));
        }
    }
    assert(info.fourccs@.take(info.fourccs@.len() as int) =~= info.fourccs@);
}

impl Dmabuf {
    /// Tells the client of the formats that the server can take.
    pub fn new(client: &mut Client, id: ObjectId, version: u32, infos: &Vec<FormatInfo>) -> (dmabuf:
        Self)
        ensures
            dmabuf.version == version,
            dmabuf.formats@ == all_pairs(infos@),
            final(client)@ == old(client)@.after(
                format_events(id, version, all_pairs(infos@)),
                0,
            ),
    {
        let mut formats: Vec<(u32, u64)> = Vec::new();
        let mut i: usize = 0;
        assert(formats@ =~= all_pairs(infos@.take(0)));
        while i < infos.len()
            invariant
                i <= infos.len(),
                formats@ == all_pairs(infos@.take(i as int)),
            decreases infos.len() - i,
        {
            push_pairs(&mut formats, &infos[i]);
            i += 1;
            assert(infos@.take(i as int).drop_last() =~= infos@.take(i - 1));
        }
        assert(infos@.take(infos@.len() as int) =~= infos@);
        let ghost start = client@;
        let mut i: usize = 0;
        assert(start.after(format_events(id, version, formats@.take(0)), 0) == start) by {
            assert(start.sent + format_events(id, version, formats@.take(0)) =~= start.sent);
        }
        if version <= MODIFIER_SINCE {
            while i < formats.len()
                invariant
                    i <= formats.len(),
                    version <= MODIFIER_SINCE,
                    client@ == start.after(format_events(id, version, formats@.take(i as int)), 0),
                decreases formats.len() - i,
            {
                let (format, modifier): (u32, u64) = formats[i];
                if version < MODIFIER_SINCE {
                    client.send(Event::DmabufFormat { dmabuf: id, format });
                } else {
                    let (modifier_hi, modifier_lo): (u32, u32) = split(modifier);
                    client.send(
                        Event::DmabufModifier { dmabuf: id, format, modifier_hi, modifier_lo },
                    );
                }
                i += 1;
                assert(client@.sent =~= start.sent + format_events(
                    id,
                    version,
                    formats@.take(i as int),
                ));
            }
            assert(formats@.take(formats@.len() as int) =~= formats@);
        } else {
            assert(format_events(id, version, formats@) =~= format_events(
                id,
                version,
                formats@.take(0),
            ));
        }
        Dmabuf { version, formats }
    }

    /// Takes the object out of the client's objects.
    pub fn destroy(&self, client: &mut Client, sender_id: ObjectId)
        ensures
            final(client)@ == (ClientView {
                objects: old(client)@.objects.remove(sender_id.raw),
                ..old(client)@
            }),
    {
        client.remove(sender_id);
    }

    /// Adds an object that collects the planes of a buffer.
    pub fn create_params(&self, client: &mut Client, params_id: ObjectId) -> (r: WaylandResult<
        buffer_params::BufferParams,
    >)
        ensures
            if old(client)@.objects.contains_key(params_id.raw) {
                &&& r matches Err(e) && e == WaylandError::FailedToInsertObject
                &&& final(client)@ == old(client)@
            } else {
                &&& r matches Ok(params) && params@ == buffer_params::ParamsView::new(params_id)
                &&& final(client)@ == (ClientView {
                    objects: old(client)@.objects.insert(params_id.raw, Interface::BufferParams),
                    ..old(client)@
                })
            },
    {
        match client.insert(params_id, Interface::BufferParams) {
            Ok(()) => Ok(buffer_params::BufferParams::new(params_id)),
            Err(e) => Err(e),
        }
    }

    /// The client and the answer after a request for an object that tells of the best formats.
    pub open spec fn feedback_requested(self, client: ClientView, id: ObjectId) -> (
        ClientView,
        WaylandResult<()>,
    ) {
        if self.version < FEEDBACK_SINCE {
            (
                client,
                Err(
                    WaylandError::Fatal {
                        object_id: id,
                        code: UNSUPPORTED_REQUEST,
                        message: "Can't call get_default_feedback on version < 4 of dmabuf",
                    },
                ),
            )
        } else if client.objects.contains_key(id.raw) {
            (client, Err(WaylandError::FailedToInsertObject))
        } else {
            (
                ClientView {
                    objects: client.objects.insert(id.raw, Interface::DmabufFeedback),
                    ..client
                },
                Ok(()),
            )
        }
    }

    /// Adds an object that tells the client which formats are best, where the version has
    /// one. What the object tells of them is for the caller to send once it is there.
    pub fn get_default_feedback(&self, client: &mut Client, id: ObjectId) -> (r: WaylandResult<()>)
        ensures
            (final(client)@, r) == self.feedback_requested(old(client)@, id),
    {
        if self.version < FEEDBACK_SINCE {
            return Err(
                WaylandError::Fatal {
                    object_id: id,
                    code: UNSUPPORTED_REQUEST,
                    message: "Can't call get_default_feedback on version < 4 of dmabuf",
                },
            );
        }
        client.insert(id, Interface::DmabufFeedback)
    }

    /// As [`Dmabuf::get_default_feedback`]: what is best does not depend on the surface.
    pub fn get_surface_feedback(&self, client: &mut Client, id: ObjectId, _surface: ObjectId) -> (r:
        WaylandResult<()>)
        ensures
            (final(client)@, r) == self.feedback_requested(old(client)@, id),
    {
        self.get_default_feedback(client, id)
    }
}

/// Clients are told of a format and a modifier exactly where an sRGB format of the server has
/// both.
pub proof fn pairs_are_offered(infos: Seq<FormatInfo>, fourcc: u32, modifier: u64)
    ensures
        all_pairs(infos).contains((fourcc, modifier)) <==> exists|i: int|
            0 <= i < infos.len() && #[trigger] infos[i].is_srgb() && infos[i].fourccs@.contains(
                fourcc,
            ) && infos[i].modifiers@.contains(modifier),
    decreases infos.len(),
{
    broadcast use vstd::seq_lib::group_seq_properties;

    if infos.len() > 0 {
        let last = infos.last();
        pairs_are_offered(infos.drop_last(), fourcc, modifier);
        lemma_with_modifiers(last.fourccs@, last.modifiers@, fourcc, modifier);
        let first = all_pairs(infos.drop_last());
        lemma_concat_contains(first, last.pairs(), (fourcc, modifier));
        let n = infos.len() - 1;
        assert(infos[n] == last);
        assert(infos[n].is_srgb() == last.is_srgb());
        assert forall|i: int| 0 <= i < n implies infos[i].is_srgb()
            == #[trigger] infos.drop_last()[i].is_srgb() by {}
        if all_pairs(infos).contains((fourcc, modifier)) {
            if first.contains((fourcc, modifier)) {
                let i = choose|i: int|
                    0 <= i < infos.drop_last().len() && #[trigger] infos.drop_last()[i].is_srgb()
                        && infos.drop_last()[i].fourccs@.contains(fourcc)
                        && infos.drop_last()[i].modifiers@.contains(modifier);
                assert(infos[i].is_srgb());
            } else {
                assert(infos[n].is_srgb());
            }
        }
        if exists|i: int|
            0 <= i < infos.len() && #[trigger] infos[i].is_srgb() && infos[i].fourccs@.contains(
                fourcc,
            ) && infos[i].modifiers@.contains(modifier) {
            let i = choose|i: int|
                0 <= i < infos.len() && #[trigger] infos[i].is_srgb() && infos[i].fourccs@.contains(
                    fourcc,
                ) && infos[i].modifiers@.contains(modifier);
            if i < n {
                assert(infos.drop_last()[i].is_srgb());
            }
        }
    }
}

proof fn lemma_concat_contains<T>(a: Seq<T>, b: Seq<T>, x: T)
    ensures
        (a + b).contains(x) <==> a.contains(x) || b.contains(x),
{
    if a.contains(x) {
        let i = choose|i: int| 0 <= i < a.len() && a[i] == x;
        assert((a + b)[i] == x);
    }
    if b.contains(x) {
        let i = choose|i: int| 0 <= i < b.len() && b[i] == x;
        assert((a + b)[a.len() + i] == x);
    }
    if (a + b).contains(x) {
        let i = choose|i: int| 0 <= i < (a + b).len() && (a + b)[i] == x;
        if i < a.len() {
            assert(a[i] == x);
        } else {
            assert(b[i - a.len()] == x);
        }
    }
}

proof fn lemma_with_modifiers(
    fourccs: Seq<u32>,
    modifiers: Seq<u64>,
    fourcc: u32,
    modifier: u64,
)
    ensures
        all_with_modifiers(fourccs, modifiers).contains((fourcc, modifier)) <==> fourccs.contains(
            fourcc,
        ) && modifiers.contains(modifier),
    decreases fourccs.len(),
{
    if fourccs.len() > 0 {
        let last = with_modifiers(fourccs.last(), modifiers);
        lemma_with_modifiers(fourccs.drop_last(), modifiers, fourcc, modifier);
        lemma_concat_contains(
            all_with_modifiers(fourccs.drop_last(), modifiers),
            last,
            (fourcc, modifier),
        );
        lemma_concat_contains(fourccs.drop_last(), seq![fourccs.last()], fourcc);
        assert(fourccs =~= fourccs.drop_last() + seq![fourccs.last()]);
        if last.contains((fourcc, modifier)) {
            let i = choose|i: int| 0 <= i < last.len() && last[i] == (fourcc, modifier);
            assert(modifiers[i] == modifier);
            assert(seq![fourccs.last()][0] == fourcc);
        }
        if modifiers.contains(modifier) && fourccs.last() == fourcc {
            let i = choose|i: int| 0 <= i < modifiers.len() && modifiers[i] == modifier;
            assert(last[i] == (fourcc, modifier));
        }
    }
}

} // verus!
