//! The concurrent and hashed collections that the protocol objects keep, and the
//! random numbers that name them.
use crate::protocols::dmabuf::buffer_params::DisjointDmatexPlane;
use crate::types::ChildState;
use dashmap::{DashMap, DashSet};
use rustc_hash::{FxBuildHasher, FxHashMap, FxHashSet};
use std::collections::hash_map::RandomState;
use vstd::prelude::*;

verus! {

#[verifier::external_type_specification]
#[verifier::external_body]
#[verifier::reject_recursive_types(K)]
#[verifier::reject_recursive_types(V)]
#[verifier::reject_recursive_types(S)]
pub struct ExDashMap<K, V, S>(DashMap<K, V, S>);

#[verifier::external_type_specification]
#[verifier::external_body]
#[verifier::reject_recursive_types(K)]
#[verifier::reject_recursive_types(S)]
pub struct ExDashSet<K, S>(DashSet<K, S>);

#[verifier::external_type_specification]
#[verifier::external_body]
pub struct ExFxBuildHasher(FxBuildHasher);

/// A child surface of a panel item.
#[derive(Debug, Clone, Copy, PartialEq, Eq)]
pub struct Child {
    /// The place of the child's surface among the client's surfaces.
    pub surface: usize,
    pub info: ChildState,
}

/// What a map of children holds, by the id of the child.
pub uninterp spec fn children_in(entries: DashMap<u64, Child, RandomState>) -> Map<u64, Child>;

/// `DashMap::new`: a map without entries.
#[verifier::external_body]
pub(crate) fn children_new() -> (entries: DashMap<u64, Child, RandomState>)
    ensures
        (children_in(entries) == Map::<u64, Child>::empty()),
{
    DashMap::new()
}

/// `DashMap::insert`: sets the entry of a key, whether or not it had one.
#[verifier::external_body]
pub(crate) fn children_insert(entries: &mut DashMap<u64, Child, RandomState>, id: u64, child: Child)
    ensures
        children_in(*final(entries)) == children_in(*old(entries)).insert(id, child),
{
    entries.insert(id, child);
}

/// `DashMap::get`: the entry of a key, if it has one.
#[verifier::external_body]
pub(crate) fn children_get(entries: &DashMap<u64, Child, RandomState>, id: u64) -> (child: Option<Child>)
    ensures
        child == (if children_in(*entries).contains_key(id) {
            Some(children_in(*entries)[id])
        } else {
            None
        }),
{
    entries.get(&id).as_deref().copied()
}

/// `DashMap::remove`: drops the entry of a key, if it has one.
#[verifier::external_body]
pub(crate) fn children_remove(entries: &mut DashMap<u64, Child, RandomState>, id: u64)
    ensures
        children_in(*final(entries)) == children_in(*old(entries)).remove(id),
{
    entries.remove(&id);
}

/// What a map of key sets holds, by the number of the surface.
pub uninterp spec fn pressed_in(entries: DashMap<u32, DashSet<u32, RandomState>, RandomState>) -> Map<u32, Set<u32>>;

/// The keys that are held down on a surface; none, where nothing is recorded of it.
pub open spec fn pressed_on(pressed: Map<u32, Set<u32>>, surface: u32) -> Set<u32> {
    if pressed.contains_key(surface) {
        pressed[surface]
    } else {
        Set::empty()
    }
}

/// `DashMap::default`: a map without entries.
#[verifier::external_body]
pub(crate) fn pressed_new() -> (entries: DashMap<u32, DashSet<u32, RandomState>, RandomState>)
    ensures
        (pressed_in(entries) == Map::<u32, Set<u32>>::empty()),
{
    DashMap::default()
}

/// `DashMap::entry` with `or_default`, then `DashSet::insert`: adds a key to the set of
/// a surface, which is empty where the map has none.
#[verifier::external_body]
pub(crate) fn pressed_insert(
    entries: &mut DashMap<u32, DashSet<u32, RandomState>, RandomState>,
    surface: u32,
    key: u32,
)
    ensures
        pressed_in(*final(entries)) == pressed_in(*old(entries)).insert(
            surface,
            pressed_on(pressed_in(*old(entries)), surface).insert(key),
        ),
{
    entries.entry(surface).or_default().insert(key);
}

/// `DashMap::entry` with `or_default`, then `DashSet::remove`: drops a key from the set
/// of a surface, which is empty where the map has none.
#[verifier::external_body]
pub(crate) fn pressed_remove(
    entries: &mut DashMap<u32, DashSet<u32, RandomState>, RandomState>,
    surface: u32,
    key: u32,
)
    ensures
        pressed_in(*final(entries)) == pressed_in(*old(entries)).insert(
            surface,
            pressed_on(pressed_in(*old(entries)), surface).remove(key),
        ),
{
    entries.entry(surface).or_default().remove(&key);
}

/// `DashMap::entry` with `or_default`, then `DashSet::iter`: every key of the set of a
/// surface once, in an order that the set leaves open.
#[verifier::external_body]
pub(crate) fn pressed_list(
    entries: &mut DashMap<u32, DashSet<u32, RandomState>, RandomState>,
    surface: u32,
) -> (keys: Vec<u32>)
    ensures
        keys@.no_duplicates(),
        keys@.to_set() == pressed_on(pressed_in(*old(entries)), surface),
        pressed_in(*final(entries)) == pressed_in(*old(entries)).insert(
            surface,
            pressed_on(pressed_in(*old(entries)), surface),
        ),
{
    entries.entry(surface).or_default().iter().map(|key| *key).collect()
}

/// `FxHashMap::default`: a map without entries.
#[verifier::external_body]
pub(crate) fn planes_new() -> (entries: FxHashMap<u32, DisjointDmatexPlane>)
    ensures
        (entries@ == Map::<u32, DisjointDmatexPlane>::empty()),
{
    FxHashMap::default()
}

/// `HashMap::contains_key` with the hasher of an `FxHashMap`: whether a key has an entry.
#[verifier::external_body]
pub(crate) fn planes_contains(entries: &FxHashMap<u32, DisjointDmatexPlane>, index: u32) -> (r: bool)
    ensures
        r == entries@.contains_key(index),
{
    entries.contains_key(&index)
}

/// `HashMap::insert` with the hasher of an `FxHashMap`: sets the entry of a key.
#[verifier::external_body]
pub(crate) fn planes_insert(
    entries: &mut FxHashMap<u32, DisjointDmatexPlane>,
    index: u32,
    plane: DisjointDmatexPlane,
)
    ensures
        final(entries)@ == old(entries)@.insert(index, plane),
{
    entries.insert(index, plane);
}

/// `Vec::from_iter` on an `FxHashMap`: every entry once, in an order that the map leaves open.
#[verifier::external_body]
pub(crate) fn planes_list(entries: FxHashMap<u32, DisjointDmatexPlane>) -> (planes: Vec<
    (u32, DisjointDmatexPlane),
>)
    ensures
        forall|i: int, j: int| 0 <= i < j < planes@.len() ==> planes@[i].0 != planes@[j].0,
        forall|i: int|
            0 <= i < planes@.len() ==> #[trigger] entries@.contains_pair(
                planes@[i].0,
                planes@[i].1,
            ),
        forall|index: u32|
            #[trigger] entries@.contains_key(index) ==> exists|i: int|
                0 <= i < planes@.len() && planes@[i].0 == index,
{
    Vec::from_iter(entries)
}

/// `FxHashSet::default`: a set without values.
#[verifier::external_body]
pub(crate) fn formats_new() -> (formats: FxHashSet<u32>)
    ensures
        (formats@ == Set::<u32>::empty()),
{
    FxHashSet::default()
}

/// `HashSet::insert` with the hasher of an `FxHashSet`: adds a value.
#[verifier::external_body]
pub(crate) fn formats_insert(formats: &mut FxHashSet<u32>, format: u32)
    ensures
        final(formats)@ == old(formats)@.insert(format),
{
    formats.insert(format);
}

/// `Vec::from_iter` on an `FxHashSet`: every value once, in an order that the set leaves open.
#[verifier::external_body]
pub(crate) fn formats_list(formats: FxHashSet<u32>) -> (list: Vec<u32>)
    ensures
        list@.no_duplicates(),
        list@.to_set() == formats@,
{
    Vec::from_iter(formats)
}

/// `rand::random`: any number at all.
#[verifier::external_body]
pub(crate) fn random_id() -> (id: u64) {
    rand::random()
}

} // verus!
