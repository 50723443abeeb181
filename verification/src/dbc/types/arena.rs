//! The slot-map arena that owns every node, message and signal.
//!
//! The arena holds a `slotmap::SlotMap<DefaultKey, Entity>`. What it holds is
//! named by [`arena_slots`]: a map from slot handles (`KeyData::as_ffi`
//! values) to entities. The wrappers below state, over that name, what the
//! slot map's methods do.
use vstd::prelude::*;
use slotmap::{DefaultKey, Key, KeyData, SlotMap};
use crate::dbc::types::entities::Entity;
use crate::dbc::types::keys::{handle_is_null, handle_ok};

verus! {

/// The slot map holding the entities. Verus cannot take the slot map's own
/// declaration (its key parameter is bounded by the crate's `Key` trait), so
/// the map is held here and known only through [`arena_slots`].
#[verifier::external_body]
#[derive(Debug)]
pub struct Arena {
    slots: SlotMap<DefaultKey, Entity>,
}

/// The entities an arena holds, by slot handle.
pub uninterp spec fn arena_slots(a: Arena) -> Map<u64, Entity>;

/// Largest number of entities the arena can hold: `SlotMap::insert` panics
/// when the map is full (`u32::MAX - 1` slots in use).
pub const ARENA_CAPACITY: usize = 0xFFFF_FFFE;

/// `SlotMap::new`: an empty arena.
#[verifier::external_body]
pub(crate) fn arena_new() -> (r: Arena)
    ensures
        arena_slots(r).dom() == Set::<u64>::empty(),
{
    Arena { slots: SlotMap::new() }
}

/// `SlotMap::len`: the number of entities held.
#[verifier::external_body]
pub(crate) fn arena_len(a: &Arena) -> (r: usize)
    ensures
        r == arena_slots(*a).len(),
{
    a.slots.len()
}

/// `SlotMap::insert`: stores `e` under a key that was not in use and returns
/// that key's handle (`KeyData::as_ffi`), whose version is odd and whose
/// slot index is below `u32::MAX` (a new slot's index is the number of slots,
/// refused from `u32::MAX` on; a reused slot is an older one), so it is not
/// the null key. Panics when the map is full, which `requires` excludes.
#[verifier::external_body]
pub(crate) fn arena_insert(a: &mut Arena, e: Entity) -> (h: u64)
    requires
        arena_slots(*old(a)).len() < ARENA_CAPACITY,
    ensures
        handle_ok(h),
        !handle_is_null(h),
        !arena_slots(*old(a)).contains_key(h),
        arena_slots(*final(a)) == arena_slots(*old(a)).insert(h, e),
{
    a.slots.insert(e).data().as_ffi()
}

/// `SlotMap::get` with the key whose handle is `h` (`KeyData::from_ffi`,
/// which gives back the key of a well-formed handle): the entity stored
/// under it, if any.
#[verifier::external_body]
pub(crate) fn arena_get(a: &Arena, h: u64) -> (r: Option<&Entity>)
    requires
        handle_ok(h),
    ensures
        arena_slots(*a).contains_key(h) ==> r == Some(&arena_slots(*a)[h]),
        !arena_slots(*a).contains_key(h) ==> r is None,
{
    a.slots.get(DefaultKey::from(KeyData::from_ffi(h)))
}

/// `IndexMut` with the key whose handle is `h`: the entity stored under it,
/// to be modified in place; the arena then holds the modified entity under
/// `h`. Panics when nothing is stored under `h`, which `requires` excludes.
#[verifier::external_body]
pub(crate) fn arena_at_mut(a: &mut Arena, h: u64) -> (r: &mut Entity)
    requires
        handle_ok(h),
        arena_slots(*old(a)).contains_key(h),
    ensures
        *r == arena_slots(*old(a))[h],
        arena_slots(*final(a)) == arena_slots(*old(a)).insert(h, *final(r)),
{
    &mut a.slots[DefaultKey::from(KeyData::from_ffi(h))]
}

/// `SlotMap::remove` with the key whose handle is `h`: the entity stored
/// under it, if any, which the arena no longer holds.
#[verifier::external_body]
pub(crate) fn arena_remove(a: &mut Arena, h: u64) -> (r: Option<Entity>)
    requires
        handle_ok(h),
    ensures
        arena_slots(*old(a)).contains_key(h) ==> r == Some(arena_slots(*old(a))[h]),
        !arena_slots(*old(a)).contains_key(h) ==> r is None,
        arena_slots(*final(a)) == arena_slots(*old(a)).remove(h),
{
    a.slots.remove(DefaultKey::from(KeyData::from_ffi(h)))
}

/// The slot index of the key with handle `h` (the low half of the handle).
pub open spec fn slot_index(h: u64) -> int {
    h as int % 0x1_0000_0000
}

/// `SlotMap::keys`, each key taken as its handle (`KeyData::as_ffi`): every
/// handle in use, once, in increasing slot index (the slot map walks its
/// slots from the first to the last).
#[verifier::external_body]
pub(crate) fn arena_handles(a: &Arena) -> (r: Vec<u64>)
    ensures
        r@.no_duplicates(),
        forall|h: u64| #[trigger] r@.contains(h) <==> arena_slots(*a).contains_key(h),
        forall|i: int, j: int| 0 <= i < j < r.len() ==> slot_index(#[trigger] r@[i]) < slot_index(#[trigger] r@[j]),
{
    a.slots.keys().map(|k| k.data().as_ffi()).collect()
}

/// Where the key with handle `h` stands in the order slot-map keys compare
/// in: `KeyData` derives `Ord` on its slot index, then its version, and
/// `KeyData::from_ffi` takes the index from the low half of the handle and
/// the version, made odd, from the high half.
pub open spec fn slot_rank(h: u64) -> u64 {
    ((h & 0xffff_ffffu64) << 32u64) | ((h >> 32u64) | 1u64)
}

/// `<` on the slot-map keys with handles `a` and `b`
/// (`KeyData::from_ffi(a) < KeyData::from_ffi(b)`).
#[verifier::external_body]
pub(crate) fn slot_key_less(a: u64, b: u64) -> (r: bool)
    ensures
        r == (slot_rank(a) < slot_rank(b)),
{
    KeyData::from_ffi(a) < KeyData::from_ffi(b)
}

} // verus!
