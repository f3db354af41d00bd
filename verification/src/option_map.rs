//! The option set of a room is kept in a `LinkedHashMap`, which keeps its
//! entries in the order in which they were inserted. Verus does not read that
//! crate: this file says what is taken on trust of it.

use crate::ids::OptionId;
use crate::room_state;
use crate::room_state::OptionView;
use linked_hash_map::LinkedHashMap;
use vstd::prelude::*;

verus! {

#[verifier::external_type_specification]
#[verifier::external_body]
#[verifier::reject_recursive_types(K)]
#[verifier::reject_recursive_types(V)]
#[verifier::reject_recursive_types(S)]
pub struct ExLinkedHashMap<K, V, S>(LinkedHashMap<K, V, S>);

/// What a map holds: its keys with their values, oldest entry first.
pub uninterp spec fn entries(map: LinkedHashMap<OptionId, room_state::Option>) -> Seq<
    (OptionId, OptionView),
>;

/// Whether some entry of `s` has the key `key`.
pub open spec fn has_key(s: Seq<(OptionId, OptionView)>, key: OptionId) -> bool {
    exists|i: int| 0 <= i < s.len() && (#[trigger] s[i]).0 == key
}

/// `LinkedHashMap::new`: a map without entries.
#[verifier::external_body]
pub(crate) fn new_map() -> (map: LinkedHashMap<OptionId, room_state::Option>)
    ensures
        entries(map) == Seq::<(OptionId, OptionView)>::empty(),
{
    LinkedHashMap::new()
}

/// `LinkedHashMap::len`: the number of entries.
#[verifier::external_body]
pub(crate) fn map_len(map: &LinkedHashMap<OptionId, room_state::Option>) -> (n: usize)
    ensures
        n == entries(*map).len(),
{
    map.len()
}

/// `LinkedHashMap::contains_key`: whether an entry has this key.
#[verifier::external_body]
pub(crate) fn map_contains(map: &LinkedHashMap<OptionId, room_state::Option>, key: OptionId) -> (r:
    bool)
    ensures
        r == has_key(entries(*map), key),
{
    map.contains_key(&key)
}

/// `LinkedHashMap::insert` of a key that the map does not hold yet: the new
/// entry becomes the last one and the others stay as they are. (For a key
/// that is present the crate replaces the value and moves the entry; that
/// case is excluded here.)
#[verifier::external_body]
pub(crate) fn map_insert(
    map: &mut LinkedHashMap<OptionId, room_state::Option>,
    key: OptionId,
    value: room_state::Option,
)
    requires
        !has_key(entries(*old(map)), key),
    ensures
        entries(*final(map)) == entries(*old(map)).push((key, value@)),
{
    map.insert(key, value);
}

/// `LinkedHashMap::get`: the value stored under `key`, if there is one.
#[verifier::external_body]
pub(crate) fn map_get(map: &LinkedHashMap<OptionId, room_state::Option>, key: OptionId) -> (r:
    core::option::Option<&room_state::Option>)
    ensures
        match r {
            Some(value) => exists|i: int|
                0 <= i < entries(*map).len() && #[trigger] entries(*map)[i] == (key, value@),
            None => !has_key(entries(*map), key),
        },
{
    map.get(&key)
}

/// `LinkedHashMap::get_mut`: the value stored under `key`, open to change.
/// The entry keeps its key and its place, and no other entry changes.
#[verifier::external_body]
pub(crate) fn map_get_mut(
    map: &mut LinkedHashMap<OptionId, room_state::Option>,
    key: OptionId,
) -> (r: core::option::Option<&mut room_state::Option>)
    ensures
        match r {
            Some(value) => exists|i: int|
                0 <= i < entries(*old(map)).len() && #[trigger] entries(*old(map))[i] == (
                    key,
                    (*value)@,
                ) && entries(*final(map)) == entries(*old(map)).update(
                    i,
                    (key, (*final(value))@),
                ),
            None => !has_key(entries(*old(map)), key) && entries(*final(map)) == entries(
                *old(map),
            ),
        },
{
    map.get_mut(&key)
}

/// `LinkedHashMap::keys`, collected: the keys, oldest entry first.
#[verifier::external_body]
pub(crate) fn map_keys(map: &LinkedHashMap<OptionId, room_state::Option>) -> (keys: Vec<OptionId>)
    ensures
        keys@.len() == entries(*map).len(),
        forall|i: int| 0 <= i < keys@.len() ==> keys@[i] == (#[trigger] entries(*map)[i]).0,
{
    map.keys().copied().collect()
}

/// `LinkedHashMap::values`, collected: the values, oldest entry first.
#[verifier::external_body]
pub(crate) fn map_values(map: &LinkedHashMap<OptionId, room_state::Option>) -> (values: Vec<
    &room_state::Option,
>)
    ensures
        values@.len() == entries(*map).len(),
        forall|i: int| 0 <= i < values@.len() ==> values@[i]@ == (#[trigger] entries(*map)[i]).1,
{
    map.values().collect()
}

} // verus!
