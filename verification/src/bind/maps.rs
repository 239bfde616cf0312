//! The insertion-ordered maps that hold bindings, from the `indexmap` crate.
//!
//! Each map is viewed as the sequence of its entries in insertion order
//! (an uninterpreted name per entry type). The wrappers below state what
//! `indexmap`'s documentation and source give for each method: `insert` keeps
//! the place of an existing key and appends a new one, `shift_remove` shifts
//! the later entries down, and keys never repeat.
use vstd::prelude::*;

use indexmap::IndexMap;

use super::{Gesturebind, Keybind, Mousebind};
use crate::keyed::{has_key, key_index, keys_distinct};

verus! {

#[verifier::external_type_specification]
#[verifier::external_body]
#[verifier::reject_recursive_types(K)]
#[verifier::reject_recursive_types(V)]
#[verifier::reject_recursive_types(S)]
pub struct ExIndexMap<K, V, S>(IndexMap<K, V, S>);

/// The entries of an `IndexMap<u32, Keybind>` (keybinds by id), in order.
pub uninterp spec fn keybind_entries(m: IndexMap<u32, Keybind>) -> Seq<(u32, Keybind)>;

/// Calls `IndexMap::new`: the map starts out empty.
#[verifier::external_body]
pub(crate) fn keybind_map_new() -> (m: IndexMap<u32, Keybind>)
    ensures
        keybind_entries(m) == Seq::<(u32, Keybind)>::empty(),
{
    IndexMap::new()
}

/// Calls `IndexMap::get_index_of`: the position of the entry with `key`, if any.
#[verifier::external_body]
pub(crate) fn keybind_map_index_of(m: &IndexMap<u32, Keybind>, key: u32) -> (r: Option<usize>)
    ensures
        match r {
            Some(i) => i < keybind_entries(*m).len() && keybind_entries(*m)[i as int].0 == key,
            None => !has_key(keybind_entries(*m), key),
        },
{
    m.get_index_of(&key)
}

/// Calls `IndexMap::get_index` on a position that is in range: the value there.
#[verifier::external_body]
pub(crate) fn keybind_map_get_index(m: &IndexMap<u32, Keybind>, i: usize) -> (r: &Keybind)
    requires
        i < keybind_entries(*m).len(),
    ensures
        *r == keybind_entries(*m)[i as int].1,
{
    m.get_index(i).unwrap().1
}

/// Calls `IndexMap::insert`: an existing key keeps its place and gets the new
/// value (the old one is returned); a new key is appended last.
#[verifier::external_body]
pub(crate) fn keybind_map_insert(m: &mut IndexMap<u32, Keybind>, key: u32, value: Keybind) -> (r: Option<Keybind>)
    requires
        keys_distinct(keybind_entries(*old(m))),
    ensures
        has_key(keybind_entries(*old(m)), key) ==> {
            let i = key_index(keybind_entries(*old(m)), key);
            &&& keybind_entries(*final(m)) == keybind_entries(*old(m)).update(i, (key, value))
            &&& r == Some(keybind_entries(*old(m))[i].1)
        },
        !has_key(keybind_entries(*old(m)), key) ==> {
            &&& keybind_entries(*final(m)) == keybind_entries(*old(m)).push((key, value))
            &&& r == None::<Keybind>
        },
{
    m.insert(key, value)
}

/// Calls `IndexMap::get_index_mut` on a position that is in range: a mutable
/// reference to the value there, whose final value replaces it in place.
#[verifier::external_body]
pub(crate) fn keybind_map_get_index_mut(m: &mut IndexMap<u32, Keybind>, i: usize) -> (r: &mut Keybind)
    requires
        i < keybind_entries(*old(m)).len(),
    ensures
        *r == keybind_entries(*old(m))[i as int].1,
        keybind_entries(*final(m)) == keybind_entries(*old(m)).update(i as int, (keybind_entries(*old(m))[i as int].0, *final(r))),
{
    m.get_index_mut(i).unwrap().1
}

/// Calls `IndexMap::shift_remove`: removes the entry with `key`, if any, shifting
/// the later entries down, and returns its value.
#[verifier::external_body]
pub(crate) fn keybind_map_shift_remove(m: &mut IndexMap<u32, Keybind>, key: u32) -> (r: Option<Keybind>)
    requires
        keys_distinct(keybind_entries(*old(m))),
    ensures
        has_key(keybind_entries(*old(m)), key) ==> {
            let i = key_index(keybind_entries(*old(m)), key);
            &&& keybind_entries(*final(m)) == keybind_entries(*old(m)).remove(i)
            &&& r == Some(keybind_entries(*old(m))[i].1)
        },
        !has_key(keybind_entries(*old(m)), key) ==> {
            &&& keybind_entries(*final(m)) == keybind_entries(*old(m))
            &&& r == None::<Keybind>
        },
{
    m.shift_remove(&key)
}

/// Calls `IndexMap::clear`: no entries remain.
#[verifier::external_body]
pub(crate) fn keybind_map_clear(m: &mut IndexMap<u32, Keybind>)
    ensures
        keybind_entries(*final(m)) == Seq::<(u32, Keybind)>::empty(),
{
    m.clear()
}

/// The entries of an `IndexMap<u32, Mousebind>` (mousebinds by id), in order.
pub uninterp spec fn mousebind_entries(m: IndexMap<u32, Mousebind>) -> Seq<(u32, Mousebind)>;

/// Calls `IndexMap::new`: the map starts out empty.
#[verifier::external_body]
pub(crate) fn mousebind_map_new() -> (m: IndexMap<u32, Mousebind>)
    ensures
        mousebind_entries(m) == Seq::<(u32, Mousebind)>::empty(),
{
    IndexMap::new()
}

/// Calls `IndexMap::get_index_of`: the position of the entry with `key`, if any.
#[verifier::external_body]
pub(crate) fn mousebind_map_index_of(m: &IndexMap<u32, Mousebind>, key: u32) -> (r: Option<usize>)
    ensures
        match r {
            Some(i) => i < mousebind_entries(*m).len() && mousebind_entries(*m)[i as int].0 == key,
            None => !has_key(mousebind_entries(*m), key),
        },
{
    m.get_index_of(&key)
}

/// Calls `IndexMap::get_index` on a position that is in range: the value there.
#[verifier::external_body]
pub(crate) fn mousebind_map_get_index(m: &IndexMap<u32, Mousebind>, i: usize) -> (r: &Mousebind)
    requires
        i < mousebind_entries(*m).len(),
    ensures
        *r == mousebind_entries(*m)[i as int].1,
{
    m.get_index(i).unwrap().1
}

/// Calls `IndexMap::insert`: an existing key keeps its place and gets the new
/// value (the old one is returned); a new key is appended last.
#[verifier::external_body]
pub(crate) fn mousebind_map_insert(m: &mut IndexMap<u32, Mousebind>, key: u32, value: Mousebind) -> (r: Option<Mousebind>)
    requires
        keys_distinct(mousebind_entries(*old(m))),
    ensures
        has_key(mousebind_entries(*old(m)), key) ==> {
            let i = key_index(mousebind_entries(*old(m)), key);
            &&& mousebind_entries(*final(m)) == mousebind_entries(*old(m)).update(i, (key, value))
            &&& r == Some(mousebind_entries(*old(m))[i].1)
        },
        !has_key(mousebind_entries(*old(m)), key) ==> {
            &&& mousebind_entries(*final(m)) == mousebind_entries(*old(m)).push((key, value))
            &&& r == None::<Mousebind>
        },
{
    m.insert(key, value)
}

/// Calls `IndexMap::get_index_mut` on a position that is in range: a mutable
/// reference to the value there, whose final value replaces it in place.
#[verifier::external_body]
pub(crate) fn mousebind_map_get_index_mut(m: &mut IndexMap<u32, Mousebind>, i: usize) -> (r: &mut Mousebind)
    requires
        i < mousebind_entries(*old(m)).len(),
    ensures
        *r == mousebind_entries(*old(m))[i as int].1,
        mousebind_entries(*final(m)) == mousebind_entries(*old(m)).update(i as int, (mousebind_entries(*old(m))[i as int].0, *final(r))),
{
    m.get_index_mut(i).unwrap().1
}

/// Calls `IndexMap::shift_remove`: removes the entry with `key`, if any, shifting
/// the later entries down, and returns its value.
#[verifier::external_body]
pub(crate) fn mousebind_map_shift_remove(m: &mut IndexMap<u32, Mousebind>, key: u32) -> (r: Option<Mousebind>)
    requires
        keys_distinct(mousebind_entries(*old(m))),
    ensures
        has_key(mousebind_entries(*old(m)), key) ==> {
            let i = key_index(mousebind_entries(*old(m)), key);
            &&& mousebind_entries(*final(m)) == mousebind_entries(*old(m)).remove(i)
            &&& r == Some(mousebind_entries(*old(m))[i].1)
        },
        !has_key(mousebind_entries(*old(m)), key) ==> {
            &&& mousebind_entries(*final(m)) == mousebind_entries(*old(m))
            &&& r == None::<Mousebind>
        },
{
    m.shift_remove(&key)
}

/// Calls `IndexMap::clear`: no entries remain.
#[verifier::external_body]
pub(crate) fn mousebind_map_clear(m: &mut IndexMap<u32, Mousebind>)
    ensures
        mousebind_entries(*final(m)) == Seq::<(u32, Mousebind)>::empty(),
{
    m.clear()
}

/// The entries of an `IndexMap<u32, Gesturebind>` (gesturebinds by id), in order.
pub uninterp spec fn gesturebind_entries(m: IndexMap<u32, Gesturebind>) -> Seq<(u32, Gesturebind)>;

/// Calls `IndexMap::new`: the map starts out empty.
#[verifier::external_body]
pub(crate) fn gesturebind_map_new() -> (m: IndexMap<u32, Gesturebind>)
    ensures
        gesturebind_entries(m) == Seq::<(u32, Gesturebind)>::empty(),
{
    IndexMap::new()
}

/// Calls `IndexMap::get_index_of`: the position of the entry with `key`, if any.
#[verifier::external_body]
pub(crate) fn gesturebind_map_index_of(m: &IndexMap<u32, Gesturebind>, key: u32) -> (r: Option<usize>)
    ensures
        match r {
            Some(i) => i < gesturebind_entries(*m).len() && gesturebind_entries(*m)[i as int].0 == key,
            None => !has_key(gesturebind_entries(*m), key),
        },
{
    m.get_index_of(&key)
}

/// Calls `IndexMap::get_index` on a position that is in range: the value there.
#[verifier::external_body]
pub(crate) fn gesturebind_map_get_index(m: &IndexMap<u32, Gesturebind>, i: usize) -> (r: &Gesturebind)
    requires
        i < gesturebind_entries(*m).len(),
    ensures
        *r == gesturebind_entries(*m)[i as int].1,
{
    m.get_index(i).unwrap().1
}

/// Calls `IndexMap::insert`: an existing key keeps its place and gets the new
/// value (the old one is returned); a new key is appended last.
#[verifier::external_body]
pub(crate) fn gesturebind_map_insert(m: &mut IndexMap<u32, Gesturebind>, key: u32, value: Gesturebind) -> (r: Option<Gesturebind>)
    requires
        keys_distinct(gesturebind_entries(*old(m))),
    ensures
        has_key(gesturebind_entries(*old(m)), key) ==> {
            let i = key_index(gesturebind_entries(*old(m)), key);
            &&& gesturebind_entries(*final(m)) == gesturebind_entries(*old(m)).update(i, (key, value))
            &&& r == Some(gesturebind_entries(*old(m))[i].1)
        },
        !has_key(gesturebind_entries(*old(m)), key) ==> {
            &&& gesturebind_entries(*final(m)) == gesturebind_entries(*old(m)).push((key, value))
            &&& r == None::<Gesturebind>
        },
{
    m.insert(key, value)
}

/// Calls `IndexMap::get_index_mut` on a position that is in range: a mutable
/// reference to the value there, whose final value replaces it in place.
#[verifier::external_body]
pub(crate) fn gesturebind_map_get_index_mut(m: &mut IndexMap<u32, Gesturebind>, i: usize) -> (r: &mut Gesturebind)
    requires
        i < gesturebind_entries(*old(m)).len(),
    ensures
        *r == gesturebind_entries(*old(m))[i as int].1,
        gesturebind_entries(*final(m)) == gesturebind_entries(*old(m)).update(i as int, (gesturebind_entries(*old(m))[i as int].0, *final(r))),
{
    m.get_index_mut(i).unwrap().1
}

/// Calls `IndexMap::shift_remove`: removes the entry with `key`, if any, shifting
/// the later entries down, and returns its value.
#[verifier::external_body]
pub(crate) fn gesturebind_map_shift_remove(m: &mut IndexMap<u32, Gesturebind>, key: u32) -> (r: Option<Gesturebind>)
    requires
        keys_distinct(gesturebind_entries(*old(m))),
    ensures
        has_key(gesturebind_entries(*old(m)), key) ==> {
            let i = key_index(gesturebind_entries(*old(m)), key);
            &&& gesturebind_entries(*final(m)) == gesturebind_entries(*old(m)).remove(i)
            &&& r == Some(gesturebind_entries(*old(m))[i].1)
        },
        !has_key(gesturebind_entries(*old(m)), key) ==> {
            &&& gesturebind_entries(*final(m)) == gesturebind_entries(*old(m))
            &&& r == None::<Gesturebind>
        },
{
    m.shift_remove(&key)
}

/// The entries of an `IndexMap<u64, Vec<u32>>` (bind ids by trigger), in order.
pub uninterp spec fn trigger_entries(m: IndexMap<u64, Vec<u32>>) -> Seq<(u64, Vec<u32>)>;

/// Calls `IndexMap::new`: the map starts out empty.
#[verifier::external_body]
pub(crate) fn trigger_map_new() -> (m: IndexMap<u64, Vec<u32>>)
    ensures
        trigger_entries(m) == Seq::<(u64, Vec<u32>)>::empty(),
{
    IndexMap::new()
}

/// Calls `IndexMap::get_index_of`: the position of the entry with `key`, if any.
#[verifier::external_body]
pub(crate) fn trigger_map_index_of(m: &IndexMap<u64, Vec<u32>>, key: u64) -> (r: Option<usize>)
    ensures
        match r {
            Some(i) => i < trigger_entries(*m).len() && trigger_entries(*m)[i as int].0 == key,
            None => !has_key(trigger_entries(*m), key),
        },
{
    m.get_index_of(&key)
}

/// Calls `IndexMap::get_index` on a position that is in range: the value there.
#[verifier::external_body]
pub(crate) fn trigger_map_get_index(m: &IndexMap<u64, Vec<u32>>, i: usize) -> (r: &Vec<u32>)
    requires
        i < trigger_entries(*m).len(),
    ensures
        *r == trigger_entries(*m)[i as int].1,
{
    m.get_index(i).unwrap().1
}

/// Calls `IndexMap::insert`: an existing key keeps its place and gets the new
/// value (the old one is returned); a new key is appended last.
#[verifier::external_body]
pub(crate) fn trigger_map_insert(m: &mut IndexMap<u64, Vec<u32>>, key: u64, value: Vec<u32>) -> (r: Option<Vec<u32>>)
    requires
        keys_distinct(trigger_entries(*old(m))),
    ensures
        has_key(trigger_entries(*old(m)), key) ==> {
            let i = key_index(trigger_entries(*old(m)), key);
            &&& trigger_entries(*final(m)) == trigger_entries(*old(m)).update(i, (key, value))
            &&& r == Some(trigger_entries(*old(m))[i].1)
        },
        !has_key(trigger_entries(*old(m)), key) ==> {
            &&& trigger_entries(*final(m)) == trigger_entries(*old(m)).push((key, value))
            &&& r == None::<Vec<u32>>
        },
{
    m.insert(key, value)
}

/// Calls `IndexMap::clear`: no entries remain.
#[verifier::external_body]
pub(crate) fn trigger_map_clear(m: &mut IndexMap<u64, Vec<u32>>)
    ensures
        trigger_entries(*final(m)) == Seq::<(u64, Vec<u32>)>::empty(),
{
    m.clear()
}

} // verus!
