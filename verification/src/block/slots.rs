//! The `slab` crate's `Slab`, as the registries use it: a table that
//! hands out a key with each value it takes in.
//!
//! A slab keeps its values in a row of slots and links the vacant slots
//! into a list. Three things are told of a slab here: what it holds under
//! which key, the number of its slots, and the key that its next
//! insertion will use, which is the first vacant slot of the list, or
//! the number of slots if no slot is vacant.

use slab::Slab;
use vstd::prelude::*;

use crate::block::texture::MaterialData;

verus! {

#[verifier::external_type_specification]
#[verifier::external_body]
#[verifier::reject_recursive_types(T)]
pub struct ExSlab<T>(Slab<T>);

/// The keys of a unit slab that currently hold a value.
pub uninterp spec fn unit_slab_keys(s: Slab<()>) -> Set<usize>;

/// The key that the next insertion into a unit slab will be given.
pub uninterp spec fn unit_slab_next(s: Slab<()>) -> usize;

/// The number of slots of a unit slab, occupied and vacant.
pub uninterp spec fn unit_slab_slots(s: Slab<()>) -> usize;

/// `Slab::new`: the new slab has no slot and holds no value; its first
/// key will be 0.
#[verifier::external_body]
pub(crate) fn unit_slab_new() -> (s: Slab<()>)
    ensures
        unit_slab_keys(s) == Set::<usize>::empty(),
        unit_slab_next(s) == 0,
        unit_slab_slots(s) == 0,
{
    Slab::new()
}

/// `Slab::vacant_key`: the key that the next insertion will use.
#[verifier::external_body]
pub(crate) fn unit_slab_vacant_key(s: &Slab<()>) -> (key: usize)
    ensures
        key == unit_slab_next(*s),
{
    s.vacant_key()
}

/// `Slab::insert`: stores the value under the key that was next and
/// returns that key; every other key keeps its state. If the key was the
/// number of slots, a slot is added for it and the next key is the one
/// after it; otherwise the number of slots stays. The bound on the slots
/// keeps the slab far from the size at which `insert` panics.
#[verifier::external_body]
pub(crate) fn unit_slab_insert(s: &mut Slab<()>) -> (key: usize)
    requires
        unit_slab_slots(*old(s)) < u32::MAX,
    ensures
        key == unit_slab_next(*old(s)),
        unit_slab_keys(*final(s)) == unit_slab_keys(*old(s)).insert(key),
        key == unit_slab_slots(*old(s)) ==> unit_slab_slots(*final(s)) == key + 1
            && unit_slab_next(*final(s)) == key + 1,
        key != unit_slab_slots(*old(s)) ==> unit_slab_slots(*final(s)) == unit_slab_slots(
            *old(s),
        ),
{
    s.insert(())
}

/// What a slab of material families holds under each occupied key.
pub uninterp spec fn family_slab_entries(s: Slab<MaterialData>) -> Map<usize, MaterialData>;

/// The key that the next insertion into a slab of material families will
/// be given.
pub uninterp spec fn family_slab_next(s: Slab<MaterialData>) -> usize;

/// The number of slots of a slab of material families, occupied and
/// vacant.
pub uninterp spec fn family_slab_slots(s: Slab<MaterialData>) -> usize;

/// `Slab::new`: the new slab has no slot and holds no value; its first
/// key will be 0.
#[verifier::external_body]
pub(crate) fn family_slab_new() -> (s: Slab<MaterialData>)
    ensures
        forall|key: usize| !family_slab_entries(s).contains_key(key),
        family_slab_next(s) == 0,
        family_slab_slots(s) == 0,
{
    Slab::new()
}

/// `Slab::vacant_key`: the key that the next insertion will use.
#[verifier::external_body]
pub(crate) fn family_slab_vacant_key(s: &Slab<MaterialData>) -> (key: usize)
    ensures
        key == family_slab_next(*s),
{
    s.vacant_key()
}

/// `Slab::insert`: stores the value under the key that was next and
/// returns that key; every other key keeps what it held. If the key was
/// the number of slots, a slot is added for it and the next key is the
/// one after it; otherwise the number of slots stays. The bound on the
/// slots keeps the slab far from the size at which `insert` panics.
#[verifier::external_body]
pub(crate) fn family_slab_insert(s: &mut Slab<MaterialData>, value: MaterialData) -> (key: usize)
    requires
        family_slab_slots(*old(s)) < u16::MAX,
    ensures
        key == family_slab_next(*old(s)),
        family_slab_entries(*final(s)) == family_slab_entries(*old(s)).insert(key, value),
        key == family_slab_slots(*old(s)) ==> family_slab_slots(*final(s)) == key + 1
            && family_slab_next(*final(s)) == key + 1,
        key != family_slab_slots(*old(s)) ==> family_slab_slots(*final(s)) == family_slab_slots(
            *old(s),
        ),
{
    s.insert(value)
}

/// `Slab::get`: the value stored under the key, if the key is occupied.
#[verifier::external_body]
pub(crate) fn family_slab_get(s: &Slab<MaterialData>, key: usize) -> (r: Option<MaterialData>)
    ensures
        r == (if family_slab_entries(*s).contains_key(key) {
            Some(family_slab_entries(*s)[key])
        } else {
            None
        }),
{
    s.get(key).copied()
}

/// `Slab::get_mut`: the value stored under the key, if the key is
/// occupied. What the caller leaves in it is what the slab then holds
/// under the key; nothing else about the slab changes.
#[verifier::external_body]
pub(crate) fn family_slab_get_mut(s: &mut Slab<MaterialData>, key: usize) -> (r: Option<
    &mut MaterialData,
>)
    ensures
        !family_slab_entries(*old(s)).contains_key(key) ==> r is None && *final(s) == *old(s),
        family_slab_entries(*old(s)).contains_key(key) ==> r is Some && *r.unwrap()
            == family_slab_entries(*old(s))[key] && family_slab_entries(*final(s))
            == family_slab_entries(*old(s)).insert(key, *final(r.unwrap()))
            && family_slab_next(*final(s)) == family_slab_next(*old(s)) && family_slab_slots(
            *final(s),
        ) == family_slab_slots(*old(s)),
{
    s.get_mut(key)
}

} // verus!
