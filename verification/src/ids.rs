//! Instance identifiers derived from definition identifiers. An identifier
//! is a UUID held as its 128-bit value read big-endian, so byte 0 of the
//! UUID is the top byte of the value.
use vstd::prelude::*;
use crate::position::Side;

verus! {

pub open spec fn side_tag_spec(side: Side) -> u8 {
    match side {
        Side::Player => 1,
        Side::Opponent => 2,
    }
}

/// The byte that marks an instance as belonging to `side`.
pub fn side_tag(side: Side) -> (r: u8)
    ensures
        r == side_tag_spec(side),
{
    match side {
        Side::Player => 1,
        Side::Opponent => 2,
    }
}

/// The identifier derived from `base`: byte 0 flipped by `tag`, bytes 1 to
/// 4 flipped by the bytes of `salt` from least significant up, and bytes 5
/// to 15 unchanged.
pub open spec fn salted_id(base: u128, tag: u8, salt: u32, r: u128) -> bool {
    &&& r >> 120 == (base >> 120) ^ (tag as u128)
    &&& (r >> 112) & 0xff == ((base >> 112) & 0xff) ^ ((salt as u128) & 0xff)
    &&& (r >> 104) & 0xff == ((base >> 104) & 0xff) ^ (((salt as u128) >> 8) & 0xff)
    &&& (r >> 96) & 0xff == ((base >> 96) & 0xff) ^ (((salt as u128) >> 16) & 0xff)
    &&& (r >> 88) & 0xff == ((base >> 88) & 0xff) ^ (((salt as u128) >> 24) & 0xff)
    &&& r & 0xff_ffff_ffff_ffff_ffff_ffff == base & 0xff_ffff_ffff_ffff_ffff_ffff
}

fn salt_bytes(base: u128, tag: u8, salt: u32) -> (r: u128)
    ensures
        salted_id(base, tag, salt, r),
{
    let s: u128 = salt as u128;
    let t: u128 = tag as u128;
    let mask: u128 = (t << 120u128) | ((s & 0xff) << 112u128) | (((s >> 8u128) & 0xff) << 104u128) | (((s >> 16u128)
        & 0xff) << 96u128) | (((s >> 24u128) & 0xff) << 88u128);
    let r = base ^ mask;
    assert(salted_id(base, tag, salt, r)) by (bit_vector)
        requires
            t == tag as u128,
            s == salt as u128,
            mask == (t << 120u128) | ((s & 0xff) << 112u128) | (((s >> 8u128) & 0xff) << 104u128) | (((s >> 16u128)
                & 0xff) << 96u128) | (((s >> 24u128) & 0xff) << 88u128),
            r == base ^ mask,
            t < 256,
            s < 0x1_0000_0000,
    ;
    r
}

/// The instance identifier of a unit built from the definition `base_uuid`
/// for `side`, distinguished by `salt`.
pub fn make_instance_id(base_uuid: u128, side: Side, salt: u32) -> (r: u128)
    ensures
        salted_id(base_uuid, side_tag_spec(side), salt, r),
{
    salt_bytes(base_uuid, side_tag(side), salt)
}

/// The instance identifier of an artifact built from `base_uuid` for
/// `side`: as for a unit, with the top bit of byte 0 flipped as well.
pub fn make_artifact_instance_id(base_uuid: u128, side: Side, salt: u32) -> (r: u128)
    ensures
        salted_id(base_uuid, side_tag_spec(side) ^ 0x80, salt, r),
{
    salt_bytes(base_uuid, side_tag(side) ^ 0x80, salt)
}

/// The instance identifier of an equipment item `equipment_uuid` worn by
/// the unit `owner_unit_instance` of `side`: the two identifiers combined
/// byte by byte with exclusive or, then salted as a unit's.
pub fn make_item_instance_id(equipment_uuid: u128, side: Side, owner_unit_instance: u128, salt: u32) -> (r: u128)
    ensures
        salted_id(equipment_uuid ^ owner_unit_instance, side_tag_spec(side), salt, r),
{
    salt_bytes(equipment_uuid ^ owner_unit_instance, side_tag(side), salt)
}

/// Salting is reversible, so identifiers derived from one base with
/// different tags or salts differ: units of the two sides, artifacts and
/// units, and units built with different salts never share an identifier.
pub proof fn lemma_salted_ids_differ(base: u128, t1: u8, s1: u32, r1: u128, t2: u8, s2: u32, r2: u128)
    requires
        salted_id(base, t1, s1, r1),
        salted_id(base, t2, s2, r2),
        t1 != t2 || s1 != s2,
    ensures
        r1 != r2,
{
    if r1 == r2 {
        assert(t1 == t2 && s1 == s2) by (bit_vector)
            requires
                salted_id(base, t1, s1, r1),
                salted_id(base, t2, s2, r2),
                r1 == r2,
        ;
    }
}

} // verus!
