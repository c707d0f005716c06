//! The calls into `tock_registers`.
//!
//! Each function here makes one computation of that crate available on
//! plain integers. Verus does not look into `tock_registers`: what is
//! claimed below about its results is read off its source and believed.
//! The register name is of no consequence to any of the computations, so the
//! calls are made with the unit name `()`.

use tock_registers::fields::{Field, FieldValue};
use vstd::prelude::*;

verus! {

/// `FieldValue::<u32, R>::new(mask, shift, value)`, as its mask and value.
/// The mask comes out moved up by `shift` bits; the value is first cut down
/// to the bits of `mask` and then moved up likewise.
#[verifier::external_body]
pub(crate) fn field_value_u32(mask: u32, shift: usize, value: u32) -> (r: (u32, u32))
    requires
        shift < 32,
    ensures
        r.0 == mask << shift,
        r.1 == (value & mask) << shift,
{
    let made = FieldValue::<u32, ()>::new(mask, shift, value);
    (made.mask(), made.value)
}

/// `FieldValue::<u8, R>::new(mask, shift, value)`, as its mask and value.
/// The mask comes out moved up by `shift` bits; the value is first cut down
/// to the bits of `mask` and then moved up likewise.
#[verifier::external_body]
pub(crate) fn field_value_u8(mask: u8, shift: usize, value: u8) -> (r: (u8, u8))
    requires
        shift < 8,
    ensures
        r.0 == mask << shift,
        r.1 == (value & mask) << shift,
{
    let made = FieldValue::<u8, ()>::new(mask, shift, value);
    (made.mask(), made.value)
}

/// `Field::<u32, R>::read(val)` on the field of `mask` and `shift`: the bits
/// of `val` under the mask moved up by `shift`, moved back down.
#[verifier::external_body]
pub(crate) fn field_read_u32(mask: u32, shift: usize, val: u32) -> (r: u32)
    requires
        shift < 32,
    ensures
        r == (val & (mask << shift)) >> shift,
{
    Field::<u32, ()>::new(mask, shift).read(val)
}

/// `Field::<u8, R>::read(val)` on the field of `mask` and `shift`: the bits
/// of `val` under the mask moved up by `shift`, moved back down.
#[verifier::external_body]
pub(crate) fn field_read_u8(mask: u8, shift: usize, val: u8) -> (r: u8)
    requires
        shift < 8,
    ensures
        r == (val & (mask << shift)) >> shift,
{
    Field::<u8, ()>::new(mask, shift).read(val)
}

/// `Field::<u8, R>::is_set(val)` on the field of `mask` and `shift`: whether
/// `val` has a bit under the mask moved up by `shift`.
#[verifier::external_body]
pub(crate) fn field_is_set_u8(mask: u8, shift: usize, val: u8) -> (r: bool)
    requires
        shift < 8,
    ensures
        r == ((val & (mask << shift)) != 0),
{
    Field::<u8, ()>::new(mask, shift).is_set(val)
}

/// `+=` on two `FieldValue<u32, R>`: masks and values are each joined by
/// bitwise or. The two field values are given by their masks and values,
/// each value within its mask.
#[verifier::external_body]
pub(crate) fn field_value_joined_u32(mask: u32, value: u32, other_mask: u32, other_value: u32) -> (r:
    (u32, u32))
    requires
        value & mask == value,
        other_value & other_mask == other_value,
    ensures
        r.0 == mask | other_mask,
        r.1 == value | other_value,
{
    let mut joined = FieldValue::<u32, ()>::new(mask, 0, value);
    joined += FieldValue::<u32, ()>::new(other_mask, 0, other_value);
    (joined.mask(), joined.value)
}

/// `+=` on two `FieldValue<u8, R>`: masks and values are each joined by
/// bitwise or. The two field values are given by their masks and values,
/// each value within its mask.
#[verifier::external_body]
pub(crate) fn field_value_joined_u8(mask: u8, value: u8, other_mask: u8, other_value: u8) -> (r: (
    u8,
    u8,
))
    requires
        value & mask == value,
        other_value & other_mask == other_value,
    ensures
        r.0 == mask | other_mask,
        r.1 == value | other_value,
{
    let mut joined = FieldValue::<u8, ()>::new(mask, 0, value);
    joined += FieldValue::<u8, ()>::new(other_mask, 0, other_value);
    (joined.mask(), joined.value)
}

} // verus!
