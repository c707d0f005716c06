//! Bit fields of 32-bit and 8-bit registers.
//!
//! A field is a run of bits in a register, given by a mask that starts at
//! bit 0 and by the number of bits that the mask is moved up. A field value
//! is a mask and a value that are already in place. All of them carry the
//! name `R` of the register they belong to, so that fields of different
//! registers cannot be mixed up.

use crate::tock::{
    field_is_set_u8, field_read_u32, field_read_u8, field_value_joined_u32, field_value_joined_u8,
    field_value_u32, field_value_u8,
};
use core::marker::PhantomData;
use core::ops::Add;
use vstd::prelude::*;
use vstd::std_specs::ops::AddSpecImpl;

verus! {

/// A field of a 32-bit register named `R`.
pub struct FieldU32<R> {
    mask: u32,
    shift: usize,
    register: PhantomData<R>,
}

impl<R> FieldU32<R> {
    /// What [`Self::mask`] returns.
    pub closed spec fn spec_mask(&self) -> u32 {
        self.mask
    }

    /// What [`Self::shift`] returns.
    pub closed spec fn spec_shift(&self) -> usize {
        self.shift
    }

    /// The field of `mask` moved up by `shift` bits.
    pub fn new(mask: u32, shift: usize) -> (r: Self)
        ensures
            r.mask() == mask,
            r.shift() == shift,
    {
        Self { mask, shift, register: PhantomData }
    }

    /// The mask of the field, before it is moved into place.
    #[verifier::when_used_as_spec(spec_mask)]
    pub fn mask(&self) -> (r: u32)
        ensures
            r == self.spec_mask(),
    {
        self.mask
    }

    /// The number of bits by which the mask is moved up.
    #[verifier::when_used_as_spec(spec_shift)]
    pub fn shift(&self) -> (r: usize)
        ensures
            r == self.spec_shift(),
    {
        self.shift
    }

    /// `value` as a value of this field: cut down to the mask and moved
    /// into place.
    pub fn val(&self, value: u32) -> (r: FieldValueU32<R>)
        requires
            self.shift() < 32,
        ensures
            r.mask() == self.mask() << self.shift(),
            r.value() == (value & self.mask()) << self.shift(),
    {
        FieldValueU32::new(self.mask, self.shift, value)
    }
}

/// A mask and a value in place in a 32-bit register named `R`. The value
/// has no bit outside the mask.
pub struct FieldValueU32<R> {
    mask: u32,
    value: u32,
    register: PhantomData<R>,
}

impl<R> Clone for FieldValueU32<R> {
    fn clone(&self) -> (r: Self)
        ensures
            r == *self,
    {
        *self
    }
}

impl<R> Copy for FieldValueU32<R> {}

impl<R> FieldValueU32<R> {
    #[verifier::type_invariant]
    spec fn within_mask(self) -> bool {
        self.value & self.mask == self.value
    }

    /// What [`Self::mask`] returns.
    pub closed spec fn spec_mask(&self) -> u32 {
        self.mask
    }

    /// What [`Self::value`] returns.
    pub closed spec fn spec_value(&self) -> u32 {
        self.value
    }

    /// The field value of `mask` and `value`, both moved up by `shift`
    /// bits, the value first cut down to the mask.
    pub fn new(mask: u32, shift: usize, value: u32) -> (r: Self)
        requires
            shift < 32,
        ensures
            r.mask() == mask << shift,
            r.value() == (value & mask) << shift,
    {
        let (mask_in_place, value_in_place) = field_value_u32(mask, shift, value);
        proof {
            assert(((value & mask) << shift) & (mask << shift) == (value & mask) << shift)
                by (bit_vector)
                requires
                    shift < 32,
            ;
        }
        FieldValueU32 { mask: mask_in_place, value: value_in_place, register: PhantomData }
    }

    /// The part of this value that lies in `field`, moved down to bit 0.
    pub fn read(&self, field: FieldU32<R>) -> (r: u32)
        requires
            field.shift() < 32,
        ensures
            r == (self.value() & (field.mask() << field.shift())) >> field.shift(),
    {
        field_read_u32(field.mask, field.shift, self.value)
    }

    /// The mask, in place.
    #[verifier::when_used_as_spec(spec_mask)]
    pub fn mask(&self) -> (r: u32)
        ensures
            r == self.spec_mask(),
    {
        self.mask
    }

    /// The value, in place. It has no bit outside the mask.
    #[verifier::when_used_as_spec(spec_value)]
    pub fn value(&self) -> (r: u32)
        ensures
            r == self.spec_value(),
            r & self.mask() == r,
    {
        proof {
            use_type_invariant(self);
        }
        self.value
    }

    /// Joins `other` into this value: masks and values are each combined
    /// by bitwise or.
    pub fn add_assign(&mut self, other: Self)
        ensures
            final(self).mask() == old(self).mask() | other.mask(),
            final(self).value() == old(self).value() | other.value(),
    {
        proof {
            use_type_invariant(&*self);
            use_type_invariant(&other);
            lemma_join_within_u32(self.mask, self.value, other.mask, other.value);
        }
        let (mask, value) = field_value_joined_u32(self.mask, self.value, other.mask, other.value);
        *self = FieldValueU32 { mask, value, register: PhantomData };
    }
}

impl<R> Add for FieldValueU32<R> {
    type Output = Self;

    /// The two values joined: masks and values are each combined by
    /// bitwise or.
    fn add(self, rhs: Self) -> (r: Self)
        ensures
            r.mask() == self.mask() | rhs.mask(),
            r.value() == self.value() | rhs.value(),
    {
        proof {
            use_type_invariant(&self);
            use_type_invariant(&rhs);
            lemma_join_within_u32(self.mask, self.value, rhs.mask, rhs.value);
            let mask = self.mask | rhs.mask;
            let value = self.value | rhs.value;
            assert(mask << 0usize == mask && (value & mask) << 0usize == value & mask)
                by (bit_vector);
        }
        FieldValueU32::new(self.mask | rhs.mask, 0, self.value | rhs.value)
    }
}

impl<R> AddSpecImpl for FieldValueU32<R> {
    open spec fn obeys_add_spec() -> bool {
        true
    }

    open spec fn add_req(self, rhs: Self) -> bool {
        true
    }

    closed spec fn add_spec(self, rhs: Self) -> Self {
        FieldValueU32 {
            mask: self.mask | rhs.mask,
            value: self.value | rhs.value,
            register: PhantomData,
        }
    }
}

/// Two values within their masks, joined, lie within the joined masks.
proof fn lemma_join_within_u32(mask: u32, value: u32, other_mask: u32, other_value: u32)
    requires
        value & mask == value,
        other_value & other_mask == other_value,
    ensures
        (value | other_value) & (mask | other_mask) == value | other_value,
{
    assert((value | other_value) & (mask | other_mask) == value | other_value) by (bit_vector)
        requires
            value & mask == value,
            other_value & other_mask == other_value,
    ;
}

/// A field of an 8-bit register named `R`.
pub struct FieldU8<R> {
    mask: u8,
    shift: usize,
    register: PhantomData<R>,
}

impl<R> FieldU8<R> {
    /// What [`Self::mask`] returns.
    pub closed spec fn spec_mask(&self) -> u8 {
        self.mask
    }

    /// What [`Self::shift`] returns.
    pub closed spec fn spec_shift(&self) -> usize {
        self.shift
    }

    /// The field of `mask` moved up by `shift` bits.
    pub fn new(mask: u8, shift: usize) -> (r: Self)
        ensures
            r.mask() == mask,
            r.shift() == shift,
    {
        Self { mask, shift, register: PhantomData }
    }

    /// The mask of the field, before it is moved into place.
    #[verifier::when_used_as_spec(spec_mask)]
    pub fn mask(&self) -> (r: u8)
        ensures
            r == self.spec_mask(),
    {
        self.mask
    }

    /// The number of bits by which the mask is moved up.
    #[verifier::when_used_as_spec(spec_shift)]
    pub fn shift(&self) -> (r: usize)
        ensures
            r == self.spec_shift(),
    {
        self.shift
    }

    /// `value` as a value of this field: cut down to the mask and moved
    /// into place.
    pub fn val(&self, value: u8) -> (r: FieldValueU8<R>)
        requires
            self.shift() < 8,
        ensures
            r.mask() == self.mask() << self.shift(),
            r.value() == (value & self.mask()) << self.shift(),
    {
        FieldValueU8::new(self.mask, self.shift, value)
    }

    /// Whether `value` has a bit of this field set.
    pub fn is_set(&self, value: u8) -> (r: bool)
        requires
            self.shift() < 8,
        ensures
            r == ((value & (self.mask() << self.shift())) != 0),
    {
        field_is_set_u8(self.mask, self.shift, value)
    }

    /// The part of `value` that lies in this field, moved down to bit 0.
    pub fn read(&self, value: u8) -> (r: u8)
        requires
            self.shift() < 8,
        ensures
            r == (value & (self.mask() << self.shift())) >> self.shift(),
    {
        field_read_u8(self.mask, self.shift, value)
    }
}

/// A mask and a value in place in an 8-bit register named `R`. The value
/// has no bit outside the mask.
pub struct FieldValueU8<R> {
    mask: u8,
    value: u8,
    register: PhantomData<R>,
}

impl<R> Clone for FieldValueU8<R> {
    fn clone(&self) -> (r: Self)
        ensures
            r == *self,
    {
        *self
    }
}

impl<R> Copy for FieldValueU8<R> {}

impl<R> FieldValueU8<R> {
    #[verifier::type_invariant]
    spec fn within_mask(self) -> bool {
        self.value & self.mask == self.value
    }

    /// What [`Self::mask`] returns.
    pub closed spec fn spec_mask(&self) -> u8 {
        self.mask
    }

    /// What [`Self::value`] returns.
    pub closed spec fn spec_value(&self) -> u8 {
        self.value
    }

    /// The field value of `mask` and `value`, both moved up by `shift`
    /// bits, the value first cut down to the mask.
    pub fn new(mask: u8, shift: usize, value: u8) -> (r: Self)
        requires
            shift < 8,
        ensures
            r.mask() == mask << shift,
            r.value() == (value & mask) << shift,
    {
        let (mask_in_place, value_in_place) = field_value_u8(mask, shift, value);
        proof {
            assert(((value & mask) << shift) & (mask << shift) == (value & mask) << shift)
                by (bit_vector)
                requires
                    shift < 8,
            ;
        }
        FieldValueU8 { mask: mask_in_place, value: value_in_place, register: PhantomData }
    }

    /// The part of this value that lies in `field`, moved down to bit 0.
    pub fn read(&self, field: FieldU8<R>) -> (r: u8)
        requires
            field.shift() < 8,
        ensures
            r == (self.value() & (field.mask() << field.shift())) >> field.shift(),
    {
        field_read_u8(field.mask, field.shift, self.value)
    }

    /// The mask, in place.
    #[verifier::when_used_as_spec(spec_mask)]
    pub fn mask(&self) -> (r: u8)
        ensures
            r == self.spec_mask(),
    {
        self.mask
    }

    /// The value, in place. It has no bit outside the mask.
    #[verifier::when_used_as_spec(spec_value)]
    pub fn value(&self) -> (r: u8)
        ensures
            r == self.spec_value(),
            r & self.mask() == r,
    {
        proof {
            use_type_invariant(self);
        }
        self.value
    }

    /// Joins `other` into this value: masks and values are each combined
    /// by bitwise or.
    pub fn add_assign(&mut self, other: Self)
        ensures
            final(self).mask() == old(self).mask() | other.mask(),
            final(self).value() == old(self).value() | other.value(),
    {
        proof {
            use_type_invariant(&*self);
            use_type_invariant(&other);
            lemma_join_within_u8(self.mask, self.value, other.mask, other.value);
        }
        let (mask, value) = field_value_joined_u8(self.mask, self.value, other.mask, other.value);
        *self = FieldValueU8 { mask, value, register: PhantomData };
    }
}

impl<R> Add for FieldValueU8<R> {
    type Output = Self;

    /// The two values joined: masks and values are each combined by
    /// bitwise or.
    fn add(self, rhs: Self) -> (r: Self)
        ensures
            r.mask() == self.mask() | rhs.mask(),
            r.value() == self.value() | rhs.value(),
    {
        proof {
            use_type_invariant(&self);
            use_type_invariant(&rhs);
            lemma_join_within_u8(self.mask, self.value, rhs.mask, rhs.value);
            let mask = self.mask | rhs.mask;
            let value = self.value | rhs.value;
            assert(mask << 0usize == mask && (value & mask) << 0usize == value & mask)
                by (bit_vector);
        }
        FieldValueU8::new(self.mask | rhs.mask, 0, self.value | rhs.value)
    }
}

impl<R> AddSpecImpl for FieldValueU8<R> {
    open spec fn obeys_add_spec() -> bool {
        true
    }

    open spec fn add_req(self, rhs: Self) -> bool {
        true
    }

    closed spec fn add_spec(self, rhs: Self) -> Self {
        FieldValueU8 {
            mask: self.mask | rhs.mask,
            value: self.value | rhs.value,
            register: PhantomData,
        }
    }
}

/// Two values within their masks, joined, lie within the joined masks.
proof fn lemma_join_within_u8(mask: u8, value: u8, other_mask: u8, other_value: u8)
    requires
        value & mask == value,
        other_value & other_mask == other_value,
    ensures
        (value | other_value) & (mask | other_mask) == value | other_value,
{
    assert((value | other_value) & (mask | other_mask) == value | other_value) by (bit_vector)
        requires
            value & mask == value,
            other_value & other_mask == other_value,
    ;
}

/// A copy of the content of an 8-bit register named `R`, kept in memory.
pub struct LocalRegisterCopyU8<R = ()> {
    value: u8,
    register: PhantomData<R>,
}

impl<R> Clone for LocalRegisterCopyU8<R> {
    fn clone(&self) -> (r: Self)
        ensures
            r == *self,
    {
        *self
    }
}

impl<R> Copy for LocalRegisterCopyU8<R> {}

impl<R> LocalRegisterCopyU8<R> {
    /// What [`Self::get`] returns.
    pub closed spec fn spec_get(&self) -> u8 {
        self.value
    }

    /// A copy that holds `value`.
    pub fn new(value: u8) -> (r: Self)
        ensures
            r.get() == value,
    {
        LocalRegisterCopyU8 { value, register: PhantomData }
    }

    /// The content of the copy.
    #[verifier::when_used_as_spec(spec_get)]
    pub fn get(&self) -> (r: u8)
        ensures
            r == self.spec_get(),
    {
        self.value
    }

    /// Replaces the content of the copy by `value`.
    pub fn set(&mut self, value: u8)
        ensures
            final(self).get() == value,
    {
        self.value = value;
    }

    /// The part of the content that lies in `field`, moved down to bit 0.
    pub fn read(&self, field: FieldU8<R>) -> (r: u8)
        requires
            field.shift() < 8,
        ensures
            r == (self.get() & (field.mask() << field.shift())) >> field.shift(),
    {
        field.read(self.get())
    }

    /// Whether the content has a bit of `field` set.
    pub fn is_set(&self, field: FieldU8<R>) -> (r: bool)
        requires
            field.shift() < 8,
        ensures
            r == ((self.get() & (field.mask() << field.shift())) != 0),
    {
        field.is_set(self.get())
    }
}

} // verus!
