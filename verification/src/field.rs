use vstd::prelude::*;

verus! {

/// High 128 bits of the order of the scalar prime field of the BN254 curve,
/// the field over which every circuit scalar ranges.
pub const FIELD_ORDER_HI: u128 = 0x30644E72E131A029B85045B68181585D;

/// Low 128 bits of the order of the scalar prime field of the BN254 curve.
pub const FIELD_ORDER_LO: u128 = 0x2833E84879B9709143E1F593F0000001;

/// The order of the scalar field as one mathematical integer.
pub open spec fn field_order() -> nat {
    0x30644E72E131A029B85045B68181585D2833E84879B9709143E1F593F0000001nat
}

/// An element of the scalar prime field, stored canonically (reduced modulo
/// [`field_order`]) as the integer `hi * 2^128 + lo`.
#[derive(Clone, Copy, PartialEq, Eq, Structural, Debug)]
pub struct FieldElement {
    pub hi: u128,
    pub lo: u128,
}

/// The value of a signed integer embedded into the field: a non-negative
/// integer embeds as itself, a negative one by the additive-inverse
/// convention, as the field order minus its magnitude.
pub open spec fn embed_signed(x: int) -> int {
    if x >= 0 {
        x
    } else {
        field_order() + x
    }
}

impl FieldElement {
    /// The mathematical value of this element.
    pub open spec fn value(self) -> nat {
        (self.hi * 0x100000000000000000000000000000000nat + self.lo) as nat
    }

    /// Canonical form: the stored value is reduced modulo the field order.
    pub open spec fn wf(self) -> bool {
        self.value() < field_order()
    }

    /// The field element with a given value below `2^128`.
    pub fn from_u128(x: u128) -> (r: FieldElement)
        ensures
            r.wf(),
            r.value() == x,
    {
        FieldElement { hi: 0, lo: x }
    }

    /// The field element with a given value below `2^64`.
    pub fn from_u64(x: u64) -> (r: FieldElement)
        ensures
            r.wf(),
            r.value() == x,
    {
        FieldElement { hi: 0, lo: x as u128 }
    }

    /// The embedding of a boolean: `true` maps to one, `false` to zero.
    pub fn from_bool(b: bool) -> (r: FieldElement)
        ensures
            r.wf(),
            r.value() == (if b { 1int } else { 0int }),
    {
        FieldElement { hi: 0, lo: if b { 1 } else { 0 } }
    }

    /// The embedding of a signed integer: non-negative values map to
    /// themselves, negative ones to the field order minus their magnitude.
    pub fn from_i128(x: i128) -> (r: FieldElement)
        ensures
            r.wf(),
            r.value() == embed_signed(x as int),
    {
        if x >= 0 {
            FieldElement { hi: 0, lo: x as u128 }
        } else {
            let m: u128 = if x == i128::MIN {
                0x80000000000000000000000000000000u128
            } else {
                (-x) as u128
            };
            if FIELD_ORDER_LO >= m {
                FieldElement { hi: FIELD_ORDER_HI, lo: FIELD_ORDER_LO - m }
            } else {
                FieldElement { hi: FIELD_ORDER_HI - 1, lo: u128::MAX - m + 1 + FIELD_ORDER_LO }
            }
        }
    }

    /// The embedding of a signed 64-bit integer, by the same convention as
    /// [`FieldElement::from_i128`].
    pub fn from_i64(x: i64) -> (r: FieldElement)
        ensures
            r.wf(),
            r.value() == embed_signed(x as int),
    {
        Self::from_i128(x as i128)
    }
}

} // verus!
