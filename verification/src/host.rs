use vstd::prelude::*;

verus! {

/// A numeric leaf of the generic host tree, classified the way the host
/// stores it before hand-off.
#[derive(Clone, Copy, Debug, PartialEq, Eq)]
pub enum Number {
    /// An integer representable in the signed 64-bit range.
    Signed(i64),
    /// An integer representable in the unsigned, but not the signed,
    /// 64-bit range.
    Unsigned(u64),
    /// A non-integral number, truncated by the host to the unsigned 64-bit
    /// range by casting; the precision loss is accepted, not reported.
    Truncated(u64),
}

/// The universal generic tree into which a structured host value is
/// projected before conversion: null, boolean, number, string, array or
/// object. Object entries carry their source order, which conversion
/// discards in favour of lexicographic key order.
#[derive(Debug, PartialEq, Eq)]
pub enum HostValue {
    Null,
    Bool(bool),
    Num(Number),
    Text(String),
    Array(Vec<HostValue>),
    Object(Vec<(String, HostValue)>),
}

} // verus!
