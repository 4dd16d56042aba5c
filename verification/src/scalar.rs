//! The numeric scalar model.
//!
//! A column holds scalars of one numeric kind. The engine never computes with
//! the scalars themselves; it only needs to recognise an exact zero and to
//! carry values through unchanged, so a scalar is represented by its bit
//! pattern, stored in the low bits of a `u64`:
//!
//! - `Int32`: the two's-complement pattern of the 32-bit value, zero-extended.
//! - `Int64`: the two's-complement pattern of the 64-bit value.
//! - `Float32`: the IEEE-754 binary32 pattern, zero-extended.
//! - `Float64`: the IEEE-754 binary64 pattern.
//!
//! Under this representation "the value is exactly zero" is a pure statement
//! about bits: a two's-complement integer is zero exactly when every bit is
//! zero, and an IEEE-754 float compares equal to zero exactly for the two
//! patterns `+0.0` and `-0.0`, which agree on every bit but the sign bit.

use vstd::prelude::*;

verus! {

/// The numeric kinds a column of dense or sparse vectors may hold.
#[derive(Clone, Copy, Debug, PartialEq, Eq, Structural)]
pub enum NumericKind {
    Int32,
    Int64,
    Float32,
    Float64,
}

/// The element type of an incoming column as the engine sees it: one of the
/// four supported numeric kinds, or some other type, carried by name so that
/// a rejection can report the offending type.
#[derive(Clone, Debug, PartialEq, Eq)]
pub enum ColumnType {
    Int32,
    Int64,
    Float32,
    Float64,
    Other(String),
}

impl ColumnType {
    /// The numeric kind this column type denotes, where it denotes one.
    pub open spec fn spec_kind(self) -> Option<NumericKind> {
        match self {
            ColumnType::Int32 => Some(NumericKind::Int32),
            ColumnType::Int64 => Some(NumericKind::Int64),
            ColumnType::Float32 => Some(NumericKind::Float32),
            ColumnType::Float64 => Some(NumericKind::Float64),
            ColumnType::Other(_) => None,
        }
    }

    /// Classifies the column type, returning its numeric kind or `None` for
    /// an unsupported type.
    pub fn kind(&self) -> (k: Option<NumericKind>)
        ensures
            k == self.spec_kind(),
    {
        match self {
            ColumnType::Int32 => Some(NumericKind::Int32),
            ColumnType::Int64 => Some(NumericKind::Int64),
            ColumnType::Float32 => Some(NumericKind::Float32),
            ColumnType::Float64 => Some(NumericKind::Float64),
            ColumnType::Other(_) => None,
        }
    }
}

/// Whether `bits`, read as a scalar of kind `kind`, is exactly zero.
///
/// For the integer kinds this is "all value bits clear". For the float kinds
/// it is "all bits but the sign bit clear", which holds exactly for the
/// IEEE-754 patterns of `+0.0` and `-0.0` — the only patterns that compare
/// equal to zero (every other pattern is nonzero or NaN, and NaN compares
/// unequal to everything).
pub open spec fn spec_is_zero(kind: NumericKind, bits: u64) -> bool {
    match kind {
        NumericKind::Int32 => bits & 0xFFFF_FFFF == 0,
        NumericKind::Int64 => bits == 0,
        NumericKind::Float32 => bits & 0x7FFF_FFFF == 0,
        NumericKind::Float64 => bits & 0x7FFF_FFFF_FFFF_FFFF == 0,
    }
}

/// Decides [`spec_is_zero`] on a scalar's bit pattern.
pub fn is_zero(kind: NumericKind, bits: u64) -> (z: bool)
    ensures
        z == spec_is_zero(kind, bits),
{
    match kind {
        NumericKind::Int32 => bits & 0xFFFF_FFFF == 0,
        NumericKind::Int64 => bits == 0,
        NumericKind::Float32 => bits & 0x7FFF_FFFF == 0,
        NumericKind::Float64 => bits & 0x7FFF_FFFF_FFFF_FFFF == 0,
    }
}

/// The IEEE-754 binary64 pattern of `1.0`.
pub const F64_BITS_ONE: u64 = 0x3FF0_0000_0000_0000;

/// The IEEE-754 binary64 pattern of positive infinity.
pub const F64_BITS_POS_INFINITY: u64 = 0x7FF0_0000_0000_0000;

/// Whether `bits`, read as an IEEE-754 binary64 value, is a number that is
/// at least `1.0`.
///
/// On patterns with the sign bit clear, the numeric order of binary64 values
/// agrees with the unsigned order of their patterns, so the numbers at least
/// `1.0` are exactly the patterns from that of `1.0` up to that of positive
/// infinity. Patterns above positive infinity's, or with the sign bit set,
/// are NaN or negative and fail the comparison.
pub open spec fn spec_f64_bits_at_least_one(bits: u64) -> bool {
    F64_BITS_ONE <= bits <= F64_BITS_POS_INFINITY
}

/// Decides [`spec_f64_bits_at_least_one`] on a binary64 bit pattern.
pub fn f64_bits_at_least_one(bits: u64) -> (b: bool)
    ensures
        b == spec_f64_bits_at_least_one(bits),
{
    F64_BITS_ONE <= bits && bits <= F64_BITS_POS_INFINITY
}

} // verus!
