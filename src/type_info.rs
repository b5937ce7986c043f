//! Type descriptors of the temporal wire kinds, codec errors, and the choice of
//! descriptor for an outbound parameter.
use vstd::prelude::*;

verus! {

/// The temporal wire kinds.
#[derive(Clone, Copy, Debug, PartialEq, Eq, Structural)]
pub enum DataType {
    /// Classic fixed 8-byte date and time.
    DateTime,
    /// Nullable form of the classic date and time.
    DateTimeN,
    /// Date and time with a scale-dependent fractional field.
    DateTime2N,
    /// Date and time in UTC with a UTC offset in minutes.
    DateTimeOffsetN,
    /// Time of day alone.
    TimeN,
    /// Date alone.
    DateN,
}

/// A parsed type descriptor: the wire kind, the nominal slot size in bytes,
/// and the scale (digits of fractional seconds, 0..=7).
#[derive(Clone, Copy, Debug, PartialEq, Eq, Structural)]
pub struct TypeInfo {
    pub ty: DataType,
    pub size: u8,
    pub scale: u8,
}

/// Why a value could not be decoded or encoded.
#[derive(Clone, Copy, Debug, PartialEq, Eq, Structural)]
pub enum CodecError {
    /// Fewer bytes than the layout requires.
    Truncated,
    /// A scale outside 0..=7.
    InvalidScale,
    /// A value outside the representable range.
    Overflow,
    /// A descriptor whose kind the invoked codec does not handle.
    UnsupportedVariant,
}

/// The largest scale.
pub const MAX_SCALE: u8 = 7;

impl TypeInfo {
    pub fn new(ty: DataType, size: u8) -> (r: TypeInfo)
        ensures
            r == (TypeInfo { ty, size, scale: 0 }),
    {
        TypeInfo { ty, size, scale: 0 }
    }
}

/// Descriptor for binding a time of day: time-only at the largest scale.
pub fn time_type_info() -> (r: TypeInfo)
    ensures
        r == (TypeInfo { ty: DataType::TimeN, size: 8, scale: MAX_SCALE }),
{
    TypeInfo { ty: DataType::TimeN, size: 8, scale: MAX_SCALE }
}

/// Descriptor for binding a date: date-only, in a 3-byte slot.
pub fn date_type_info() -> (r: TypeInfo)
    ensures
        r == (TypeInfo { ty: DataType::DateN, size: 3, scale: 0 }),
{
    TypeInfo::new(DataType::DateN, 3)
}

/// Descriptor for binding a date and time: the classic nullable kind.
pub fn datetime_type_info() -> (r: TypeInfo)
    ensures
        r == (TypeInfo { ty: DataType::DateTimeN, size: 8, scale: 0 }),
{
    TypeInfo::new(DataType::DateTimeN, 8)
}

/// Whether a column of this descriptor can hold a date and time.
pub fn datetime_compatible(ti: &TypeInfo) -> (r: bool)
    ensures
        r == (ti.ty == DataType::DateTime || ti.ty == DataType::DateTimeN || ti.ty
            == DataType::DateTime2N),
{
    match ti.ty {
        DataType::DateTime | DataType::DateTimeN | DataType::DateTime2N => true,
        _ => false,
    }
}

/// Descriptor for binding a date and time with a UTC offset, at the largest scale.
pub fn offset_datetime_type_info() -> (r: TypeInfo)
    ensures
        r == (TypeInfo { ty: DataType::DateTimeOffsetN, size: 8, scale: MAX_SCALE }),
{
    TypeInfo { ty: DataType::DateTimeOffsetN, size: 8, scale: MAX_SCALE }
}

} // verus!
