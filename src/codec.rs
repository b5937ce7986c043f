//! Byte layouts of the temporal wire kinds, and their encoders and decoders.
use crate::bytes::{
    int_le_bytes, le_bytes, le_val, lemma_le_val_bound, lemma_pow256_values, pow256, read_int_le,
    read_uint_le, signed_of, twos, uint_le_bytes,
};
use crate::calendar::{
    date_of_day, day_number, lemma_day_number_range, lemma_time_of_nanos, nanos_of_day,
    time_of_nanos, CalendarDate, CalendarDateTime, OffsetDateTime, TimeOfDay, DAY_NUMBER_END,
    NANOS_PER_DAY,
};
use crate::type_info::{CodecError, DataType, TypeInfo, MAX_SCALE};
use vstd::arithmetic::div_mod::lemma_fundamental_div_mod_converse;
use vstd::prelude::*;
use vstd::slice::slice_subrange;

verus! {

/// Width in bytes of the fractional-seconds field at scale `s`.
pub open spec fn frac_width(s: int) -> int {
    if s <= 2 {
        3
    } else if s <= 4 {
        4
    } else {
        5
    }
}

/// Nanoseconds in one tick at scale `s`: `10^(9 - s)`.
pub open spec fn tick_nanos(s: int) -> int {
    if s == 0 {
        1_000_000_000
    } else if s == 1 {
        100_000_000
    } else if s == 2 {
        10_000_000
    } else if s == 3 {
        1_000_000
    } else if s == 4 {
        100_000
    } else if s == 5 {
        10_000
    } else if s == 6 {
        1_000
    } else {
        100
    }
}

/// Width in bytes of the day-count field.
pub const DATE_WIDTH: usize = 3;

/// Width in bytes of the classic date-and-time layout.
pub const LEGACY_WIDTH: usize = 8;

/// Width in bytes of the UTC-offset field.
pub const OFFSET_WIDTH: usize = 2;

/// Day number (counted from 0001-01-01) of 1900-01-01, the classic layout's epoch.
pub const LEGACY_EPOCH: i64 = 693_595;

/// Largest magnitude of a UTC offset, in minutes.
pub const MAX_OFFSET_MINUTES: i16 = 840;

/// Milliseconds in one day.
pub const MILLIS_PER_DAY: u64 = 86_400_000;

// ---------------------------------------------------------------- layouts

/// Time-only layout: ticks of `10^-s` seconds since midnight, rounded toward zero.
pub open spec fn time_bytes(t: TimeOfDay, s: int) -> Seq<u8> {
    le_bytes((nanos_of_day(t) / tick_nanos(s)) as nat, frac_width(s) as nat)
}

/// Date-only layout: days since 0001-01-01 in 3 bytes.
pub open spec fn date_bytes(d: CalendarDate) -> Seq<u8> {
    le_bytes(day_number(d) as nat, 3)
}

/// Extended layout: the time-only field, then the date-only field.
pub open spec fn extended_bytes(v: CalendarDateTime, s: int) -> Seq<u8> {
    time_bytes(v.time, s) + date_bytes(v.date)
}

/// Offset layout: the extended layout of the UTC instant, then the offset in
/// minutes as a signed 2-byte field.
pub open spec fn offset_bytes(v: OffsetDateTime, s: int) -> Seq<u8> {
    extended_bytes(v.utc, s) + le_bytes(twos(v.offset_minutes as int, 2), 2)
}

/// Ticks of 1/300 second since midnight, from whole milliseconds, rounded down.
pub open spec fn third_seconds(t: TimeOfDay) -> int {
    (nanos_of_day(t) / 1_000_000) * 3 / 10
}

/// Classic layout: signed 4-byte days since 1900-01-01, then unsigned 4-byte
/// third-seconds since midnight.
pub open spec fn legacy_bytes(v: CalendarDateTime) -> Seq<u8> {
    le_bytes(twos(day_number(v.date) - LEGACY_EPOCH, 4), 4) + le_bytes(
        third_seconds(v.time) as nat,
        4,
    )
}

// ---------------------------------------------------------------- decoding

/// Decoding of the time-only layout at scale `s`.
pub open spec fn time_decode(b: Seq<u8>, s: int) -> Result<TimeOfDay, CodecError> {
    if s > 7 {
        Err(CodecError::InvalidScale)
    } else if b.len() < frac_width(s) {
        Err(CodecError::Truncated)
    } else {
        let n = le_val(b.take(frac_width(s))) * tick_nanos(s);
        if n < NANOS_PER_DAY {
            Ok(time_of_nanos(n))
        } else {
            Err(CodecError::Overflow)
        }
    }
}

/// Decoding of the date-only layout.
pub open spec fn date_decode(b: Seq<u8>) -> Result<CalendarDate, CodecError> {
    if b.len() < 3 {
        Err(CodecError::Truncated)
    } else {
        let n = le_val(b.take(3));
        if n < DAY_NUMBER_END {
            Ok(date_of_day(n as int))
        } else {
            Err(CodecError::Overflow)
        }
    }
}

/// The bytes of an encoder's result, or its error.
pub open spec fn bytes_view(r: Result<Vec<u8>, CodecError>) -> Result<Seq<u8>, CodecError> {
    match r {
        Ok(v) => Ok(v@),
        Err(e) => Err(e),
    }
}

/// Encoding of the time-only layout at scale `s`.
pub open spec fn time_encode(t: TimeOfDay, s: int) -> Result<Seq<u8>, CodecError> {
    if s > 7 {
        Err(CodecError::InvalidScale)
    } else {
        Ok(time_bytes(t, s))
    }
}

proof fn lemma_ticks_fit(s: int, n: int)
    requires
        0 <= s <= 7,
        0 <= n < NANOS_PER_DAY,
    ensures
        0 <= n / tick_nanos(s) < pow256(frac_width(s) as nat),
        (n / tick_nanos(s)) * tick_nanos(s) <= n,
{
    lemma_pow256_values();
    lemma_fundamental_div_mod_converse(n, tick_nanos(s), n / tick_nanos(s), n % tick_nanos(s));
}

proof fn lemma_tick_product(s: int, t: int)
    requires
        0 <= s <= 7,
        0 <= t < pow256(frac_width(s) as nat),
    ensures
        0 <= t * tick_nanos(s) < 0x1_0000_0000_0000_0000,
{
    lemma_pow256_values();
}

/// Field width and tick length at a scale.
fn scale_layout(scale: u8) -> (r: (usize, u64))
    requires
        scale <= 7,
    ensures
        r.0 as int == frac_width(scale as int),
        r.1 as int == tick_nanos(scale as int),
{
    match scale {
        0 => (3, 1_000_000_000),
        1 => (3, 100_000_000),
        2 => (3, 10_000_000),
        3 => (4, 1_000_000),
        4 => (4, 100_000),
        5 => (5, 10_000),
        6 => (5, 1_000),
        _ => (5, 100),
    }
}

/// Writes the time-only field at a scale known to be valid.
fn time_field(t: &TimeOfDay, scale: u8) -> (r: Vec<u8>)
    requires
        t.wf(),
        scale <= 7,
    ensures
        r@ == time_bytes(*t, scale as int),
{
    let (w, tick) = scale_layout(scale);
    let n = t.nanos_since_midnight();
    proof {
        lemma_time_of_nanos(*t);
        lemma_ticks_fit(scale as int, n as int);
    }
    uint_le_bytes(n / tick, w)
}

/// Encodes a time of day in the time-only layout at `scale`, rounding toward
/// zero to the scale's resolution.
pub fn encode_time_only(t: &TimeOfDay, scale: u8) -> (r: Result<Vec<u8>, CodecError>)
    requires
        t.wf(),
    ensures
        bytes_view(r) == time_encode(*t, scale as int),
{
    if scale > MAX_SCALE {
        return Err(CodecError::InvalidScale);
    }
    Ok(time_field(t, scale))
}

/// Decodes the time-only layout at `scale`.
pub fn decode_time_only(b: &[u8], scale: u8) -> (r: Result<TimeOfDay, CodecError>)
    ensures
        r == time_decode(b@, scale as int),
{
    if scale > MAX_SCALE {
        return Err(CodecError::InvalidScale);
    }
    let (w, tick) = scale_layout(scale);
    if b.len() < w {
        return Err(CodecError::Truncated);
    }
    let ticks = read_uint_le(b, w);
    proof {
        lemma_le_val_bound(b@.take(w as int));
        lemma_tick_product(scale as int, ticks as int);
    }
    match TimeOfDay::from_nanos_since_midnight(ticks * tick) {
        Some(t) => Ok(t),
        None => Err(CodecError::Overflow),
    }
}

/// Encodes a date in the date-only layout.
pub fn encode_date_only(d: &CalendarDate) -> (r: Vec<u8>)
    requires
        d.wf(),
    ensures
        r@ == date_bytes(*d),
{
    proof {
        lemma_day_number_range(*d);
        lemma_pow256_values();
    }
    uint_le_bytes(d.day_number() as u64, DATE_WIDTH)
}

/// Decodes the date-only layout.
pub fn decode_date_only(b: &[u8]) -> (r: Result<CalendarDate, CodecError>)
    ensures
        r == date_decode(b@),
{
    if b.len() < DATE_WIDTH {
        return Err(CodecError::Truncated);
    }
    let n = read_uint_le(b, DATE_WIDTH);
    proof {
        lemma_le_val_bound(b@.take(3));
        lemma_pow256_values();
    }
    match CalendarDate::from_day_number(n as u32) {
        Some(d) => Ok(d),
        None => Err(CodecError::Overflow),
    }
}

/// Decoding of the extended layout at scale `s`.
pub open spec fn extended_decode(b: Seq<u8>, s: int) -> Result<CalendarDateTime, CodecError> {
    if s > 7 {
        Err(CodecError::InvalidScale)
    } else if b.len() < frac_width(s) + 3 {
        Err(CodecError::Truncated)
    } else {
        match (time_decode(b, s), date_decode(b.subrange(frac_width(s), frac_width(s) + 3))) {
            (Ok(t), Ok(d)) => Ok(CalendarDateTime { date: d, time: t }),
            _ => Err(CodecError::Overflow),
        }
    }
}

/// Encoding of the extended layout at scale `s`.
pub open spec fn extended_encode(v: CalendarDateTime, s: int) -> Result<Seq<u8>, CodecError> {
    if s > 7 {
        Err(CodecError::InvalidScale)
    } else {
        Ok(extended_bytes(v, s))
    }
}

/// Decoding of the offset layout at scale `s`.
pub open spec fn offset_decode(b: Seq<u8>, s: int) -> Result<OffsetDateTime, CodecError> {
    if s > 7 {
        Err(CodecError::InvalidScale)
    } else if b.len() < frac_width(s) + 5 {
        Err(CodecError::Truncated)
    } else {
        match extended_decode(b, s) {
            Ok(u) => {
                let off = signed_of(le_val(b.subrange(frac_width(s) + 3, frac_width(s) + 5)), 2);
                if -840 <= off <= 840 {
                    Ok(OffsetDateTime { utc: u, offset_minutes: off as i16 })
                } else {
                    Err(CodecError::Overflow)
                }
            },
            Err(e) => Err(e),
        }
    }
}

/// Encoding of the offset layout at scale `s`.
pub open spec fn offset_encode(v: OffsetDateTime, s: int) -> Result<Seq<u8>, CodecError> {
    if s > 7 {
        Err(CodecError::InvalidScale)
    } else if v.offset_minutes < -840 || v.offset_minutes > 840 {
        Err(CodecError::Overflow)
    } else {
        Ok(offset_bytes(v, s))
    }
}

/// Decoding of the classic layout: milliseconds are `third-seconds * 10 / 3`,
/// rounded down.
pub open spec fn legacy_decode(b: Seq<u8>) -> Result<CalendarDateTime, CodecError> {
    if b.len() < 8 {
        Err(CodecError::Truncated)
    } else {
        let n = LEGACY_EPOCH + signed_of(le_val(b.take(4)), 4);
        let ms = le_val(b.subrange(4, 8)) * 10 / 3;
        if 0 <= n < DAY_NUMBER_END && ms < MILLIS_PER_DAY {
            Ok(
                CalendarDateTime {
                    date: date_of_day(n),
                    time: time_of_nanos((ms * 1_000_000) as int),
                },
            )
        } else {
            Err(CodecError::Overflow)
        }
    }
}

/// The classic layout counts days from 1900-01-01.
pub proof fn lemma_legacy_epoch()
    ensures
        day_number(CalendarDate { year: 1900, month: 1, day: 1 }) == LEGACY_EPOCH,
{
}

/// Writes the extended layout at a scale known to be valid.
fn extended_field(v: &CalendarDateTime, scale: u8) -> (r: Vec<u8>)
    requires
        v.wf(),
        scale <= 7,
    ensures
        r@ == extended_bytes(*v, scale as int),
{
    let mut out = time_field(&v.time, scale);
    let mut date = encode_date_only(&v.date);
    out.append(&mut date);
    out
}

/// Encodes a date and time in the extended layout at `scale`, rounding the
/// time toward zero to the scale's resolution.
pub fn encode_extended(v: &CalendarDateTime, scale: u8) -> (r: Result<Vec<u8>, CodecError>)
    requires
        v.wf(),
    ensures
        bytes_view(r) == extended_encode(*v, scale as int),
{
    if scale > MAX_SCALE {
        return Err(CodecError::InvalidScale);
    }
    Ok(extended_field(v, scale))
}

/// Decodes the extended layout at `scale`.
pub fn decode_extended(b: &[u8], scale: u8) -> (r: Result<CalendarDateTime, CodecError>)
    ensures
        r == extended_decode(b@, scale as int),
{
    if scale > MAX_SCALE {
        return Err(CodecError::InvalidScale);
    }
    let (w, _tick) = scale_layout(scale);
    if b.len() < w + DATE_WIDTH {
        return Err(CodecError::Truncated);
    }
    let time = decode_time_only(b, scale);
    let date = decode_date_only(slice_subrange(b, w, w + DATE_WIDTH));
    match (time, date) {
        (Ok(t), Ok(d)) => Ok(CalendarDateTime { date: d, time: t }),
        _ => Err(CodecError::Overflow),
    }
}

/// Encodes a UTC instant and its offset in the offset layout at `scale`.
pub fn encode_offset(v: &OffsetDateTime, scale: u8) -> (r: Result<Vec<u8>, CodecError>)
    requires
        v.utc.wf(),
    ensures
        bytes_view(r) == offset_encode(*v, scale as int),
{
    if scale > MAX_SCALE {
        return Err(CodecError::InvalidScale);
    }
    if v.offset_minutes < -MAX_OFFSET_MINUTES || v.offset_minutes > MAX_OFFSET_MINUTES {
        return Err(CodecError::Overflow);
    }
    proof {
        lemma_pow256_values();
    }
    let mut out = extended_field(&v.utc, scale);
    let mut off = int_le_bytes(v.offset_minutes as i64, OFFSET_WIDTH);
    out.append(&mut off);
    Ok(out)
}

/// Decodes the offset layout at `scale`.
pub fn decode_offset(b: &[u8], scale: u8) -> (r: Result<OffsetDateTime, CodecError>)
    ensures
        r == offset_decode(b@, scale as int),
{
    if scale > MAX_SCALE {
        return Err(CodecError::InvalidScale);
    }
    let (w, _tick) = scale_layout(scale);
    if b.len() < w + DATE_WIDTH + OFFSET_WIDTH {
        return Err(CodecError::Truncated);
    }
    let utc = match decode_extended(b, scale) {
        Ok(u) => u,
        Err(e) => {
            return Err(e);
        },
    };
    let field = slice_subrange(b, w + DATE_WIDTH, w + DATE_WIDTH + OFFSET_WIDTH);
    let off = read_int_le(field, OFFSET_WIDTH);
    proof {
        assert(field@.take(2) =~= field@);
        lemma_le_val_bound(field@);
        lemma_pow256_values();
    }
    if off < -(MAX_OFFSET_MINUTES as i64) || off > MAX_OFFSET_MINUTES as i64 {
        return Err(CodecError::Overflow);
    }
    Ok(OffsetDateTime { utc, offset_minutes: off as i16 })
}

/// Encodes a date and time in the classic layout; milliseconds are taken
/// rounded down, then `* 3 / 10`, rounded down. Every valid date lies within
/// the signed 4-byte day field, so this cannot fail.
pub fn encode_legacy(v: &CalendarDateTime) -> (r: Vec<u8>)
    requires
        v.wf(),
    ensures
        r@ == legacy_bytes(*v),
{
    proof {
        lemma_day_number_range(v.date);
        lemma_time_of_nanos(v.time);
        lemma_pow256_values();
    }
    let days: i64 = v.date.day_number() as i64 - LEGACY_EPOCH;
    let ms = v.time.nanos_since_midnight() / 1_000_000;
    let mut out = int_le_bytes(days, 4);
    let mut ticks = uint_le_bytes(ms * 3 / 10, 4);
    out.append(&mut ticks);
    out
}

/// Decodes the classic layout.
pub fn decode_legacy(b: &[u8]) -> (r: Result<CalendarDateTime, CodecError>)
    ensures
        r == legacy_decode(b@),
{
    if b.len() < LEGACY_WIDTH {
        return Err(CodecError::Truncated);
    }
    let days = read_int_le(b, 4);
    let field = slice_subrange(b, 4, 8);
    let third_secs = read_uint_le(field, 4);
    proof {
        assert(field@.take(4) =~= b@.subrange(4, 8));
        lemma_le_val_bound(b@.take(4));
        lemma_le_val_bound(b@.subrange(4, 8));
        lemma_pow256_values();
    }
    let n: i64 = LEGACY_EPOCH + days;
    if n < 0 || n >= DAY_NUMBER_END as i64 {
        return Err(CodecError::Overflow);
    }
    let ms = third_secs * 10 / 3;
    if ms >= MILLIS_PER_DAY {
        return Err(CodecError::Overflow);
    }
    let date = match CalendarDate::from_day_number(n as u32) {
        Some(d) => d,
        None => {
            return Err(CodecError::Overflow);
        },
    };
    let time = match TimeOfDay::from_nanos_since_midnight(ms * 1_000_000) {
        Some(t) => t,
        None => {
            return Err(CodecError::Overflow);
        },
    };
    Ok(CalendarDateTime { date, time })
}

// ---------------------------------------------------------------- by descriptor

/// Decoding of a date and time under a descriptor.
pub open spec fn datetime_decode(b: Seq<u8>, ti: TypeInfo) -> Result<CalendarDateTime, CodecError> {
    match ti.ty {
        DataType::DateTime | DataType::DateTimeN => legacy_decode(b),
        DataType::DateTime2N => extended_decode(b, ti.scale as int),
        _ => Err(CodecError::UnsupportedVariant),
    }
}

/// Encoding of a date and time under a descriptor.
pub open spec fn datetime_encode(v: CalendarDateTime, ti: TypeInfo) -> Result<Seq<u8>, CodecError> {
    match ti.ty {
        DataType::DateTime | DataType::DateTimeN => Ok(legacy_bytes(v)),
        DataType::DateTime2N => extended_encode(v, ti.scale as int),
        _ => Err(CodecError::UnsupportedVariant),
    }
}

/// Decodes a date and time: classic kinds by the classic layout, the
/// extended kind at the descriptor's scale; other kinds are refused, the
/// offset kind included, whose offset would otherwise be lost.
pub fn decode_datetime(b: &[u8], ti: &TypeInfo) -> (r: Result<CalendarDateTime, CodecError>)
    ensures
        r == datetime_decode(b@, *ti),
{
    match ti.ty {
        DataType::DateTime | DataType::DateTimeN => decode_legacy(b),
        DataType::DateTime2N => decode_extended(b, ti.scale),
        _ => Err(CodecError::UnsupportedVariant),
    }
}

/// Encodes a date and time under a descriptor of the date-and-time family.
pub fn encode_datetime(v: &CalendarDateTime, ti: &TypeInfo) -> (r: Result<Vec<u8>, CodecError>)
    requires
        v.wf(),
    ensures
        bytes_view(r) == datetime_encode(*v, *ti),
{
    match ti.ty {
        DataType::DateTime | DataType::DateTimeN => Ok(encode_legacy(v)),
        DataType::DateTime2N => encode_extended(v, ti.scale),
        _ => Err(CodecError::UnsupportedVariant),
    }
}

/// Decodes a time of day under a time-only descriptor.
pub fn decode_time(b: &[u8], ti: &TypeInfo) -> (r: Result<TimeOfDay, CodecError>)
    ensures
        ti.ty == DataType::TimeN ==> r == time_decode(b@, ti.scale as int),
        ti.ty != DataType::TimeN ==> r == Err::<TimeOfDay, CodecError>(CodecError::UnsupportedVariant),
{
    match ti.ty {
        DataType::TimeN => decode_time_only(b, ti.scale),
        _ => Err(CodecError::UnsupportedVariant),
    }
}

/// Encodes a time of day under a time-only descriptor.
pub fn encode_time(t: &TimeOfDay, ti: &TypeInfo) -> (r: Result<Vec<u8>, CodecError>)
    requires
        t.wf(),
    ensures
        ti.ty == DataType::TimeN ==> bytes_view(r) == time_encode(*t, ti.scale as int),
        ti.ty != DataType::TimeN ==> r == Err::<Vec<u8>, CodecError>(CodecError::UnsupportedVariant),
{
    match ti.ty {
        DataType::TimeN => encode_time_only(t, ti.scale),
        _ => Err(CodecError::UnsupportedVariant),
    }
}

/// Decodes a date under a date-only descriptor.
pub fn decode_date(b: &[u8], ti: &TypeInfo) -> (r: Result<CalendarDate, CodecError>)
    ensures
        ti.ty == DataType::DateN ==> r == date_decode(b@),
        ti.ty != DataType::DateN ==> r == Err::<CalendarDate, CodecError>(CodecError::UnsupportedVariant),
{
    match ti.ty {
        DataType::DateN => decode_date_only(b),
        _ => Err(CodecError::UnsupportedVariant),
    }
}

/// Encodes a date under a date-only descriptor.
pub fn encode_date(d: &CalendarDate, ti: &TypeInfo) -> (r: Result<Vec<u8>, CodecError>)
    requires
        d.wf(),
    ensures
        ti.ty == DataType::DateN ==> bytes_view(r) == Ok::<Seq<u8>, CodecError>(date_bytes(*d)),
        ti.ty != DataType::DateN ==> r == Err::<Vec<u8>, CodecError>(CodecError::UnsupportedVariant),
{
    match ti.ty {
        DataType::DateN => Ok(encode_date_only(d)),
        _ => Err(CodecError::UnsupportedVariant),
    }
}

/// Decodes a UTC instant and offset under an offset descriptor.
pub fn decode_offset_datetime(b: &[u8], ti: &TypeInfo) -> (r: Result<OffsetDateTime, CodecError>)
    ensures
        ti.ty == DataType::DateTimeOffsetN ==> r == offset_decode(b@, ti.scale as int),
        ti.ty != DataType::DateTimeOffsetN ==> r == Err::<OffsetDateTime, CodecError>(CodecError::UnsupportedVariant),
{
    match ti.ty {
        DataType::DateTimeOffsetN => decode_offset(b, ti.scale),
        _ => Err(CodecError::UnsupportedVariant),
    }
}

/// Encodes a UTC instant and offset under an offset descriptor.
pub fn encode_offset_datetime(v: &OffsetDateTime, ti: &TypeInfo) -> (r: Result<Vec<u8>, CodecError>)
    requires
        v.utc.wf(),
    ensures
        ti.ty == DataType::DateTimeOffsetN ==> bytes_view(r) == offset_encode(*v, ti.scale as int),
        ti.ty != DataType::DateTimeOffsetN ==> r == Err::<Vec<u8>, CodecError>(CodecError::UnsupportedVariant),
{
    match ti.ty {
        DataType::DateTimeOffsetN => encode_offset(v, ti.scale),
        _ => Err(CodecError::UnsupportedVariant),
    }
}

} // verus!
