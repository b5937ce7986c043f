//! Properties that relate the encoders and decoders.
use crate::bytes::{
    le_bytes, le_val, lemma_bytes_of_le_val, lemma_le_bytes_len, lemma_le_val_bound,
    lemma_le_val_of_bytes, lemma_pow256_values, twos,
};
use crate::calendar::{
    day_number, lemma_date_of_day_exists, lemma_date_of_day_number, lemma_day_number_range,
    lemma_nanos_of_time, lemma_time_of_nanos, nanos_of_day, CalendarDate, CalendarDateTime,
    OffsetDateTime, TimeOfDay,
};
use crate::codec::{
    date_bytes, date_decode, extended_bytes, extended_decode, extended_encode, frac_width,
    legacy_bytes, legacy_decode, offset_bytes, offset_decode, offset_encode, tick_nanos,
    time_bytes, time_decode, LEGACY_EPOCH,
};
use crate::type_info::CodecError;
use vstd::arithmetic::div_mod::{lemma_fundamental_div_mod, lemma_fundamental_div_mod_converse};
use vstd::prelude::*;

verus! {

/// A time of day that is a whole number of ticks at scale `s` comes back
/// unchanged from the time-only layout.
pub proof fn lemma_time_round_trip(t: TimeOfDay, s: int)
    requires
        t.wf(),
        0 <= s <= 7,
        nanos_of_day(t) % tick_nanos(s) == 0,
    ensures
        time_decode(time_bytes(t, s), s) == Ok::<TimeOfDay, CodecError>(t),
{
    let n = nanos_of_day(t);
    let k = n / tick_nanos(s);
    lemma_time_of_nanos(t);
    lemma_pow256_values();
    lemma_fundamental_div_mod(n, tick_nanos(s));
    let b = time_bytes(t, s);
    lemma_le_bytes_len(k as nat, frac_width(s) as nat);
    lemma_le_val_of_bytes(k as nat, frac_width(s) as nat);
    assert(b.take(frac_width(s)) =~= b);
}

/// Every valid date comes back unchanged from the date-only layout.
pub proof fn lemma_date_round_trip(d: CalendarDate)
    requires
        d.wf(),
    ensures
        date_decode(date_bytes(d)) == Ok::<CalendarDate, CodecError>(d),
{
    lemma_day_number_range(d);
    lemma_pow256_values();
    lemma_date_of_day_number(d);
    let b = date_bytes(d);
    lemma_le_bytes_len(day_number(d) as nat, 3);
    lemma_le_val_of_bytes(day_number(d) as nat, 3);
    assert(b.take(3) =~= b);
}

/// A date and time whose time is a whole number of ticks at scale `s` comes
/// back unchanged from the extended layout.
pub proof fn lemma_extended_round_trip(v: CalendarDateTime, s: int)
    requires
        v.wf(),
        0 <= s <= 7,
        nanos_of_day(v.time) % tick_nanos(s) == 0,
    ensures
        extended_encode(v, s) == Ok::<Seq<u8>, CodecError>(extended_bytes(v, s)),
        extended_decode(extended_bytes(v, s), s) == Ok::<CalendarDateTime, CodecError>(v),
{
    let w = frac_width(s);
    let tb = time_bytes(v.time, s);
    let db = date_bytes(v.date);
    let b = extended_bytes(v, s);
    lemma_le_bytes_len((nanos_of_day(v.time) / tick_nanos(s)) as nat, w as nat);
    lemma_le_bytes_len(day_number(v.date) as nat, 3);
    lemma_time_round_trip(v.time, s);
    lemma_date_round_trip(v.date);
    assert(b.take(w) =~= tb.take(w));
    assert(b.subrange(w, w + 3) =~= db);
}

/// A classic date and time whose time is a whole multiple of 10/3 ms (so a
/// whole number of 10 ms) comes back unchanged from the classic layout.
pub proof fn lemma_legacy_round_trip(v: CalendarDateTime)
    requires
        v.wf(),
        nanos_of_day(v.time) % 10_000_000 == 0,
    ensures
        legacy_decode(legacy_bytes(v)) == Ok::<CalendarDateTime, CodecError>(v),
{
    let n = nanos_of_day(v.time);
    let q = n / 10_000_000;
    lemma_time_of_nanos(v.time);
    lemma_fundamental_div_mod(n, 10_000_000);
    lemma_fundamental_div_mod_converse(n, 1_000_000, 10 * q, 0);
    lemma_fundamental_div_mod_converse(30 * q, 10, 3 * q, 0);
    lemma_fundamental_div_mod_converse(30 * q, 3, 10 * q, 0);
    lemma_day_number_range(v.date);
    lemma_date_of_day_number(v.date);
    lemma_pow256_values();
    let days = day_number(v.date) - LEGACY_EPOCH;
    let a = le_bytes(twos(days, 4), 4);
    let c = le_bytes((3 * q) as nat, 4);
    lemma_le_bytes_len(twos(days, 4), 4);
    lemma_le_bytes_len((3 * q) as nat, 4);
    lemma_le_val_of_bytes(twos(days, 4), 4);
    lemma_le_val_of_bytes((3 * q) as nat, 4);
    let b = legacy_bytes(v);
    assert(b.take(4) =~= a);
    assert(b.subrange(4, 8) =~= c);
}

/// A time-only field that decodes is written back as the same bytes.
pub proof fn lemma_time_reencode(b: Seq<u8>, s: int, t: TimeOfDay)
    requires
        time_decode(b, s) == Ok::<TimeOfDay, CodecError>(t),
    ensures
        t.wf(),
        time_bytes(t, s) == b.take(frac_width(s)),
{
    let w = frac_width(s);
    let f = b.take(w);
    let n = le_val(f) * tick_nanos(s);
    lemma_nanos_of_time(n);
    lemma_fundamental_div_mod_converse(n, tick_nanos(s), le_val(f) as int, 0);
    lemma_bytes_of_le_val(f);
}

/// A date-only field that decodes is written back as the same bytes.
pub proof fn lemma_date_reencode(b: Seq<u8>, d: CalendarDate)
    requires
        date_decode(b) == Ok::<CalendarDate, CodecError>(d),
    ensures
        d.wf(),
        date_bytes(d) == b.take(3),
{
    let f = b.take(3);
    lemma_date_of_day_exists(le_val(f) as int);
    lemma_bytes_of_le_val(f);
}

/// Extended bytes that decode are written back unchanged at the same scale.
pub proof fn lemma_extended_reencode(b: Seq<u8>, s: int, v: CalendarDateTime)
    requires
        extended_decode(b, s) == Ok::<CalendarDateTime, CodecError>(v),
    ensures
        v.wf(),
        extended_encode(v, s) == Ok::<Seq<u8>, CodecError>(b.take(frac_width(s) + 3)),
{
    let w = frac_width(s);
    let sub = b.subrange(w, w + 3);
    lemma_time_reencode(b, s, v.time);
    lemma_date_reencode(sub, v.date);
    assert(sub.take(3) =~= sub);
    assert(extended_bytes(v, s) =~= b.take(w + 3));
}

/// Offset bytes that decode are written back unchanged at the same scale.
pub proof fn lemma_offset_reencode(b: Seq<u8>, s: int, v: OffsetDateTime)
    requires
        offset_decode(b, s) == Ok::<OffsetDateTime, CodecError>(v),
    ensures
        v.utc.wf(),
        offset_encode(v, s) == Ok::<Seq<u8>, CodecError>(b.take(frac_width(s) + 5)),
{
    let w = frac_width(s);
    let f = b.subrange(w + 3, w + 5);
    lemma_extended_reencode(b, s, v.utc);
    lemma_le_val_bound(f);
    lemma_pow256_values();
    lemma_bytes_of_le_val(f);
    assert(twos(v.offset_minutes as int, 2) == le_val(f));
    assert(offset_bytes(v, s) =~= b.take(w + 5));
}

/// Every decoder refuses a slice shorter than its layout with `Truncated`.
pub proof fn lemma_short_input_truncated(b: Seq<u8>, s: int)
    requires
        0 <= s <= 7,
    ensures
        b.len() < frac_width(s) ==> time_decode(b, s) == Err::<TimeOfDay, CodecError>(
            CodecError::Truncated,
        ),
        b.len() < 3 ==> date_decode(b) == Err::<CalendarDate, CodecError>(CodecError::Truncated),
        b.len() < frac_width(s) + 3 ==> extended_decode(b, s) == Err::<
            CalendarDateTime,
            CodecError,
        >(CodecError::Truncated),
        b.len() < frac_width(s) + 5 ==> offset_decode(b, s) == Err::<OffsetDateTime, CodecError>(
            CodecError::Truncated,
        ),
        b.len() < 8 ==> legacy_decode(b) == Err::<CalendarDateTime, CodecError>(
            CodecError::Truncated,
        ),
{
}

/// Every scaled decoder refuses a scale above 7 with `InvalidScale`, whatever the bytes.
pub proof fn lemma_invalid_scale(b: Seq<u8>, s: int)
    requires
        s > 7,
    ensures
        time_decode(b, s) == Err::<TimeOfDay, CodecError>(CodecError::InvalidScale),
        extended_decode(b, s) == Err::<CalendarDateTime, CodecError>(CodecError::InvalidScale),
        offset_decode(b, s) == Err::<OffsetDateTime, CodecError>(CodecError::InvalidScale),
{
}

} // verus!
