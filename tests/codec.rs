use mssql_temporal::calendar::{CalendarDate, CalendarDateTime, OffsetDateTime, TimeOfDay};
use mssql_temporal::codec::{
    decode_date, decode_date_only, decode_datetime, decode_extended, decode_legacy,
    decode_offset, decode_offset_datetime, decode_time, decode_time_only, encode_date,
    encode_date_only, encode_datetime, encode_extended, encode_legacy, encode_offset,
    encode_offset_datetime, encode_time, encode_time_only,
};
use mssql_temporal::type_info::{
    date_type_info, datetime_compatible, datetime_type_info, offset_datetime_type_info,
    time_type_info, CodecError, DataType, TypeInfo,
};

fn date(y: u16, m: u8, d: u8) -> CalendarDate {
    CalendarDate::new(y, m, d).unwrap()
}

fn time(h: u8, m: u8, s: u8, ns: u32) -> TimeOfDay {
    TimeOfDay::new(h, m, s, ns).unwrap()
}

fn dt(y: u16, mo: u8, d: u8, h: u8, mi: u8, s: u8, ns: u32) -> CalendarDateTime {
    CalendarDateTime { date: date(y, mo, d), time: time(h, mi, s, ns) }
}

fn le(bytes: &[u8]) -> u64 {
    let mut v: u64 = 0;
    for (i, b) in bytes.iter().enumerate() {
        v |= (*b as u64) << (8 * i);
    }
    v
}

#[test]
fn legacy_round_trip_on_ten_ms_multiple() {
    let v = dt(2021, 6, 15, 13, 45, 30, 120_000_000);
    let b = encode_legacy(&v);
    assert_eq!(b.len(), 8);
    assert_eq!(decode_legacy(&b), Ok(v));
}

#[test]
fn legacy_encode_exact_bytes() {
    // 2000-01-01 is 36524 days after 1900-01-01; 13:45:30.120 is 49530120 ms.
    let v = dt(2000, 1, 1, 13, 45, 30, 120_000_000);
    assert_eq!(encode_legacy(&v), vec![172, 142, 0, 0, 28, 187, 226, 0]);
}

#[test]
fn legacy_floor_is_lossy() {
    let v = dt(2000, 1, 1, 0, 0, 0, 1_000_000);
    let b = encode_legacy(&v);
    assert_eq!(le(&b[4..8]), 0);
    assert_eq!(decode_legacy(&b), Ok(dt(2000, 1, 1, 0, 0, 0, 0)));
}

#[test]
fn legacy_decode_epoch() {
    assert_eq!(decode_legacy(&[0u8; 8]), Ok(dt(1900, 1, 1, 0, 0, 0, 0)));
}

#[test]
fn legacy_decode_negative_days_and_third_seconds() {
    // days = -1, third-seconds = 1 -> 3 ms after midnight.
    let b = [0xFF, 0xFF, 0xFF, 0xFF, 1, 0, 0, 0];
    assert_eq!(decode_legacy(&b), Ok(dt(1899, 12, 31, 0, 0, 0, 3_000_000)));
}

#[test]
fn legacy_decode_out_of_range() {
    // days = i32::MIN lies before 0001-01-01.
    assert_eq!(decode_legacy(&[0, 0, 0, 0x80, 0, 0, 0, 0]), Err(CodecError::Overflow));
    // third-seconds of a full day are past midnight of the next day.
    let b = [0, 0, 0, 0, 0x40, 0x7E, 0x05, 0x02];
    assert_eq!(decode_legacy(&b), Err(CodecError::Overflow));
}

#[test]
fn extended_round_trip_every_scale() {
    let v = dt(2022, 12, 25, 23, 59, 59, 999_999_900);
    for s in 0u8..=7 {
        let tick: u32 = 10u32.pow(9 - s as u32);
        let w = CalendarDateTime { date: v.date, time: time(23, 59, 59, 999_999_900 / tick * tick) };
        let b = encode_extended(&w, s).unwrap();
        let width = if s <= 2 { 3 } else if s <= 4 { 4 } else { 5 };
        assert_eq!(b.len(), width + 3);
        assert_eq!(decode_extended(&b, s), Ok(w));
    }
}

#[test]
fn extended_rounds_toward_zero() {
    let v = dt(2022, 12, 25, 12, 34, 56, 789_000_000);
    let b = encode_extended(&v, 0).unwrap();
    assert_eq!(b, vec![240, 176, 0, 209, 68, 11]);
    assert_eq!(decode_extended(&b, 0), Ok(dt(2022, 12, 25, 12, 34, 56, 0)));
}

#[test]
fn time_only_exact_bytes() {
    let b = encode_time_only(&time(12, 0, 0, 0), 7).unwrap();
    assert_eq!(b, vec![0, 224, 52, 149, 100]);
    assert_eq!(decode_time_only(&b, 7), Ok(time(12, 0, 0, 0)));
}

#[test]
fn time_only_round_trip_every_scale() {
    for s in 0u8..=7 {
        let t = time(7, 8, 9, if s >= 1 { 100_000_000 } else { 0 });
        let b = encode_time_only(&t, s).unwrap();
        assert_eq!(decode_time_only(&b, s), Ok(t));
    }
}

#[test]
fn time_only_overflow() {
    // 86400 seconds at scale 0 is not a time of day.
    let b = [0x80, 0x51, 0x01];
    assert_eq!(decode_time_only(&b, 0), Err(CodecError::Overflow));
}

#[test]
fn truncated_for_every_codec() {
    assert_eq!(decode_legacy(&[0u8; 7]), Err(CodecError::Truncated));
    assert_eq!(decode_date_only(&[0u8; 2]), Err(CodecError::Truncated));
    assert_eq!(decode_date_only(&[]), Err(CodecError::Truncated));
    for s in 0u8..=7 {
        let width = if s <= 2 { 3 } else if s <= 4 { 4 } else { 5 };
        assert_eq!(decode_time_only(&vec![0u8; width - 1], s), Err(CodecError::Truncated));
        assert_eq!(decode_extended(&vec![0u8; width + 2], s), Err(CodecError::Truncated));
        assert_eq!(decode_offset(&vec![0u8; width + 4], s), Err(CodecError::Truncated));
    }
}

#[test]
fn invalid_scale_for_every_scaled_codec() {
    for s in [8u8, 9, 255] {
        assert_eq!(decode_time_only(&[0u8; 16], s), Err(CodecError::InvalidScale));
        assert_eq!(decode_extended(&[0u8; 16], s), Err(CodecError::InvalidScale));
        assert_eq!(decode_offset(&[0u8; 16], s), Err(CodecError::InvalidScale));
        assert_eq!(decode_offset(&[], s), Err(CodecError::InvalidScale));
        let v = dt(2000, 1, 1, 0, 0, 0, 0);
        assert_eq!(encode_extended(&v, s), Err(CodecError::InvalidScale));
        assert_eq!(encode_time_only(&v.time, s), Err(CodecError::InvalidScale));
    }
}

#[test]
fn offset_decode_then_encode_same_bytes() {
    let mut b = vec![7, 23, 104, 183, 25, 209, 68, 11];
    b.extend_from_slice(&(-480i16).to_le_bytes());
    let v = decode_offset(&b, 7).unwrap();
    assert_eq!(v.offset_minutes, -480);
    assert_eq!(v.utc, dt(2022, 12, 25, 3, 4, 5, 123_456_700));
    assert_eq!(encode_offset(&v, 7), Ok(b));
}

#[test]
fn offset_out_of_range() {
    let v = OffsetDateTime { utc: dt(2022, 12, 25, 3, 0, 0, 0), offset_minutes: 900 };
    assert_eq!(encode_offset(&v, 7), Err(CodecError::Overflow));
    let mut b = vec![0u8; 8];
    b.extend_from_slice(&(841i16).to_le_bytes());
    assert_eq!(decode_offset(&b, 7), Err(CodecError::Overflow));
}

#[test]
fn offset_local_wall_clock() {
    let v = OffsetDateTime { utc: dt(2022, 12, 25, 3, 0, 0, 0), offset_minutes: -480 };
    assert_eq!(v.local(), Some(dt(2022, 12, 24, 19, 0, 0, 0)));
    let back = OffsetDateTime::from_local(&dt(2022, 12, 24, 19, 0, 0, 0), -480);
    assert_eq!(back, Some(v));
    assert_eq!(OffsetDateTime::from_local(&dt(2022, 12, 24, 19, 0, 0, 0), 841), None);
    let late = OffsetDateTime { utc: dt(9999, 12, 31, 23, 0, 0, 0), offset_minutes: 60 };
    assert_eq!(late.local(), None);
}

#[test]
fn date_only_known_day_counts() {
    assert_eq!(decode_date_only(&[0, 0, 0]), Ok(date(1, 1, 1)));
    assert_eq!(decode_date_only(&[209, 68, 11]), Ok(date(2022, 12, 25)));
    let b = (738521u32).to_le_bytes();
    assert_eq!(decode_date_only(&b[0..3]), Ok(date(2023, 1, 2)));
    assert_eq!(encode_date_only(&date(2022, 12, 25)), vec![209, 68, 11]);
    assert_eq!(encode_date_only(&date(9999, 12, 31)), vec![218, 185, 55]);
    assert_eq!(encode_date_only(&date(1, 1, 1)), vec![0, 0, 0]);
}

#[test]
fn date_only_past_last_day() {
    assert_eq!(decode_date_only(&[219, 185, 55]), Err(CodecError::Overflow));
    assert_eq!(decode_date_only(&[0xFF, 0xFF, 0xFF]), Err(CodecError::Overflow));
}

#[test]
fn day_numbers_across_leap_rules() {
    for (y, m, d, n) in [
        (1u16, 1u8, 1u8, 0u32),
        (1900, 1, 1, 693_595),
        (1900, 3, 1, 693_654),
        (2000, 2, 29, 730_178),
        (2000, 3, 1, 730_179),
        (9999, 12, 31, 3_652_058),
    ] {
        let c = date(y, m, d);
        assert_eq!(c.day_number(), n);
        assert_eq!(CalendarDate::from_day_number(n), Some(c));
    }
    assert_eq!(CalendarDate::from_day_number(3_652_059), None);
}

#[test]
fn date_validation() {
    assert!(CalendarDate::new(1900, 2, 29).is_none());
    assert!(CalendarDate::new(2000, 2, 29).is_some());
    assert!(CalendarDate::new(0, 1, 1).is_none());
    assert!(CalendarDate::new(10000, 1, 1).is_none());
    assert!(CalendarDate::new(2021, 4, 31).is_none());
    assert!(CalendarDate::new(2021, 13, 1).is_none());
    assert!(TimeOfDay::new(24, 0, 0, 0).is_none());
    assert!(TimeOfDay::new(23, 59, 59, 1_000_000_000).is_none());
    assert_eq!(TimeOfDay::new(23, 59, 59, 0).unwrap().nanos_since_midnight(), 86_399_000_000_000);
}

#[test]
fn dispatch_by_descriptor() {
    let v = dt(2021, 6, 15, 13, 45, 30, 120_000_000);
    let legacy = TypeInfo { ty: DataType::DateTime, size: 8, scale: 0 };
    let b = encode_datetime(&v, &legacy).unwrap();
    assert_eq!(b, encode_legacy(&v));
    assert_eq!(decode_datetime(&b, &datetime_type_info()), Ok(v));
    let ext = TypeInfo { ty: DataType::DateTime2N, size: 8, scale: 3 };
    let b = encode_datetime(&v, &ext).unwrap();
    assert_eq!(b.len(), 7);
    assert_eq!(decode_datetime(&b, &ext), Ok(v));
    let off = offset_datetime_type_info();
    assert_eq!(decode_datetime(&[0u8; 10], &off), Err(CodecError::UnsupportedVariant));
    assert_eq!(encode_datetime(&v, &off), Err(CodecError::UnsupportedVariant));
    assert_eq!(decode_time(&[0u8; 8], &legacy), Err(CodecError::UnsupportedVariant));
    assert_eq!(encode_time(&v.time, &legacy), Err(CodecError::UnsupportedVariant));
    assert_eq!(decode_date(&[0u8; 3], &legacy), Err(CodecError::UnsupportedVariant));
    assert_eq!(encode_date(&v.date, &legacy), Err(CodecError::UnsupportedVariant));
    assert_eq!(decode_offset_datetime(&[0u8; 10], &legacy), Err(CodecError::UnsupportedVariant));
    let ov = OffsetDateTime { utc: v, offset_minutes: 60 };
    assert_eq!(encode_offset_datetime(&ov, &legacy), Err(CodecError::UnsupportedVariant));
    let tb = encode_time(&v.time, &time_type_info()).unwrap();
    assert_eq!(decode_time(&tb, &time_type_info()), Ok(v.time));
    let db = encode_date(&v.date, &date_type_info()).unwrap();
    assert_eq!(decode_date(&db, &date_type_info()), Ok(v.date));
    let ob = encode_offset_datetime(&ov, &off).unwrap();
    assert_eq!(ob.len(), 10);
    assert_eq!(decode_offset_datetime(&ob, &off), Ok(ov));
}

#[test]
fn negotiated_descriptors() {
    assert_eq!(time_type_info(), TypeInfo { ty: DataType::TimeN, size: 8, scale: 7 });
    assert_eq!(date_type_info(), TypeInfo { ty: DataType::DateN, size: 3, scale: 0 });
    assert_eq!(datetime_type_info(), TypeInfo { ty: DataType::DateTimeN, size: 8, scale: 0 });
    assert_eq!(
        offset_datetime_type_info(),
        TypeInfo { ty: DataType::DateTimeOffsetN, size: 8, scale: 7 }
    );
    for (ty, ok) in [
        (DataType::DateTime, true),
        (DataType::DateTimeN, true),
        (DataType::DateTime2N, true),
        (DataType::DateTimeOffsetN, false),
        (DataType::TimeN, false),
        (DataType::DateN, false),
    ] {
        assert_eq!(datetime_compatible(&TypeInfo::new(ty, 8)), ok);
    }
}
