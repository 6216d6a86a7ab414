use chrono::{DateTime, Datelike, NaiveDate, NaiveDateTime, TimeDelta, Utc};

use waycal::ical::{ical_when, parse_ical_moment, Property, When};
use waycal::text::{
    chars_of, concat3, decimal, eq_ignore_ascii_case, find_from, holds, is_white, join, less, lower_ascii, non_blank_text,
    parse_i64, parse_u32, signed_decimal, starts_with, string_of, strip_prefix, trim, trim_trailing, width,
};
use waycal::textmap::{TextMap, TextSet};
use waycal::time::{clock_at, day_start, parse_hhmm, Date, Instant, Moment, EPOCH_DAYS, MAX_DAYS, MAX_SECS, MIN_DAYS, MIN_SECS};

#[test]
fn ranges_are_those_of_chrono() {
    assert_eq!(NaiveDate::MIN.num_days_from_ce(), MIN_DAYS);
    assert_eq!(NaiveDate::MAX.num_days_from_ce(), MAX_DAYS);
    assert_eq!(DateTime::<Utc>::MIN_UTC.timestamp(), MIN_SECS);
    assert_eq!(DateTime::<Utc>::MAX_UTC.timestamp(), MAX_SECS);
    assert_eq!(NaiveDate::from_ymd_opt(1970, 1, 1).unwrap().num_days_from_ce() as i64, EPOCH_DAYS);
    assert_eq!(NaiveDate::from_ymd_opt(0, 1, 1).unwrap().num_days_from_ce(), -365);
    assert_eq!(NaiveDate::from_ymd_opt(9999, 12, 31).unwrap().num_days_from_ce(), 3_652_059);
}

#[test]
fn stepping_back_agrees_with_chrono() {
    for (text, nanos) in [("2016-12-31T23:59:59", 1_500_000_000u32), ("2016-12-31T23:59:59", 5), ("2026-03-01T00:00:00", 0)] {
        let naive = NaiveDateTime::parse_from_str(text, "%Y-%m-%dT%H:%M:%S").unwrap();
        let naive = chrono::Timelike::with_nanosecond(&naive, nanos).unwrap();
        for mins in [-90i64, -1, 0, 1, 10, 1440, 100_000] {
            let theirs = naive.and_utc() - TimeDelta::minutes(mins);
            let ours = Instant { secs: naive.and_utc().timestamp(), nanos }.minus(mins * 60);
            assert_eq!((ours.secs, ours.nanos), (theirs.timestamp(), theirs.timestamp_subsec_nanos()), "{text} {nanos} {mins}");
        }
    }
}

#[test]
fn local_days_agree_with_chrono() {
    for secs in [-86_401i64, -1, 0, 86_399, 86_400, 1_788_307_200, -62_135_596_800] {
        for offset in [-43_200, 0, 3600, 50_400] {
            let m = Moment { secs, nanos: 0, offset };
            let zone = chrono::FixedOffset::east_opt(offset).unwrap();
            let theirs = DateTime::from_timestamp(secs, 0).unwrap().with_timezone(&zone);
            assert_eq!(m.date().days, theirs.date_naive().num_days_from_ce());
            assert_eq!(m.time_of_day(), chrono::Timelike::num_seconds_from_midnight(&theirs.time()));
        }
    }
}

#[test]
fn days_before_and_after() {
    let d = Date { days: 10 };
    assert_eq!(d.pred(), Date { days: 9 });
    assert_eq!(Date { days: MIN_DAYS }.pred(), Date { days: MIN_DAYS });
    assert_eq!(d.plus(-3), Date { days: 7 });
    assert_eq!(d.max(Date { days: 12 }), Date { days: 12 });
    assert_eq!(d.max(Date { days: 2 }), d);
}

#[test]
fn day_starts_at_local_midnight() {
    let day = Date { days: NaiveDate::from_ymd_opt(2026, 9, 1).unwrap().num_days_from_ce() };
    let reading = NaiveDate::from_ymd_opt(2026, 9, 1).unwrap().and_hms_opt(0, 0, 0).unwrap().and_utc().timestamp();
    assert_eq!(clock_at(day, 0, 0), Instant { secs: reading, nanos: 0 });
    assert_eq!(clock_at(day, 36_001, 7), Instant { secs: reading + 36_001, nanos: 7 });
    let m = day_start(day).unwrap();
    assert_eq!(m.secs + m.offset as i64, reading);
    assert_eq!(m.date(), day);
    assert_eq!(m.time_of_day(), 0);
}

#[test]
fn clock_times_are_parsed() {
    assert_eq!(parse_hhmm(" 08:30\n"), Some(30_600));
    assert_eq!(parse_hhmm("00:00"), Some(0));
    assert_eq!(parse_hhmm("23:59"), Some(86_340));
    assert_eq!(parse_hhmm("24:00"), None);
    assert_eq!(parse_hhmm("8h"), None);
}

#[test]
fn date_properties_are_told_apart() {
    let prop = |params: Option<Vec<(&str, &str)>>, value: Option<&str>| Property {
        name: "DTSTART".into(),
        params: params.map(|ps| ps.iter().map(|(k, v)| (k.to_string(), vec![v.to_string()])).collect()),
        value: value.map(str::to_string),
    };
    let day = Date { days: NaiveDate::from_ymd_opt(2026, 9, 1).unwrap().num_days_from_ce() };
    let secs = NaiveDate::from_ymd_opt(2026, 9, 1).unwrap().and_hms_opt(10, 0, 0).unwrap().and_utc().timestamp();
    assert_eq!(ical_when(&prop(None, None)), When::Unreadable);
    assert_eq!(ical_when(&prop(None, Some("20260901"))), When::Day(day));
    assert_eq!(ical_when(&prop(Some(vec![("VALUE", "DATE")]), Some("20260901"))), When::Day(day));
    assert_eq!(ical_when(&prop(Some(vec![("VALUE", "DATE")]), Some("20260901T100000Z"))), When::Unreadable);
    assert_eq!(ical_when(&prop(None, Some("20260901T100000Z"))), When::At(Instant { secs, nanos: 0 }));
    assert_eq!(ical_when(&prop(None, Some("20260901T100000"))), When::Floating(Instant { secs, nanos: 0 }));
    assert_eq!(
        ical_when(&prop(Some(vec![("TZID", "Asia/Tokyo")]), Some("20260901T100000"))),
        When::At(Instant { secs: secs - 9 * 3600, nanos: 0 })
    );
    assert_eq!(
        ical_when(&prop(Some(vec![("TZID", "Bespoke")]), Some("20260901T100000"))),
        When::Floating(Instant { secs, nanos: 0 })
    );
    // A leap second keeps its second.
    let leap = NaiveDate::from_ymd_opt(2016, 12, 31).unwrap().and_hms_opt(23, 59, 59).unwrap().and_utc().timestamp();
    assert_eq!(ical_when(&prop(None, Some("20161231T235960Z"))), When::At(Instant { secs: leap, nanos: 1_000_000_000 }));
}

#[test]
fn white_space_is_that_of_unicode() {
    for c in (0u32..=0x10ffff).filter_map(char::from_u32) {
        assert_eq!(is_white(c), c.is_whitespace(), "{:x}", c as u32);
        assert_eq!(width(c), c.len_utf8());
        assert_eq!(lower_ascii(c), c.to_ascii_lowercase());
    }
}

#[test]
fn texts_are_trimmed_and_stripped() {
    assert_eq!(trim("\u{3000} a b\t\n"), "a b");
    assert_eq!(trim(" \n"), "");
    assert_eq!(non_blank_text("  "), None);
    assert_eq!(non_blank_text(" x "), Some("x".to_string()));
    assert_eq!(trim_trailing("a//", '/'), "a");
    assert_eq!(trim_trailing("//", '/'), "");
    assert_eq!(strip_prefix("mailto:x", "mailto:"), Some("x".to_string()));
    assert_eq!(strip_prefix("mail", "mailto:"), None);
    assert!(starts_with("https://", "http") && !starts_with("HTTP", "http"));
    assert_eq!(string_of(&chars_of("äbc"), 0, 2), "äb");
    assert_eq!(find_from(&chars_of("abca"), 1, 'a'), 3);
    assert_eq!(concat3("a", "b", "c"), "abc");
}

#[test]
fn texts_are_compared_as_by_std() {
    let samples = ["", "a", "ab", "b", "B", "ä", "z", "a\u{10000}", "a\u{ffff}"];
    for x in samples {
        for y in samples {
            assert_eq!(less(x, y), x < y, "{x:?} {y:?}");
            assert_eq!(eq_ignore_ascii_case(x, y), x.eq_ignore_ascii_case(y));
        }
    }
    assert!(eq_ignore_ascii_case("Boss@Example", "bOSS@eXAMPLE"));
}

#[test]
fn numbers_are_read_and_written_as_by_std() {
    for s in ["", "+", "-", "0", "007", "-0", "+5", "--5", "5 ", "9223372036854775807", "9223372036854775808",
        "-9223372036854775808", "-9223372036854775809", "4294967295", "4294967296", "99999999999999999999999"] {
        assert_eq!(parse_i64(s), s.parse::<i64>().ok(), "{s:?}");
        assert_eq!(parse_u32(s), s.parse::<u32>().ok(), "{s:?}");
    }
    for n in [0u64, 9, 10, 255, u64::MAX] {
        assert_eq!(decimal(n), n.to_string());
    }
    for n in [i64::MIN, -10, -1, 0, 7, i64::MAX] {
        assert_eq!(signed_decimal(n), n.to_string());
    }
}

#[test]
fn lists_of_texts() {
    let list = vec!["a".to_string(), "b".to_string(), "c".to_string()];
    assert_eq!(join(&list, ", "), "a, b, c");
    assert_eq!(join(&vec![], ", "), "");
    assert!(holds(&list, "b") && !holds(&list, "d"));
}

#[test]
fn maps_and_sets_of_texts() {
    let mut m: TextMap<Instant> = TextMap::new();
    m.insert("k".into(), Instant { secs: 1, nanos: 0 });
    m.insert("l".into(), Instant { secs: 5, nanos: 0 });
    m.insert("k".into(), Instant { secs: 9, nanos: 0 });
    assert_eq!(m.len(), 2);
    assert_eq!(m.get("k").unwrap().secs, 9);
    assert_eq!(m.entry(1).0, "l");
    m.insert("s".into(), Instant { secs: 2, nanos: 0 });
    let mut stay = TextSet::new();
    stay.insert("s".into());
    m.retain_later(Instant { secs: 5, nanos: 0 }, &stay);
    assert!(m.get("l").is_none() && m.get("k").is_some() && m.get("s").is_some());
    let mut s = TextSet::new();
    assert!(s.insert("a".into()));
    assert!(!s.insert("a".into()));
    assert!(s.contains("a") && !s.contains("b"));
    assert_eq!(s.items(), &vec!["a".to_string()]);
}

#[test]
fn moments_are_placed_on_the_local_clock() {
    let prop = |value: &str| Property { name: "DTSTART".into(), params: None, value: Some(value.into()) };
    let day = Date { days: NaiveDate::from_ymd_opt(2026, 9, 1).unwrap().num_days_from_ce() };
    assert_eq!(parse_ical_moment(&prop("20260901")), Some((day, None)));
    let (date, time) = parse_ical_moment(&prop("20260901T100000")).unwrap();
    let time = time.unwrap();
    assert_eq!((date, time.date(), time.time_of_day()), (day, day, 36_000));
    let (_, utc) = parse_ical_moment(&prop("20260901T100000Z")).unwrap();
    assert_eq!(utc.unwrap().secs, 1_788_256_800);
    assert_eq!(parse_ical_moment(&prop("tomorrow")), None);
}
