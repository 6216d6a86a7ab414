use chrono::{NaiveDate, TimeZone, Utc};

use waycal::ical::{parse_first_event, parse_first_todo, parse_ical_duration_minutes, read_duration, IcalEvent, IcalTodo, Minutes};
use waycal::json::{read_json, write_json, Json};
use waycal::model::{alarms_are_countable, Attendee, Calendar, Event, Task, TaskList};
use waycal::time::{Date, Moment};

fn day(y: i32, m: u32, d: u32) -> Date {
    Date { days: chrono::Datelike::num_days_from_ce(&NaiveDate::from_ymd_opt(y, m, d).unwrap()) }
}

fn utc(y: i32, mo: u32, d: u32, h: u32, mi: u32, s: u32) -> i64 {
    Utc.with_ymd_and_hms(y, mo, d, h, mi, s).unwrap().timestamp()
}

fn parse_event(vevent: &str) -> IcalEvent {
    parse_first_event(&format!("BEGIN:VCALENDAR\r\nVERSION:2.0\r\n{vevent}END:VCALENDAR\r\n")).unwrap()
}

fn parse_todo(vtodo: &str) -> IcalTodo {
    parse_first_todo(&format!("BEGIN:VCALENDAR\r\nVERSION:2.0\r\n{vtodo}END:VCALENDAR\r\n")).unwrap()
}

fn json(text: &str) -> Json {
    read_json(text).unwrap()
}

#[test]
fn utc_timed_event() {
    let ev = parse_event(
        "BEGIN:VEVENT\r\nUID:abc\r\nDTSTART:20260901T140000Z\r\nDTEND:20260901T150000Z\r\nSUMMARY:Standup\r\nEND:VEVENT\r\n",
    );
    let e = Event::from_ical("acct", "cal1", "Cal", "/href.ics", &ev).unwrap();
    assert!(!e.all_day);
    assert_eq!(e.summary, "Standup");
    assert_eq!(e.start_time.unwrap().secs, utc(2026, 9, 1, 14, 0, 0));
}

#[test]
fn tzid_qualified_event() {
    let ev = parse_event(
        "BEGIN:VEVENT\r\nUID:abc\r\nDTSTART;TZID=America/New_York:20260901T100000\r\n\
         DTEND;TZID=America/New_York:20260901T110000\r\nSUMMARY:Call\r\nEND:VEVENT\r\n",
    );
    let e = Event::from_ical("acct", "cal1", "Cal", "/href.ics", &ev).unwrap();
    assert!(!e.all_day);
    // 10:00 America/New_York on 2026-09-01 is EDT (UTC-4) -> 14:00 UTC.
    assert_eq!(e.start_time.unwrap().secs, utc(2026, 9, 1, 14, 0, 0));
}

#[test]
fn all_day_event() {
    let ev = parse_event(
        "BEGIN:VEVENT\r\nUID:abc\r\nDTSTART;VALUE=DATE:20260901\r\nDTEND;VALUE=DATE:20260902\r\nSUMMARY:Holiday\r\nEND:VEVENT\r\n",
    );
    let e = Event::from_ical("acct", "cal1", "Cal", "/href.ics", &ev).unwrap();
    assert!(e.all_day);
    assert_eq!(e.start_date, day(2026, 9, 1));
    // DTEND is exclusive; a one-day all-day event's inclusive end == start.
    assert_eq!(e.end_date, day(2026, 9, 1));
}

#[test]
fn event_with_alarm() {
    let ev = parse_event(
        "BEGIN:VEVENT\r\nUID:abc\r\nDTSTART:20260901T140000Z\r\nDTEND:20260901T150000Z\r\nSUMMARY:Standup\r\n\
         BEGIN:VALARM\r\nACTION:DISPLAY\r\nTRIGGER:-PT10M\r\nEND:VALARM\r\nEND:VEVENT\r\n",
    );
    let e = Event::from_ical("acct", "cal1", "Cal", "/href.ics", &ev).unwrap();
    assert_eq!(e.reminder_overrides, Some(vec![10]));
}

#[test]
fn escaped_text_is_unescaped() {
    let ev = parse_event(
        "BEGIN:VEVENT\r\nUID:abc\r\nDTSTART:20260901T140000Z\r\nDTEND:20260901T150000Z\r\n\
         SUMMARY:Line1\\nLine2\\, comma\r\nEND:VEVENT\r\n",
    );
    let e = Event::from_ical("acct", "cal1", "Cal", "/href.ics", &ev).unwrap();
    assert_eq!(e.summary, "Line1\nLine2, comma");
}

#[test]
fn completed_and_incomplete_todo() {
    let done = parse_todo("BEGIN:VTODO\r\nUID:t1\r\nSUMMARY:Buy milk\r\nSTATUS:COMPLETED\r\nEND:VTODO\r\n");
    let t = Task::from_ical("acct", "list1", "List", "/t.ics", &done).unwrap();
    assert!(t.completed);

    let open = parse_todo("BEGIN:VTODO\r\nUID:t2\r\nSUMMARY:Buy eggs\r\nSTATUS:NEEDS-ACTION\r\nDUE;VALUE=DATE:20260901\r\nEND:VTODO\r\n");
    let t = Task::from_ical("acct", "list1", "List", "/t2.ics", &open).unwrap();
    assert!(!t.completed);
    assert_eq!(t.due, Some(day(2026, 9, 1)));
}

#[test]
fn alarm_duration_parsing() {
    assert_eq!(parse_ical_duration_minutes("-PT10M"), Some(-10));
    assert_eq!(parse_ical_duration_minutes("-PT1H"), Some(-60));
    assert_eq!(parse_ical_duration_minutes("-P1D"), Some(-1440));
    assert_eq!(parse_ical_duration_minutes("-P1DT2H30M"), Some(-(1440 + 150)));
    assert_eq!(parse_ical_duration_minutes("PT15M"), Some(15));
}

#[test]
fn durations_at_the_edges() {
    assert_eq!(read_duration("P2W"), Minutes::Exactly(20160));
    assert_eq!(read_duration("-P1W"), Minutes::Exactly(-10080));
    assert_eq!(read_duration("+-PT5M"), Minutes::Exactly(5));
    assert_eq!(read_duration("P"), Minutes::Exactly(0));
    assert_eq!(read_duration("PT30S"), Minutes::Exactly(0));
    assert_eq!(read_duration("PT120S"), Minutes::Exactly(2));
    assert_eq!(read_duration("-PT90S"), Minutes::Exactly(-1));
    assert_eq!(read_duration("P1DT1H1M119S"), Minutes::Exactly(1440 + 60 + 1 + 1));
    assert_eq!(read_duration("PT1H60S"), Minutes::Exactly(61));
    assert_eq!(read_duration("PTxS"), Minutes::Exactly(0));
    assert_eq!(read_duration("PT3MxS"), Minutes::Exactly(3));
    assert_eq!(read_duration("-PT1HS"), Minutes::Exactly(-60));
    assert_eq!(read_duration("PT-120S"), Minutes::Exactly(0));
    assert_eq!(read_duration("PT+120S"), Minutes::Exactly(0));
    assert_eq!(read_duration("PT120Sx"), Minutes::Exactly(0));
    assert_eq!(read_duration("PT9223372036854775807M60S"), Minutes::Exactly(i64::MAX));
    assert_eq!(read_duration("PT1H-5M"), Minutes::Exactly(55));
    assert_eq!(read_duration(""), Minutes::Unreadable);
    assert_eq!(read_duration("10M"), Minutes::Unreadable);
    assert_eq!(read_duration("P5"), Minutes::Unreadable);
    assert_eq!(read_duration("PxD"), Minutes::Unreadable);
    assert_eq!(read_duration("PTxM"), Minutes::Unreadable);
    assert_eq!(read_duration("P99999999999999999999D"), Minutes::Unreadable);
    assert_eq!(read_duration("P9223372036854775807D"), Minutes::TooLong);
    assert_eq!(read_duration("PT9223372036854775807M"), Minutes::Exactly(i64::MAX));
    assert_eq!(read_duration("P1DT9223372036854775807M"), Minutes::TooLong);
    assert_eq!(read_duration("-PT-9223372036854775808M"), Minutes::TooLong);
}

#[test]
fn alarms_that_are_no_popups_are_passed_over() {
    let event = |alarms: &str| {
        parse_event(&format!("BEGIN:VEVENT\r\nDTSTART;VALUE=DATE:20260901\r\n{alarms}END:VEVENT\r\n"))
    };
    let alarm = |lines: &str| format!("BEGIN:VALARM\r\n{lines}END:VALARM\r\n");
    let read = |ev: &IcalEvent| Event::from_ical("a", "c", "n", "/h", ev).unwrap().reminder_overrides;
    assert_eq!(read(&event("")), None);
    assert_eq!(read(&event(&alarm("ACTION:EMAIL\r\nTRIGGER:-PT5M\r\n"))), None);
    assert_eq!(read(&event(&alarm("ACTION:DISPLAY\r\nTRIGGER;VALUE=DATE-TIME:20260901T000000Z\r\n"))), None);
    let two = format!(
        "{}{}{}",
        alarm("ACTION:AUDIO\r\nTRIGGER:PT5M\r\n"),
        alarm("ACTION:DISPLAY\r\n"),
        alarm("ACTION:DISPLAY\r\nTRIGGER:-P1D\r\n")
    );
    assert_eq!(read(&event(&two)), Some(vec![-5, 1440]));
    assert!(alarms_are_countable(&event(&two)));
    assert!(!alarms_are_countable(&event(&alarm("ACTION:DISPLAY\r\nTRIGGER:P9223372036854775807D\r\n"))));
}

#[test]
fn floating_and_unknown_zones_are_local() {
    for start in ["DTSTART:20260901T100000", "DTSTART;TZID=Nowhere/Else:20260901T100000"] {
        let ev = parse_event(&format!("BEGIN:VEVENT\r\n{start}\r\nEND:VEVENT\r\n"));
        let e = Event::from_ical("a", "c", "n", "/h", &ev).unwrap();
        let m = e.start_time.unwrap();
        assert_eq!(m.secs + m.offset as i64, utc(2026, 9, 1, 10, 0, 0));
        assert_eq!(e.start_date, day(2026, 9, 1));
        assert_eq!(e.end_time, e.start_time);
        assert_eq!(e.summary, "(no title)");
    }
}

#[test]
fn unreadable_dates_give_no_event() {
    for lines in [
        "SUMMARY:x",
        "DTSTART:tomorrow",
        "DTSTART;VALUE=DATE:20261301",
        "DTSTART:20260901T140000Z\r\nDTEND:never",
        // 02:30 does not exist on that night in New York.
        "DTSTART;TZID=America/New_York:20260308T023000",
    ] {
        let ev = parse_event(&format!("BEGIN:VEVENT\r\n{lines}\r\nEND:VEVENT\r\n"));
        assert!(Event::from_ical("a", "c", "n", "/h", &ev).is_none(), "{lines}");
    }
}

#[test]
fn ical_guests_have_the_organizer_first() {
    let ev = parse_event(
        "BEGIN:VEVENT\r\nDTSTART;VALUE=DATE:20260901\r\nORGANIZER:mailto:BOSS@example.com\r\n\
         ATTENDEE;PARTSTAT=TENTATIVE;CN=Ann:mailto:ann@example.com\r\nATTENDEE;PARTSTAT=ACCEPTED:MAILTO:boss@example.com\r\n\
         ATTENDEE:carl@example.com\r\nEND:VEVENT\r\n",
    );
    let e = Event::from_ical("a", "c", "n", "/h", &ev).unwrap();
    let seen: Vec<(&str, &str, bool)> =
        e.attendees.iter().map(|a| (a.label(), a.status.as_str(), a.organizer)).collect();
    assert_eq!(
        seen,
        vec![("boss@example.com", "accepted", true), ("Ann", "tentative", false), ("carl@example.com", "needsAction", false)]
    );
}

#[test]
fn no_calendar_no_event() {
    assert!(parse_first_event("").is_none());
    assert!(parse_first_event("nonsense").is_none());
    assert!(parse_first_event("BEGIN:VCALENDAR\r\nEND:VCALENDAR\r\n").is_none());
    assert!(parse_first_todo("BEGIN:VCALENDAR\r\nBEGIN:VEVENT\r\nEND:VEVENT\r\nEND:VCALENDAR\r\n").is_none());
}

#[test]
fn calendar_from_json_takes_popups_only() {
    let v = json(
        r#"{"id":"c1","summary":"Work","accessRole":"writer","primary":true,
            "defaultReminders":[{"method":"email","minutes":1},{"method":"popup","minutes":30},{"method":"popup"},
                                {"method":"popup","minutes":1.5},{"method":"popup","minutes":-2}]}"#,
    );
    let c = Calendar::from_json("acct", &v).unwrap();
    assert_eq!((c.account.as_str(), c.id.as_str(), c.summary.as_str()), ("acct", "c1", "Work"));
    assert_eq!(c.default_reminder_mins, vec![30, -2]);
    assert!(c.primary && c.writable());
    let bare = Calendar::from_json("acct", &json(r#"{"id":"c2"}"#)).unwrap();
    assert_eq!((bare.summary.as_str(), bare.access_role.as_str(), bare.primary), ("", "reader", false));
    assert!(!bare.writable());
    assert!(Calendar::from_json("acct", &json(r#"{"id":5}"#)).is_none());
    assert!(Calendar::from_json("acct", &json("[]")).is_none());
}

#[test]
fn owner_may_write() {
    let c = Calendar::from_json("a", &json(r#"{"id":"c","accessRole":"owner"}"#)).unwrap();
    assert!(c.writable());
}

#[test]
fn attendee_label_prefers_the_name() {
    let mut a = Attendee { email: "e@x".into(), name: Some("Eve".into()), status: String::new(), organizer: false, is_self: false };
    assert_eq!(a.label(), "Eve");
    a.name = None;
    assert_eq!(a.label(), "e@x");
}

#[test]
fn event_from_json_reads_all_fields() {
    let v = json(
        r#"{"id":"e1","summary":"Sync","status":"confirmed","location":"  Room  ","description":" ","htmlLink":"http://x",
            "start":{"dateTime":"2026-09-01T14:00:00+02:00"},"end":{"dateTime":"2026-09-01T13:00:00Z"},
            "conferenceData":{"entryPoints":[{"entryPointType":"phone","uri":"tel:1"},{"entryPointType":"video","uri":"https://meet"}]},
            "reminders":{"useDefault":false,"overrides":[{"method":"popup","minutes":5},{"method":"email","minutes":9}]},
            "attendees":[{"email":"z@x"},{"email":"room@x","resource":true},{"displayName":"nobody"},
                         {"email":"me@x","self":true,"responseStatus":"accepted"},
                         {"email":"boss@x","organizer":true,"displayName":"Boss"}]}"#,
    );
    let e = Event::from_json("acct", "cal", "Cal", &v).unwrap();
    assert_eq!(e.start_time.unwrap().secs, utc(2026, 9, 1, 12, 0, 0));
    assert_eq!(e.end_time.unwrap().secs, utc(2026, 9, 1, 13, 0, 0));
    assert!(!e.all_day);
    assert_eq!(e.location.as_deref(), Some("Room"));
    assert_eq!(e.description, None);
    assert_eq!(e.html_link.as_deref(), Some("http://x"));
    assert_eq!(e.meet_url.as_deref(), Some("https://meet"));
    assert_eq!(e.reminder_overrides, Some(vec![5]));
    let emails: Vec<&str> = e.attendees.iter().map(|a| a.email.as_str()).collect();
    assert_eq!(emails, vec!["boss@x", "me@x", "z@x"]);
    assert_eq!(e.attendees[2].status, "needsAction");
    assert_eq!(e.attendees[1].status, "accepted");
}

#[test]
fn hangout_link_wins_and_defaults_mean_none() {
    let v = json(
        r#"{"id":"e","hangoutLink":"https://h","conferenceData":{"entryPoints":[{"entryPointType":"video","uri":"u"}]},
            "reminders":{"useDefault":true,"overrides":[{"method":"popup","minutes":5}]},
            "start":{"date":"2026-09-01"},"end":{"date":"2026-09-04"}}"#,
    );
    let e = Event::from_json("a", "c", "n", &v).unwrap();
    assert_eq!(e.meet_url.as_deref(), Some("https://h"));
    assert_eq!(e.reminder_overrides, None);
    assert!(e.all_day);
    assert_eq!((e.start_date, e.end_date), (day(2026, 9, 1), day(2026, 9, 3)));
    assert_eq!(e.summary, "(no title)");
    assert_eq!(e.time_label(), "all day");
    assert!(e.covers(day(2026, 9, 1)) && e.covers(day(2026, 9, 3)));
    assert!(!e.covers(day(2026, 8, 31)) && !e.covers(day(2026, 9, 4)));
}

#[test]
fn events_that_are_not_shown() {
    for text in [
        r#"{"id":"e","status":"cancelled","start":{"date":"2026-09-01"},"end":{"date":"2026-09-02"}}"#,
        r#"{"start":{"date":"2026-09-01"},"end":{"date":"2026-09-02"}}"#,
        r#"{"id":"e","end":{"date":"2026-09-02"}}"#,
        r#"{"id":"e","start":{"date":"2026-09-01"}}"#,
        r#"{"id":"e","start":{"date":"soon"},"end":{"date":"2026-09-02"}}"#,
        r#"{"id":"e","start":{"dateTime":"2026-09-01"},"end":{"date":"2026-09-02"}}"#,
    ] {
        assert!(Event::from_json("a", "c", "n", &json(text)).is_none(), "{text}");
    }
}

#[test]
fn all_day_event_never_ends_before_it_starts() {
    let v = json(r#"{"id":"e","start":{"date":"2026-09-05"},"end":{"date":"2026-09-01"}}"#);
    let e = Event::from_json("a", "c", "n", &v).unwrap();
    assert_eq!(e.end_date, e.start_date);
}

#[test]
fn time_label_shows_the_local_clock() {
    let v = json(r#"{"id":"e","start":{"date":"2026-09-05"},"end":{"date":"2026-09-06"}}"#);
    let mut e = Event::from_json("a", "c", "n", &v).unwrap();
    let at = Moment { secs: utc(2026, 9, 1, 23, 5, 59), nanos: 0, offset: 3600 };
    e.start_time = Some(at);
    assert_eq!(e.time_label(), "00:05");
    e.end_time = Some(Moment { secs: utc(2026, 9, 2, 8, 30, 0), nanos: 0, offset: -7200 });
    assert_eq!(e.time_label(), "00:05–06:30");
}

#[test]
fn task_from_json_reads_all_fields() {
    let v = json(
        r#"{"id":"t1","title":"  Pay  ","notes":"  ","due":"2026-09-01T00:00:00.000Z","status":"completed"}"#,
    );
    assert!(Task::due_is_cuttable(&v));
    let t = Task::from_json("acct", "l", "List", &v).unwrap();
    assert_eq!((t.title.as_str(), t.notes.as_deref(), t.due, t.completed), ("Pay", None, Some(day(2026, 9, 1)), true));
    let bare = Task::from_json("acct", "l", "List", &json(r#"{"id":"t2","title":" ","due":"soon"}"#)).unwrap();
    assert_eq!((bare.title.as_str(), bare.due, bare.completed), ("(untitled)", None, false));
    assert!(Task::from_json("acct", "l", "List", &json(r#"{"title":"x"}"#)).is_none());
}

#[test]
fn due_is_cut_between_characters_only() {
    assert!(Task::due_is_cuttable(&json(r#"{}"#)));
    assert!(Task::due_is_cuttable(&json(r#"{"due":"äääää"}"#)));
    assert!(Task::due_is_cuttable(&json(r#"{"due":"äääääx"}"#)));
    assert!(!Task::due_is_cuttable(&json(r#"{"due":"2026-09-0ä"}"#)));
}

#[test]
fn tasklist_from_json_needs_an_id() {
    let l = TaskList::from_json("acct", &json(r#"{"id":"l1","title":"Home"}"#)).unwrap();
    assert_eq!((l.account.as_str(), l.id.as_str(), l.title.as_str()), ("acct", "l1", "Home"));
    assert_eq!(TaskList::from_json("acct", &json(r#"{"id":"l2"}"#)).unwrap().title, "");
    assert!(TaskList::from_json("acct", &json(r#"{"title":"x"}"#)).is_none());
}

#[test]
fn task_is_done_by_status_or_time() {
    let t = parse_todo("BEGIN:VTODO\r\nCOMPLETED:20260901T000000Z\r\nEND:VTODO\r\n");
    let t = Task::from_ical("a", "l", "L", "/t", &t).unwrap();
    assert!(t.completed);
    assert_eq!(t.title, "(untitled)");
    assert_eq!(t.id, "/t");
}

#[test]
fn json_is_read_and_written() {
    let v = json(r#" {"b":[1,true,null,"x\n"],"a":{"k":-7}} "#);
    assert_eq!(v.get("a").unwrap().i64_at("k"), Some(-7));
    assert_eq!(v.array_at("b").unwrap().len(), 4);
    // Members come out in the order of their keys.
    assert_eq!(write_json(&v), r#"{"a":{"k":-7},"b":[1,true,null,"x\n"]}"#);
    let err = read_json("{").unwrap_err();
    assert!(err.contains("EOF"), "unexpected error: {err}");
    // A number that is no 64-bit integer is a number without a value.
    assert!(matches!(json("1.5"), Json::OtherNumber));
    assert!(matches!(json("18446744073709551615"), Json::OtherNumber));
}
