use chrono::{DateTime, Local, NaiveDate, TimeZone, Utc};

use waycal::backend::{EventDraft, TaskDraft};
use waycal::compose::{build_vevent, build_vevent_ics, build_vtodo, build_vtodo_ics, completed_lines, render_property, EventCtx};
use waycal::ical::{parse_first_event, parse_first_todo, Property};
use waycal::ics::{ical_unescape, ics_escape, ics_fold, ics_line};
use waycal::model::{Event, Task};
use waycal::time::{Date, Instant, Moment};

fn moment(t: DateTime<Local>) -> Moment {
    Moment { secs: t.timestamp(), nanos: t.timestamp_subsec_nanos(), offset: t.offset().local_minus_utc() }
}

fn day(y: i32, m: u32, d: u32) -> Date {
    Date { days: chrono::Datelike::num_days_from_ce(&NaiveDate::from_ymd_opt(y, m, d).unwrap()) }
}

fn instant(y: i32, mo: u32, d: u32, h: u32, mi: u32, s: u32) -> Instant {
    Instant { secs: Utc.with_ymd_and_hms(y, mo, d, h, mi, s).unwrap().timestamp(), nanos: 0 }
}

fn timed_draft() -> EventDraft {
    let start = Local.with_ymd_and_hms(2026, 9, 1, 14, 0, 0).unwrap();
    let end = Local.with_ymd_and_hms(2026, 9, 1, 15, 0, 0).unwrap();
    EventDraft {
        summary: "Team sync, weekly".to_string(),
        location: "Room A; B".to_string(),
        description: "Line1\nLine2".to_string(),
        all_day: false,
        start_date: day(2026, 9, 1),
        end_date: day(2026, 9, 1),
        start_time: Some(moment(start)),
        end_time: Some(moment(end)),
        attendees: vec!["a@example.com".to_string()],
        add_meet: false,
    }
}

fn all_day_draft(start: Date, end: Date) -> EventDraft {
    EventDraft {
        summary: "Holiday".into(),
        location: String::new(),
        description: String::new(),
        all_day: true,
        start_date: start,
        end_date: end,
        start_time: None,
        end_time: None,
        attendees: vec![],
        add_meet: false,
    }
}

#[test]
fn fold_short_line_unchanged() {
    assert_eq!(ics_fold("SUMMARY:short"), "SUMMARY:short\r\n");
}

#[test]
fn fold_respects_75_octet_limit_and_rejoins() {
    let value = "x".repeat(200);
    let line = format!("DESCRIPTION:{value}");
    let folded = ics_fold(&line);
    let physical: Vec<&str> = folded.split("\r\n").filter(|l| !l.is_empty()).collect();
    assert!(physical.len() > 1, "expected the line to actually fold");
    for l in &physical {
        assert!(l.len() <= 75, "line too long: {} bytes", l.len());
    }
    let rejoined: String =
        physical.iter().enumerate().map(|(i, l)| if i == 0 { *l } else { l.strip_prefix(' ').unwrap_or(l) }).collect();
    assert_eq!(rejoined, line);
}

#[test]
fn fold_never_splits_multibyte_utf8() {
    let value = "€".repeat(40); // 3 bytes each, 120 bytes total
    let line = format!("DESCRIPTION:{value}");
    let folded = ics_fold(&line);
    for physical in folded.split("\r\n").filter(|l| !l.is_empty()) {
        assert!(std::str::from_utf8(physical.as_bytes()).is_ok(), "fold split a multi-byte character");
    }
}

#[test]
fn fold_takes_as_much_as_fits() {
    assert_eq!(ics_fold(""), "\r\n");
    assert_eq!(ics_fold(&"x".repeat(75)), format!("{}\r\n", "x".repeat(75)));
    assert_eq!(ics_fold(&"x".repeat(76)), format!("{}\r\n x\r\n", "x".repeat(75)));
    assert_eq!(
        ics_fold(&"x".repeat(150)),
        format!("{}\r\n {}\r\n x\r\n", "x".repeat(75), "x".repeat(74))
    );
    // 25 characters of three octets fill a line; one more goes to the next.
    assert_eq!(ics_fold(&"€".repeat(26)), format!("{}\r\n €\r\n", "€".repeat(25)));
    // 73 octets and a character of four do not fit together.
    let line = format!("{}\u{1F600}", "x".repeat(73));
    assert_eq!(ics_fold(&line), format!("{}\r\n \u{1F600}\r\n", "x".repeat(73)));
}

#[test]
fn escape_produces_expected_wire_format() {
    assert_eq!(ics_escape("a,b;c\\d\ne"), "a\\,b\\;c\\\\d\\ne");
}

#[test]
fn unescape_undoes_escape() {
    for s in ["", "plain", "a,b;c\\d\ne", "\\n", "\\\\", ",;\n\\", "tail\\"] {
        assert_eq!(ical_unescape(&ics_escape(s)), s);
    }
    assert_eq!(ical_unescape("a\\Nb"), "a\nb");
    assert_eq!(ical_unescape("a\\xb"), "axb");
    assert_eq!(ical_unescape("end\\"), "end");
}

#[test]
fn line_escapes_its_value_only() {
    assert_eq!(ics_line("SUMMARY", "a;b"), "SUMMARY:a\\;b\r\n");
}

#[test]
fn property_is_rendered_verbatim() {
    let p = Property {
        name: "ORGANIZER".into(),
        params: Some(vec![
            ("CN".into(), vec!["Ann".into(), "Bob".into()]),
            ("ROLE".into(), vec!["CHAIR".into()]),
        ]),
        value: Some("mailto:a;b@example.com".into()),
    };
    assert_eq!(render_property(&p), "ORGANIZER;CN=Ann,Bob;ROLE=CHAIR:mailto:a;b@example.com\r\n");
    let bare = Property { name: "X-EMPTY".into(), params: None, value: None };
    assert_eq!(render_property(&bare), "X-EMPTY:\r\n");
}

#[test]
fn parameter_values_are_quoted_where_they_have_to_be() {
    let p = Property {
        name: "ATTENDEE".into(),
        params: Some(vec![
            ("CN".into(), vec!["Doe, Jane".into(), "plain".into()]),
            ("DIR".into(), vec!["ldap:x;y".into()]),
        ]),
        value: Some("mailto:j@example.com".into()),
    };
    let line = render_property(&p);
    assert_eq!(line, "ATTENDEE;CN=\"Doe, Jane\",plain;DIR=\"ldap:x;y\":mailto:j@example.com\r\n");
    let ics = format!("BEGIN:VCALENDAR\r\nBEGIN:VEVENT\r\n{line}END:VEVENT\r\nEND:VCALENDAR\r\n");
    let again = parse_first_event(&ics).unwrap();
    assert_eq!(again.properties[0].params, p.params);
    assert_eq!(again.properties[0].value, p.value);
}

#[test]
fn vevent_round_trips_through_parser() {
    let draft = timed_draft();
    let ics = build_vevent_ics(&draft, &EventCtx::for_create("test-uid".to_string()));
    let parsed = parse_first_event(&ics).unwrap();
    let ev = Event::from_ical("acct", "cal1", "Cal", "/href.ics", &parsed).unwrap();
    assert_eq!(ev.summary, draft.summary);
    assert_eq!(ev.location.as_deref(), Some(draft.location.as_str()));
    assert_eq!(ev.description.as_deref(), Some(draft.description.as_str()));
    assert_eq!(ev.attendees.len(), 1);
    assert_eq!(ev.attendees[0].email, "a@example.com");
    assert_eq!(ev.start_time.unwrap().instant(), draft.start_time.unwrap().instant());
}

#[test]
fn vevent_all_day_round_trip() {
    let draft = all_day_draft(day(2026, 9, 1), day(2026, 9, 1));
    let ics = build_vevent_ics(&draft, &EventCtx::for_create("uid2".into()));
    let parsed = parse_first_event(&ics).unwrap();
    let ev = Event::from_ical("acct", "cal1", "Cal", "/h.ics", &parsed).unwrap();
    assert!(ev.all_day);
    assert_eq!(ev.start_date, draft.start_date);
    assert_eq!(ev.end_date, draft.end_date);
    assert!(ev.location.is_none());
    assert!(ev.description.is_none());
}

#[test]
fn vevent_edit_preserves_existing_partstat() {
    let mut ctx = EventCtx::for_create("uid-edit".to_string());
    ctx.existing_partstat.insert("a@example.com".to_string(), "ACCEPTED".to_string());
    let draft = timed_draft();
    let ics = build_vevent_ics(&draft, &ctx);
    let parsed = parse_first_event(&ics).unwrap();
    let ev = Event::from_ical("acct", "cal1", "Cal", "/h.ics", &parsed).unwrap();
    assert_eq!(ev.attendees[0].status, "accepted");
}

#[test]
fn vtodo_round_trip() {
    let draft = TaskDraft { title: "Buy milk, eggs".into(), notes: "urgent\nplease".into(), due: Some(day(2026, 9, 1)) };
    let ics = build_vtodo_ics(&draft, "uid3", "NEEDS-ACTION", "");
    let parsed = parse_first_todo(&ics).unwrap();
    let t = Task::from_ical("acct", "list1", "List", "/t.ics", &parsed).unwrap();
    assert_eq!(t.title, draft.title);
    assert_eq!(t.notes.as_deref(), Some(draft.notes.as_str()));
    assert_eq!(t.due, draft.due);
    assert!(!t.completed);
}

#[test]
fn vtodo_completed_status_round_trip() {
    let draft = TaskDraft { title: "Done thing".into(), notes: String::new(), due: None };
    let extra = format!("{}{}", ics_fold("COMPLETED:20260901T000000Z"), ics_fold("PERCENT-COMPLETE:100"));
    let ics = build_vtodo_ics(&draft, "uid4", "COMPLETED", &extra);
    let parsed = parse_first_todo(&ics).unwrap();
    let t = Task::from_ical("acct", "list1", "List", "/t.ics", &parsed).unwrap();
    assert!(t.completed);
}

#[test]
fn vevent_text_is_exact() {
    let draft = EventDraft {
        start_time: Some(Moment { secs: instant(2026, 9, 1, 14, 0, 0).secs, nanos: 5, offset: 7200 }),
        end_time: Some(Moment { secs: instant(2026, 9, 1, 15, 30, 0).secs, nanos: 0, offset: 7200 }),
        ..timed_draft()
    };
    let now = instant(2026, 8, 1, 1, 2, 3);
    let ics = build_vevent(&draft, &EventCtx::for_create("u-1".into()), now);
    assert_eq!(
        ics,
        "BEGIN:VCALENDAR\r\nVERSION:2.0\r\nPRODID:-//waycal//caldav//EN\r\nBEGIN:VEVENT\r\n\
         UID:u-1\r\nDTSTAMP:20260801T010203Z\r\nDTSTART:20260901T140000Z\r\nDTEND:20260901T153000Z\r\n\
         SUMMARY:Team sync\\, weekly\r\nLOCATION:Room A\\; B\r\nDESCRIPTION:Line1\\nLine2\r\n\
         ATTENDEE;PARTSTAT=NEEDS-ACTION;RSVP=TRUE:mailto:a@example.com\r\nEND:VEVENT\r\nEND:VCALENDAR\r\n"
    );
}

#[test]
fn all_day_end_is_written_exclusive() {
    let draft = all_day_draft(day(2026, 12, 30), day(2026, 12, 31));
    let ics = build_vevent(&draft, &EventCtx::for_create("u".into()), instant(2026, 1, 1, 0, 0, 0));
    assert!(ics.contains("\r\nDTSTART;VALUE=DATE:20261230\r\n"));
    assert!(ics.contains("\r\nDTEND;VALUE=DATE:20270101\r\n"));
    let ev = parse_first_event(&ics).unwrap();
    let e = Event::from_ical("a", "c", "n", "/h", &ev).unwrap();
    assert_eq!(e.start_date, day(2026, 12, 30));
    assert_eq!(e.end_date, day(2026, 12, 31));
}

const OLD: &str = "BEGIN:VCALENDAR\r\nVERSION:2.0\r\nBEGIN:VEVENT\r\nUID:keep-me\r\nDTSTART:20260901T140000Z\r\n\
    SUMMARY:Old\r\nRRULE:FREQ=DAILY\r\nSEQUENCE:4\r\nORGANIZER;CN=Boss:mailto:boss@example.com\r\n\
    ATTENDEE;PARTSTAT=DECLINED:mailto:B@Example.com\r\nATTENDEE:MAILTO:a@example.com\r\n\
    BEGIN:VALARM\r\nACTION:DISPLAY\r\nTRIGGER:-PT15M\r\nEND:VALARM\r\nEND:VEVENT\r\nEND:VCALENDAR\r\n";

#[test]
fn edit_keeps_what_the_draft_does_not_say() {
    let old = parse_first_event(OLD).unwrap();
    let ctx = EventCtx::for_edit(&old);
    assert_eq!(ctx.uid, "keep-me");
    assert_eq!(ctx.sequence, Some(5));
    assert_eq!(ctx.organizer_raw.as_deref(), Some("ORGANIZER;CN=Boss:mailto:boss@example.com\r\n"));
    assert_eq!(ctx.kept_raw, "RRULE:FREQ=DAILY\r\n");
    assert_eq!(ctx.alarms_raw, "BEGIN:VALARM\r\nACTION:DISPLAY\r\nTRIGGER:-PT15M\r\nEND:VALARM\r\n");
    assert_eq!(ctx.existing_partstat.get("b@example.com").map(String::as_str), Some("DECLINED"));
    assert_eq!(ctx.existing_partstat.get("a@example.com").map(String::as_str), Some("NEEDS-ACTION"));
    assert!(ctx.existing_partstat.get("c@example.com").is_none());

    let mut draft = timed_draft();
    draft.attendees = vec!["b@EXAMPLE.com".into(), "boss@example.com".into()];
    let ics = build_vevent(&draft, &ctx, instant(2026, 8, 1, 0, 0, 0));
    assert!(ics.contains("\r\nATTENDEE;PARTSTAT=DECLINED:mailto:b@EXAMPLE.com\r\n"));
    assert!(ics.ends_with(
        "ORGANIZER;CN=Boss:mailto:boss@example.com\r\nRRULE:FREQ=DAILY\r\nSEQUENCE:5\r\n\
         BEGIN:VALARM\r\nACTION:DISPLAY\r\nTRIGGER:-PT15M\r\nEND:VALARM\r\nEND:VEVENT\r\nEND:VCALENDAR\r\n"
    ));
    let again = parse_first_event(&ics).unwrap();
    assert_eq!(EventCtx::for_edit(&again).sequence, Some(6));
    let e = Event::from_ical("acct", "cal", "Cal", "/h.ics", &again).unwrap();
    assert_eq!(e.summary, "Team sync, weekly");
    assert_eq!(e.reminder_overrides, Some(vec![15]));
    assert_eq!(e.attendees.len(), 2);
    assert_eq!(e.attendees[0].email, "boss@example.com");
    assert!(e.attendees[0].organizer);
    assert_eq!(e.attendees[1].status, "declined");
}

#[test]
fn sequence_that_is_no_number_counts_from_zero() {
    for (line, expected) in [("", 1), ("SEQUENCE:x\r\n", 1), ("SEQUENCE:+7\r\n", 8), ("SEQUENCE:4294967296\r\n", 1)] {
        let ics = format!("BEGIN:VCALENDAR\r\nBEGIN:VEVENT\r\n{line}END:VEVENT\r\nEND:VCALENDAR\r\n");
        let ev = parse_first_event(&ics).unwrap();
        assert_eq!(EventCtx::for_edit(&ev).sequence, Some(expected));
    }
}

#[test]
fn completed_task_is_written_as_such() {
    let draft = TaskDraft { title: "T".into(), notes: String::new(), due: Some(day(2026, 9, 1)) };
    let now = instant(2026, 9, 2, 3, 4, 5);
    let extra = completed_lines(now);
    assert_eq!(extra, "COMPLETED:20260902T030405Z\r\nPERCENT-COMPLETE:100\r\n");
    let ics = build_vtodo(&draft, "u", "COMPLETED", &extra, now);
    assert_eq!(
        ics,
        "BEGIN:VCALENDAR\r\nVERSION:2.0\r\nPRODID:-//waycal//caldav//EN\r\nBEGIN:VTODO\r\nUID:u\r\n\
         DTSTAMP:20260902T030405Z\r\nSUMMARY:T\r\nDUE;VALUE=DATE:20260901\r\nSTATUS:COMPLETED\r\n\
         COMPLETED:20260902T030405Z\r\nPERCENT-COMPLETE:100\r\nEND:VTODO\r\nEND:VCALENDAR\r\n"
    );
    let t = Task::from_ical("a", "l", "L", "/t", &parse_first_todo(&ics).unwrap()).unwrap();
    assert!(t.completed);
    assert_eq!(t.title, "T");
    assert_eq!(t.due, Some(day(2026, 9, 1)));
    assert_eq!(t.notes, None);
}

#[test]
fn drafts_that_cannot_be_written_are_told_apart() {
    let mut draft = timed_draft();
    assert!(draft.is_ready());
    draft.end_time = None;
    assert!(!draft.is_ready());
    let last = Date { days: waycal::time::MAX_DAYS };
    assert!(!all_day_draft(day(2026, 1, 1), last).is_ready());
    assert!(all_day_draft(day(2026, 1, 1), day(2026, 1, 1)).is_ready());
    assert!(TaskDraft { title: String::new(), notes: String::new(), due: Some(last) }.is_ready());
    assert!(!TaskDraft { title: String::new(), notes: String::new(), due: Some(Date { days: last.days + 1 }) }.is_ready());
}

#[test]
fn long_texts_with_escapes_come_back() {
    let mut draft = timed_draft();
    draft.summary = format!("{};{}", "ä".repeat(60), "b,".repeat(80));
    draft.description = "word,\n".repeat(40).trim_end().to_string();
    let ics = build_vevent_ics(&draft, &EventCtx::for_create("u".into()));
    for line in ics.split("\r\n") {
        assert!(line.len() <= 75);
    }
    let e = Event::from_ical("a", "c", "n", "/h", &parse_first_event(&ics).unwrap()).unwrap();
    assert_eq!(e.summary, draft.summary);
    assert_eq!(e.description.as_deref(), Some(draft.description.as_str()));
}
