use chrono::{NaiveDate, TimeZone, Utc};

use waycal::backend::{AccountData, EventDraft, TaskDraft};
use waycal::caldav::{
    absorb, auth_header, calendar_data_items, calendars_url, connect, delete, events_report_body, get_event, get_todo,
    list_calendars, list_calendars_request, new_item_href, ok, plan, put_ics, report_request, request, resolve, settings, span,
    todos_report_body, window, Edit, Nc, NextcloudBackend, Part, Reply, Settings, Step,
};
use waycal::config::{Account, Provider};
use waycal::dav::CalendarInfo;
use waycal::ical::{parse_first_event, parse_first_todo};
use waycal::model::{Event, Task};
use waycal::time::{Date, Instant, Moment};

fn day(y: i32, m: u32, d: u32) -> Date {
    Date { days: chrono::Datelike::num_days_from_ce(&NaiveDate::from_ymd_opt(y, m, d).unwrap()) }
}

fn instant(y: i32, mo: u32, d: u32, h: u32, mi: u32, s: u32) -> Instant {
    Instant { secs: Utc.with_ymd_and_hms(y, mo, d, h, mi, s).unwrap().timestamp(), nanos: 0 }
}

fn nc() -> Nc {
    Nc { base: "https://cloud.example.com".into(), username: "alice".into(), password: "s3cret".into() }
}

fn account() -> Account {
    Account {
        name: "nc".into(),
        provider: Provider::Nextcloud,
        color: "c".into(),
        config_dir: None,
        credentials_file: None,
        server_url: Some("https://cloud.example.com//".into()),
        username: Some("alice".into()),
        app_password_file: Some("~/pw".into()),
    }
}

fn info(href: &str, name: &str, writable: bool, events: bool, tasks: bool) -> CalendarInfo {
    CalendarInfo {
        href: href.into(),
        displayname: name.into(),
        writable,
        supports_vevent: events,
        supports_vtodo: tasks,
    }
}

const PROPFIND: &str = r#"<?xml version="1.0"?>
<d:multistatus xmlns:d="DAV:" xmlns:c="urn:ietf:params:xml:ns:caldav" xmlns:x="urn:x">
 <d:response><d:href>/cal/</d:href><d:propstat><d:prop><d:resourcetype><d:collection/></d:resourcetype></d:prop></d:propstat></d:response>
 <d:response><d:href>/cal/work/</d:href><d:propstat><d:prop>
   <d:displayname>Work</d:displayname>
   <d:resourcetype><d:collection/><c:calendar/></d:resourcetype>
   <c:supported-calendar-component-set><c:comp name="VEVENT"/><c:comp name="VTODO"/></c:supported-calendar-component-set>
   <d:current-user-privilege-set><d:privilege><d:read/></d:privilege><d:privilege><d:write/></d:privilege></d:current-user-privilege-set>
 </d:prop></d:propstat></d:response>
 <d:response><d:href>/cal/shared/</d:href><d:propstat><d:prop>
   <d:displayname/>
   <d:resourcetype><c:calendar/></d:resourcetype>
   <c:supported-calendar-component-set><c:comp name="VEVENT"/><d:comp name="VTODO"/></c:supported-calendar-component-set>
   <d:current-user-privilege-set><d:privilege><x:sub><d:write/></x:sub></d:privilege></d:current-user-privilege-set>
 </d:prop></d:propstat></d:response>
 <d:response><d:propstat><d:prop><d:resourcetype><c:calendar/></d:resourcetype></d:prop></d:propstat></d:response>
 <d:response><d:href>/cal/odd/</d:href><d:propstat><d:prop>
   <d:resourcetype><x:wrap><c:calendar/></x:wrap></d:resourcetype>
 </d:prop></d:propstat></d:response>
 <d:response><d:href>/cal/tasks/</d:href><d:propstat><d:prop>
   <d:resourcetype><c:calendar/></d:resourcetype>
   <c:supported-calendar-component-set><c:comp name="VTODO"/></c:supported-calendar-component-set>
   <d:current-user-privilege-set><d:privilege><x:all/></d:privilege></d:current-user-privilege-set>
 </d:prop></d:propstat></d:response>
</d:multistatus>"#;

#[test]
fn calendars_are_read_out_of_a_multistatus() {
    let cals = list_calendars(Ok((207, PROPFIND.to_string()))).unwrap();
    let seen: Vec<(&str, &str, bool, bool, bool)> = cals
        .iter()
        .map(|c| (c.href.as_str(), c.displayname.as_str(), c.writable, c.supports_vevent, c.supports_vtodo))
        .collect();
    assert_eq!(
        seen,
        vec![
            ("/cal/work/", "Work", true, true, true),
            // A privilege counts only as a child, and a component only in its namespace.
            ("/cal/shared/", "", false, true, false),
            ("/cal/tasks/", "", true, false, true),
        ]
    );
}

#[test]
fn listing_reports_what_went_wrong() {
    assert_eq!(list_calendars(Err("down".into())).unwrap_err(), "down");
    assert_eq!(list_calendars(Ok((401, String::new()))).unwrap_err(), "PROPFIND calendars: HTTP 401");
    let err = list_calendars(Ok((207, "<a>".into()))).unwrap_err();
    assert!(err.starts_with("bad PROPFIND response: "), "unexpected error: {err}");
    let err = calendar_data_items("no xml").unwrap_err();
    assert!(err.starts_with("bad REPORT response: "), "unexpected error: {err}");
}

#[test]
fn report_items_need_an_address_and_data() {
    let body = r#"<d:multistatus xmlns:d="DAV:" xmlns:c="urn:ietf:params:xml:ns:caldav">
        <d:response><d:href>/a.ics</d:href><c:calendar-data>A &amp; B</c:calendar-data></d:response>
        <d:response><d:href>/b.ics</d:href></d:response>
        <d:response><c:calendar-data>C</c:calendar-data></d:response>
        <d:response><d:href>/d.ics</d:href><d:calendar-data>D</d:calendar-data></d:response>
        <d:response><d:href>/e.ics</d:href><c:calendar-data><![CDATA[E]]></c:calendar-data></d:response>
        </d:multistatus>"#;
    assert_eq!(
        calendar_data_items(body).unwrap(),
        vec![("/a.ics".to_string(), "A & B".to_string()), ("/e.ics".to_string(), "E".to_string())]
    );
}

#[test]
fn settings_name_what_is_missing() {
    let s = settings(&account()).unwrap();
    assert_eq!((s.account.as_str(), s.username.as_str(), s.app_password_file.as_str()), ("nc", "alice", "~/pw"));
    let mut a = account();
    a.app_password_file = None;
    assert_eq!(settings(&a).unwrap_err(), "[nc] missing app_password_file");
    a.username = None;
    assert_eq!(settings(&a).unwrap_err(), "[nc] missing username");
    a.server_url = None;
    assert_eq!(settings(&a).unwrap_err(), "[nc] missing server_url");
}

#[test]
fn connection_is_cleaned_up() {
    let s: Settings = settings(&account()).unwrap();
    let n = connect(&s, Ok(" s3cret\n".into())).unwrap();
    assert_eq!((n.base.as_str(), n.username.as_str(), n.password.as_str()), ("https://cloud.example.com", "alice", "s3cret"));
    assert_eq!(connect(&s, Err("gone".into())).unwrap_err(), "[nc] cannot read app_password_file: gone");
}

#[test]
fn authorization_is_base64() {
    // "alice:s3cret"
    assert_eq!(auth_header(&nc()), "Basic YWxpY2U6czNjcmV0");
}

#[test]
fn addresses_are_resolved() {
    assert_eq!(calendars_url(&nc()), "/remote.php/dav/calendars/alice/");
    assert_eq!(resolve(&nc(), "/x"), "https://cloud.example.com/x");
    assert_eq!(resolve(&nc(), "https://other/x"), "https://other/x");
    assert_eq!(new_item_href("/cal", "u"), "/cal/u.ics");
    assert_eq!(new_item_href("/cal/", "u"), "/cal/u.ics");
    assert!(ok(200) && ok(299) && !ok(199) && !ok(300));
}

#[test]
fn requests_carry_their_headers() {
    let names = |r: &waycal::caldav::Request| -> Vec<(String, String)> { r.headers.clone() };
    let auth = ("Authorization".to_string(), "Basic YWxpY2U6czNjcmV0".to_string());
    let list = list_calendars_request(&nc());
    assert_eq!((list.method.as_str(), list.url.as_str()), ("PROPFIND", "https://cloud.example.com/remote.php/dav/calendars/alice/"));
    assert_eq!(
        names(&list),
        vec![
            auth.clone(),
            ("Content-Type".to_string(), "application/xml; charset=utf-8".to_string()),
            ("Depth".to_string(), "1".to_string())
        ]
    );
    assert!(list.body.starts_with("<?xml version=\"1.0\" encoding=\"utf-8\"?>\n<d:propfind xmlns:d=\"DAV:\""));
    assert!(roxmltree::Document::parse(&list.body).is_ok());
    let get = request(&nc(), "GET", "/x", None, String::new());
    assert_eq!(names(&get), vec![auth.clone()]);
    assert_eq!(get.failure("no route"), "GET https://cloud.example.com/x: no route");
    let put = request(&nc(), "PUT", "/x", Some("text/calendar; charset=utf-8"), "b".into());
    assert_eq!(names(&put), vec![auth, ("Content-Type".to_string(), "text/calendar; charset=utf-8".to_string())]);
}

#[test]
fn report_bodies_are_exact() {
    let body = events_report_body(instant(2026, 9, 1, 0, 0, 0), instant(2026, 10, 1, 22, 0, 0));
    assert!(body.contains("<cal:time-range start=\"20260901T000000Z\" end=\"20261001T220000Z\"/>"));
    let doc = roxmltree::Document::parse(&body).unwrap();
    assert!(doc.root_element().has_tag_name(("urn:ietf:params:xml:ns:caldav", "calendar-query")));
    assert!(roxmltree::Document::parse(&todos_report_body()).is_ok());
    assert!(todos_report_body().contains("<cal:comp-filter name=\"VTODO\"/>"));
    let r = report_request(&nc(), &info("/cal/w/", "W", true, true, true), Part::Tasks, instant(2026, 9, 1, 0, 0, 0), instant(2026, 9, 2, 0, 0, 0));
    assert_eq!((r.method.as_str(), r.url.as_str(), r.body), ("REPORT", "https://cloud.example.com/cal/w/", todos_report_body()));
}

#[test]
fn plan_asks_each_calendar_for_what_it_takes() {
    let cals = vec![info("/a", "A", true, true, true), info("/b", "B", true, false, false), info("/c", "C", true, false, true)];
    assert_eq!(
        plan(&cals),
        vec![
            Step { calendar: 0, part: Part::Events },
            Step { calendar: 0, part: Part::Tasks },
            Step { calendar: 2, part: Part::Tasks }
        ]
    );
}

fn report(items: &[(&str, &str)]) -> Reply {
    let mut body = String::from("<d:multistatus xmlns:d=\"DAV:\" xmlns:c=\"urn:ietf:params:xml:ns:caldav\">");
    for (href, data) in items {
        body.push_str(&format!("<d:response><d:href>{href}</d:href><c:calendar-data>{data}</c:calendar-data></d:response>"));
    }
    body.push_str("</d:multistatus>");
    Ok((207, body))
}

fn vevent(lines: &str) -> String {
    format!("BEGIN:VCALENDAR\nBEGIN:VEVENT\n{lines}\nEND:VEVENT\nEND:VCALENDAR\n")
}

fn vtodo(lines: &str) -> String {
    format!("BEGIN:VCALENDAR\nBEGIN:VTODO\n{lines}\nEND:VTODO\nEND:VCALENDAR\n")
}

#[test]
fn fetching_keeps_what_could_be_had() {
    let cals = vec![
        info("/w/", "Work", true, true, true),
        info("/r/", "Read", false, true, false),
        info("/t/", "Todo", false, false, true),
    ];
    let late = vevent("DTSTART:20260903T100000Z\nSUMMARY:Late");
    let early = vevent("DTSTART:20260901T100000Z\nSUMMARY:Early");
    let replies: Vec<Reply> = vec![
        report(&[("/w/1.ics", &late), ("/w/2.ics", "broken"), ("/w/3.ics", &vevent("SUMMARY:no start")), ("/w/4.ics", &early)]),
        Ok((500, String::new())),
        Err("GET x: down".into()),
        report(&[("/t/1.ics", &vtodo("SUMMARY:Task"))]),
    ];
    let (data, errors) = NextcloudBackend.fetch_account(&account(), &cals, replies).unwrap();
    let events: Vec<(&str, &str, &str)> =
        data.events.iter().map(|e| (e.summary.as_str(), e.id.as_str(), e.calendar_name.as_str())).collect();
    assert_eq!(events, vec![("Early", "/w/4.ics", "Work"), ("Late", "/w/1.ics", "Work")]);
    let calendars: Vec<(&str, &str, bool)> =
        data.calendars.iter().map(|c| (c.id.as_str(), c.access_role.as_str(), c.writable())).collect();
    assert_eq!(calendars, vec![("/w/", "owner", true), ("/r/", "reader", false)]);
    let lists: Vec<&str> = data.tasklists.iter().map(|l| l.title.as_str()).collect();
    assert_eq!(lists, vec!["Work", "Todo"]);
    assert_eq!(data.tasks.len(), 1);
    assert_eq!((data.tasks[0].title.as_str(), data.tasks[0].tasklist_id.as_str()), ("Task", "/t/"));
    assert_eq!(errors, vec!["[nc] REPORT /w/ (tasks): HTTP 500".to_string(), "GET x: down".to_string()]);
}

#[test]
fn events_that_start_together_keep_their_order() {
    let cals = vec![info("/w/", "W", true, true, false)];
    let at = |s: &str| vevent(&format!("DTSTART:20260901T100000Z\nSUMMARY:{s}"));
    let day_only = vevent("DTSTART;VALUE=DATE:20260901\nSUMMARY:day");
    let replies: Vec<Reply> = vec![report(&[("/1", &at("a")), ("/2", &at("b")), ("/3", &day_only), ("/4", &at("c"))])];
    let (data, _) = NextcloudBackend.fetch_account(&account(), &cals, replies).unwrap();
    let seen: Vec<&str> = data.events.iter().map(|e| e.summary.as_str()).collect();
    assert_eq!(seen, vec!["day", "a", "b", "c"]);
}

#[test]
fn alarms_beyond_counting_stop_the_fetch() {
    let cals = vec![info("/w/", "W", true, true, false)];
    let ics = "BEGIN:VCALENDAR\nBEGIN:VEVENT\nDTSTART:20260901T100000Z\nBEGIN:VALARM\nACTION:DISPLAY\n\
               TRIGGER:-P9223372036854775807W\nEND:VALARM\nEND:VEVENT\nEND:VCALENDAR\n";
    assert!(NextcloudBackend.fetch_account(&account(), &cals, vec![report(&[("/1", ics)])]).is_none());
    let mut data = AccountData::default();
    let mut errors: Vec<String> = Vec::new();
    assert!(!absorb("nc", &cals[0], Part::Events, report(&[("/1", ics)]), &mut data, &mut errors));
    assert!(data.calendars.is_empty() && data.events.is_empty() && errors.is_empty());
}

#[test]
fn failed_report_still_adds_its_calendar() {
    let mut data = AccountData::default();
    let mut errors: Vec<String> = Vec::new();
    let cal = info("/w/", "W", true, true, false);
    assert!(absorb("nc", &cal, Part::Events, Ok((503, String::new())), &mut data, &mut errors));
    assert_eq!(data.calendars.len(), 1);
    assert_eq!(errors, vec!["[nc] REPORT /w/ (events): HTTP 503".to_string()]);
}

fn timed_draft() -> EventDraft {
    let start = instant(2026, 9, 1, 14, 0, 0);
    let end = instant(2026, 9, 1, 15, 0, 0);
    EventDraft {
        summary: "New".into(),
        location: String::new(),
        description: String::new(),
        all_day: false,
        start_date: day(2026, 9, 1),
        end_date: day(2026, 9, 1),
        start_time: Some(Moment { secs: start.secs, nanos: 0, offset: 0 }),
        end_time: Some(Moment { secs: end.secs, nanos: 0, offset: 0 }),
        attendees: vec![],
        add_meet: true,
    }
}

#[test]
fn new_event_is_put_under_a_fresh_uid() {
    let (href, a) = NextcloudBackend.insert_event(&nc(), "/cal/w/", &timed_draft());
    let (_, b) = NextcloudBackend.insert_event(&nc(), "/cal/w/", &timed_draft());
    assert_eq!(a.url, format!("https://cloud.example.com{href}"));
    assert_eq!(a.method, "PUT");
    let uid = a.url.strip_prefix("https://cloud.example.com/cal/w/").unwrap().strip_suffix(".ics").unwrap();
    assert_eq!(uid.len(), 36);
    assert!(uuid::Uuid::parse_str(uid).is_ok());
    assert!(a.body.contains(&format!("\r\nUID:{uid}\r\n")));
    assert_ne!(a.url, b.url);
    let e = Event::from_ical("nc", "/cal/w/", "W", &a.url, &parse_first_event(&a.body).unwrap()).unwrap();
    assert_eq!(e.summary, "New");
    assert_eq!(e.start_time.unwrap().secs, instant(2026, 9, 1, 14, 0, 0).secs);
}

#[test]
fn event_is_edited_on_top_of_the_current_one() {
    let first = NextcloudBackend.patch_event(&nc(), "/cal/w/1.ics");
    assert_eq!((first.method.as_str(), first.url.as_str()), ("GET", "https://cloud.example.com/cal/w/1.ics"));
    let current = vevent("UID:keep\nSEQUENCE:2\nORGANIZER:mailto:o@x\nDTSTART:20260101T000000Z\nSUMMARY:Old");
    match NextcloudBackend.patch_event_with(&nc(), "/cal/w/1.ics", &timed_draft(), Ok((200, current))) {
        Edit::Put(r) => {
            assert_eq!((r.method.as_str(), r.url.as_str()), ("PUT", "https://cloud.example.com/cal/w/1.ics"));
            assert!(r.body.contains("\r\nUID:keep\r\n"));
            assert!(r.body.contains("\r\nORGANIZER:mailto:o@x\r\nSEQUENCE:3\r\n"));
            assert!(r.body.contains("\r\nSUMMARY:New\r\n"));
        }
        other => panic!("unexpected {other:?}"),
    }
    match NextcloudBackend.patch_event_with(&nc(), "/1", &timed_draft(), Ok((404, String::new()))) {
        Edit::Failed(e) => assert_eq!(e, "GET /1: HTTP 404"),
        other => panic!("unexpected {other:?}"),
    }
    match NextcloudBackend.patch_event_with(&nc(), "/1", &timed_draft(), Ok((200, vtodo("UID:x")))) {
        Edit::Failed(e) => assert_eq!(e, "GET /1: no VEVENT in response"),
        other => panic!("unexpected {other:?}"),
    }
    let spent = vevent("SEQUENCE:4294967295\nDTSTART:20260101T000000Z");
    assert!(matches!(NextcloudBackend.patch_event_with(&nc(), "/1", &timed_draft(), Ok((200, spent))), Edit::OutOfRange));
}

#[test]
fn tasks_are_saved_open() {
    let draft = TaskDraft { title: "T".into(), notes: "n".into(), due: Some(day(2026, 9, 1)) };
    let (href, r) = NextcloudBackend.insert_task(&nc(), "/l", &draft);
    assert_eq!(r.url, format!("https://cloud.example.com{href}"));
    assert!(r.url.starts_with("https://cloud.example.com/l/") && r.url.ends_with(".ics"));
    assert!(r.body.contains("\r\nSTATUS:NEEDS-ACTION\r\nEND:VTODO\r\n"));
    let current = vtodo("UID:u9\nSUMMARY:Old\nSTATUS:COMPLETED");
    assert_eq!(NextcloudBackend.update_task(&nc(), "/l/1.ics").method, "GET");
    match NextcloudBackend.update_task_with(&nc(), "/l/1.ics", &draft, Ok((200, current))) {
        Edit::Put(r) => {
            assert!(r.body.contains("\r\nUID:u9\r\n"));
            let t = Task::from_ical("nc", "l", "L", "/l/1.ics", &parse_first_todo(&r.body).unwrap()).unwrap();
            assert!(!t.completed);
            assert_eq!((t.title.as_str(), t.notes.as_deref(), t.due), ("T", Some("n"), Some(day(2026, 9, 1))));
        }
        other => panic!("unexpected {other:?}"),
    }
    match NextcloudBackend.update_task_with(&nc(), "/1", &draft, Ok((200, vevent("UID:x")))) {
        Edit::Failed(e) => assert_eq!(e, "GET /1: no VTODO in response"),
        other => panic!("unexpected {other:?}"),
    }
}

#[test]
fn completing_a_task_keeps_everything_else() {
    let current = vtodo(
        "UID:u9\nSUMMARY:Buy\\, now\nDESCRIPTION:a\\nb\nDUE;VALUE=DATE:20260901\nRRULE:FREQ=DAILY\nX-A:1\n\
         BEGIN:VALARM\nTRIGGER:-PT5M\nEND:VALARM",
    );
    assert_eq!(NextcloudBackend.complete_task(&nc(), "/l/1.ics").method, "GET");
    match NextcloudBackend.complete_task_with(&nc(), &account(), "/l", "/l/1.ics", Ok((200, current))) {
        Edit::Put(r) => {
            assert!(r.body.contains("\r\nUID:u9\r\n"));
            assert!(r.body.contains("\r\nSTATUS:COMPLETED\r\nRRULE:FREQ=DAILY\r\nX-A:1\r\nCOMPLETED:"));
            assert!(r.body.ends_with(
                "\r\nPERCENT-COMPLETE:100\r\nBEGIN:VALARM\r\nTRIGGER:-PT5M\r\nEND:VALARM\r\nEND:VTODO\r\nEND:VCALENDAR\r\n"
            ));
            let t = Task::from_ical("nc", "l", "L", "/l/1.ics", &parse_first_todo(&r.body).unwrap()).unwrap();
            assert!(t.completed);
            assert_eq!((t.title.as_str(), t.notes.as_deref(), t.due), ("Buy, now", Some("a\nb"), Some(day(2026, 9, 1))));
        }
        other => panic!("unexpected {other:?}"),
    }
    match NextcloudBackend.complete_task_with(&nc(), &account(), "/l", "/1", Err("down".into())) {
        Edit::Failed(e) => assert_eq!(e, "down"),
        other => panic!("unexpected {other:?}"),
    }
}

#[test]
fn completing_a_task_is_exact() {
    let current = vtodo(
        "UID:u9\nDTSTAMP:20250101T000000Z\nSUMMARY:Buy\nDUE;TZID=Europe/Berlin:20260901T090000\nPRIORITY:1\n\
         RRULE:FREQ=WEEKLY\nSTATUS:IN-PROCESS\nPERCENT-COMPLETE:40\nCATEGORIES:home,shop\n\
         BEGIN:VALARM\nACTION:DISPLAY\nTRIGGER:-PT30M\nEND:VALARM",
    );
    let todo = parse_first_todo(&current).unwrap();
    let task = Task::from_ical("nc", "l", "L", "/l/1.ics", &todo).unwrap();
    let r = NextcloudBackend.complete_task_at(
        &nc(),
        "/l/1.ics",
        &todo,
        task,
        instant(2026, 8, 1, 1, 2, 3),
        instant(2026, 8, 1, 1, 2, 4),
    );
    assert_eq!(
        r.body,
        "BEGIN:VCALENDAR\r\nVERSION:2.0\r\nPRODID:-//waycal//caldav//EN\r\nBEGIN:VTODO\r\nUID:u9\r\n\
         DTSTAMP:20260801T010204Z\r\nSUMMARY:Buy\r\nSTATUS:COMPLETED\r\n\
         DUE;TZID=Europe/Berlin:20260901T090000\r\nPRIORITY:1\r\nRRULE:FREQ=WEEKLY\r\nCATEGORIES:home,shop\r\n\
         COMPLETED:20260801T010203Z\r\nPERCENT-COMPLETE:100\r\n\
         BEGIN:VALARM\r\nACTION:DISPLAY\r\nTRIGGER:-PT30M\r\nEND:VALARM\r\nEND:VTODO\r\nEND:VCALENDAR\r\n"
    );
}

#[test]
fn editing_a_task_keeps_what_the_draft_does_not_say() {
    let current = vtodo(
        "UID:u9\nSUMMARY:Old\nDESCRIPTION:gone\nDTSTART:20260801T080000Z\nDURATION:PT1H\nRRULE:FREQ=WEEKLY\n\
         STATUS:COMPLETED\nCOMPLETED:20260701T000000Z\nPERCENT-COMPLETE:100\nX-SORT;X-A=\"p,q\":7\n\
         BEGIN:VALARM\nACTION:DISPLAY\nTRIGGER:-PT30M\nEND:VALARM",
    );
    let now = instant(2026, 8, 1, 1, 2, 3);
    let mut draft = TaskDraft { title: "T".into(), notes: String::new(), due: Some(day(2026, 9, 1)) };
    let body = |draft: &TaskDraft| match NextcloudBackend.update_task_at(&nc(), "/1", draft, Ok((200, current.clone())), now) {
        Edit::Put(r) => r.body,
        other => panic!("unexpected {other:?}"),
    };
    assert_eq!(
        body(&draft),
        "BEGIN:VCALENDAR\r\nVERSION:2.0\r\nPRODID:-//waycal//caldav//EN\r\nBEGIN:VTODO\r\nUID:u9\r\n\
         DTSTAMP:20260801T010203Z\r\nSUMMARY:T\r\nDUE;VALUE=DATE:20260901\r\nSTATUS:NEEDS-ACTION\r\n\
         DTSTART:20260801T080000Z\r\nRRULE:FREQ=WEEKLY\r\nX-SORT;X-A=\"p,q\":7\r\n\
         BEGIN:VALARM\r\nACTION:DISPLAY\r\nTRIGGER:-PT30M\r\nEND:VALARM\r\nEND:VTODO\r\nEND:VCALENDAR\r\n"
    );
    draft.due = None;
    let open = body(&draft);
    assert!(open.contains("\r\nDURATION:PT1H\r\n") && !open.contains("DUE"));
    let again = parse_first_todo(&open).unwrap();
    assert_eq!(again.alarms.len(), 1);
    let t = Task::from_ical("nc", "l", "L", "/1", &again).unwrap();
    assert_eq!((t.title.as_str(), t.notes, t.due, t.completed), ("T", None, None, false));
}

#[test]
fn editing_an_event_keeps_what_the_draft_does_not_say() {
    let current = vevent(
        "UID:keep\nDTSTAMP:20250101T000000Z\nDTSTART:20260101T000000Z\nDURATION:PT1H\nSUMMARY:Old\nLOCATION:gone\n\
         RRULE:FREQ=DAILY\nEXDATE:20260102T000000Z\nSEQUENCE:2\nCLASS:PRIVATE\nTRANSP:TRANSPARENT\n\
         ORGANIZER:mailto:o@x\nURL;X-L=\"a:b\":https://example.com/x",
    );
    match NextcloudBackend.patch_event_at(&nc(), "/1", &timed_draft(), Ok((200, current)), instant(2026, 8, 1, 1, 2, 3)) {
        Edit::Put(r) => assert_eq!(
            r.body,
            "BEGIN:VCALENDAR\r\nVERSION:2.0\r\nPRODID:-//waycal//caldav//EN\r\nBEGIN:VEVENT\r\nUID:keep\r\n\
             DTSTAMP:20260801T010203Z\r\nDTSTART:20260901T140000Z\r\nDTEND:20260901T150000Z\r\nSUMMARY:New\r\n\
             ORGANIZER:mailto:o@x\r\nRRULE:FREQ=DAILY\r\nEXDATE:20260102T000000Z\r\nCLASS:PRIVATE\r\n\
             TRANSP:TRANSPARENT\r\nURL;X-L=\"a:b\":https://example.com/x\r\nSEQUENCE:3\r\n\
             END:VEVENT\r\nEND:VCALENDAR\r\n"
        ),
        other => panic!("unexpected {other:?}"),
    }
}

#[test]
fn replies_to_changes_are_judged() {
    assert_eq!(put_ics("/x", Ok((201, String::new()))), Ok(()));
    assert_eq!(put_ics("/x", Ok((404, String::new()))), Err("PUT /x: HTTP 404".to_string()));
    assert_eq!(put_ics("/x", Err("e".into())), Err("e".to_string()));
    assert_eq!(delete("/x", Ok((204, String::new()))), Ok(()));
    assert_eq!(delete("/x", Ok((404, String::new()))), Ok(()));
    assert_eq!(delete("/x", Ok((403, String::new()))), Err("DELETE /x: HTTP 403".to_string()));
    assert_eq!(NextcloudBackend.delete_event(&nc(), "/x").method, "DELETE");
    assert_eq!(NextcloudBackend.delete_task(&nc(), "/x").url, "https://cloud.example.com/x");
    assert_eq!(get_event("/x", Err("e".into())).unwrap_err(), "e");
    assert_eq!(get_todo("/x", Ok((500, String::new()))).unwrap_err(), "GET /x: HTTP 500");
}

#[test]
fn window_is_made_of_local_midnights() {
    let (from, to) = window(day(2026, 9, 1), day(2026, 9, 3)).unwrap();
    let local = |d: u32| {
        chrono::Local.with_ymd_and_hms(2026, 9, d, 0, 0, 0).unwrap().timestamp()
    };
    assert_eq!((from.secs, to.secs), (local(1), local(3)));
}

#[test]
fn span_needs_both_midnights() {
    let m = Moment { secs: 1_000, nanos: 0, offset: 3_600 };
    let n = Moment { secs: 87_400, nanos: 0, offset: 0 };
    assert_eq!(span(Some(m), Some(n)), Some((Instant { secs: 1_000, nanos: 0 }, Instant { secs: 87_400, nanos: 0 })));
    assert_eq!(span(None, Some(n)), None);
    assert_eq!(span(Some(m), None), None);
    assert_eq!(span(None, None), None);
}
