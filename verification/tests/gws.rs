use chrono::{NaiveDate, TimeZone, Utc};

use waycal::backend::{EventDraft, TaskDraft};
use waycal::config::{Account, Provider};
use waycal::daemon::is_without_data;
use waycal::gws::{
    changed, event_body, event_body_at, is_answered, list_calendars, list_calendars_command, list_events, list_events_command,
    list_tasklists, list_tasklists_command, list_tasks, list_tasks_command, run, run_answer, task_body, tasks_are_cuttable,
    GoogleBackend, Outcome,
};
use waycal::json::{read_json, write_json, Json};
use waycal::model::{Calendar, Event, Task, TaskList};
use waycal::time::{Date, Moment};

fn day(y: i32, m: u32, d: u32) -> Date {
    Date { days: chrono::Datelike::num_days_from_ce(&NaiveDate::from_ymd_opt(y, m, d).unwrap()) }
}

fn moment(h: u32, offset: i32) -> Moment {
    Moment { secs: Utc.with_ymd_and_hms(2026, 9, 1, h, 0, 0).unwrap().timestamp(), nanos: 0, offset }
}

fn account() -> Account {
    Account {
        name: "g".into(),
        provider: Provider::Google,
        color: "c".into(),
        config_dir: Some("/conf".into()),
        credentials_file: Some("/cred".into()),
        server_url: None,
        username: None,
        app_password_file: None,
    }
}

fn json(text: &str) -> Json {
    read_json(text).unwrap()
}

fn calendar() -> Calendar {
    Calendar::from_json("g", &json(r#"{"id":"c1","summary":"Cal"}"#)).unwrap()
}

fn words(list: &[&str]) -> Vec<String> {
    list.iter().map(|s| s.to_string()).collect()
}

fn draft() -> EventDraft {
    EventDraft {
        summary: "S".into(),
        location: "L".into(),
        description: "D".into(),
        all_day: false,
        start_date: day(2026, 9, 1),
        end_date: day(2026, 9, 1),
        start_time: Some(moment(12, 7200)),
        end_time: Some(moment(13, 7200)),
        attendees: vec![],
        add_meet: false,
    }
}

#[test]
fn invocation_carries_configuration_and_json() {
    let i = run(&account(), words(&["a", "b"]), Some(json(r#"{"k":1}"#)), Some(json(r#"{"x":[]}"#))).unwrap();
    assert_eq!((i.config_dir.as_str(), i.credentials_file.as_str()), ("/conf", "/cred"));
    assert_eq!(i.args, words(&["a", "b", "--params", r#"{"k":1}"#, "--json", r#"{"x":[]}"#]));
    let mut a = account();
    a.credentials_file = None;
    assert_eq!(run(&a, words(&[]), None, None).unwrap_err(), "[g] missing credentials_file");
    a.config_dir = None;
    assert_eq!(run(&a, words(&[]), None, None).unwrap_err(), "[g] missing config_dir");
}

#[test]
fn answers_are_read() {
    let w = words(&["calendar", "events", "list"]);
    let ended = |ok: bool, out: &str, err: &str| Outcome::Ended(ok, out.to_string(), err.to_string());
    let read = |o: Outcome| run_answer(&account(), &w, o);
    assert_eq!(read(Outcome::NotRun("no such file".into())).unwrap_err(), "[g] cannot run gws: no such file");
    assert!(matches!(read(ended(true, " \n", "")), Ok(Json::Null)));
    assert_eq!(read(ended(true, " {\"a\":1}\n", "warning")).unwrap().i64_at("a"), Some(1));
    let err = read(ended(true, "oops", "")).unwrap_err();
    assert!(err.starts_with("[g] bad JSON from gws: "), "unexpected error: {err}");
    let failed = |stderr: &str| read(ended(false, "{}", stderr)).unwrap_err();
    assert_eq!(failed("first\n  last one \r\n"), "[g] gws calendar events list failed: last one");
    assert_eq!(failed("only"), "[g] gws calendar events list failed: only");
    assert_eq!(failed("a\n\n"), "[g] gws calendar events list failed: ");
    assert_eq!(failed(""), "[g] gws calendar events list failed: unknown error");
}

#[test]
fn listing_commands_are_exact() {
    let i = list_calendars_command(&account()).unwrap();
    assert_eq!(i.args, words(&["calendar", "calendarList", "list", "--params", r#"{"maxResults":250}"#]));
    let i = list_tasklists_command(&account()).unwrap();
    assert_eq!(i.args, words(&["tasks", "tasklists", "list", "--params", r#"{"maxResults":100}"#]));
    let list = TaskList::from_json("g", &json(r#"{"id":"l1"}"#)).unwrap();
    let i = list_tasks_command(&account(), &list).unwrap();
    assert_eq!(
        i.args,
        words(&["tasks", "tasks", "list", "--params", r#"{"maxResults":100,"showCompleted":false,"tasklist":"l1"}"#])
    );
    let i = list_events_command(&account(), &calendar(), moment(0, 0), moment(10, 3600)).unwrap();
    assert_eq!(
        i.args,
        words(&[
            "calendar",
            "events",
            "list",
            "--params",
            r#"{"calendarId":"c1","maxResults":250,"orderBy":"startTime","singleEvents":true,"timeMax":"2026-09-01T11:00:00+01:00","timeMin":"2026-09-01T00:00:00+00:00"}"#
        ])
    );
}

#[test]
fn only_selected_calendars_are_listed() {
    let v = json(r#"{"items":[{"id":"a","selected":true},{"id":"b"},{"selected":true},{"id":"c","selected":false},{"id":"d","selected":true}]}"#);
    let ids: Vec<String> = list_calendars(&account(), &v).into_iter().map(|c| c.id).collect();
    assert_eq!(ids, vec!["a", "d"]);
    assert!(list_calendars(&account(), &json("null")).is_empty());
}

#[test]
fn hidden_types_are_left_out() {
    let v = json(
        r#"{"items":[
            {"id":"1","eventType":"birthday","start":{"date":"2026-09-01"},"end":{"date":"2026-09-02"}},
            {"id":"2","start":{"date":"2026-09-01"},"end":{"date":"2026-09-02"}},
            {"id":"3","status":"cancelled","start":{"date":"2026-09-01"},"end":{"date":"2026-09-02"}},
            {"id":"4","eventType":"focusTime","start":{"date":"2026-09-01"},"end":{"date":"2026-09-02"}}]}"#,
    );
    let ids = |hide: &[&str]| -> Vec<String> {
        list_events(&account(), &calendar(), &v, &words(hide)).into_iter().map(|e| e.id).collect()
    };
    assert_eq!(ids(&["birthday"]), vec!["2", "4"]);
    assert_eq!(ids(&["default"]), vec!["1", "4"]);
    assert_eq!(ids(&["default", "birthday", "focusTime"]), Vec::<String>::new());
}

#[test]
fn tasks_and_lists_are_listed() {
    let lists = list_tasklists(&account(), &json(r#"{"items":[{"id":"l1","title":"A"},{"title":"B"},{"id":"l2"}]}"#));
    assert_eq!(lists.iter().map(|l| l.id.as_str()).collect::<Vec<_>>(), vec!["l1", "l2"]);
    let v = json(r#"{"items":[{"id":"t1","title":"x","due":"2026-09-01T00:00:00.000Z"},{"title":"y"}]}"#);
    assert!(tasks_are_cuttable(&v));
    let tasks = list_tasks(&account(), &lists[0], &v);
    assert_eq!(tasks.len(), 1);
    assert_eq!((tasks[0].tasklist_title.as_str(), tasks[0].due), ("A", Some(day(2026, 9, 1))));
    assert!(!tasks_are_cuttable(&json(r#"{"items":[{"due":"2026-09-0ä1"}]}"#)));
    assert!(tasks_are_cuttable(&json(r#"{"items":5}"#)));
}

#[test]
fn fetching_keeps_what_could_be_listed() {
    let lists = list_tasklists(&account(), &json(r#"{"items":[{"id":"l1","title":"A"},{"id":"l2","title":"B"}]}"#));
    let tasks = json(r#"{"items":[{"id":"t","title":"x"}]}"#);
    let (data, errors) = GoogleBackend.fetch_account(
        &account(),
        Err("calendars failed".into()),
        &vec![],
        Ok(lists),
        &vec![Err("l1 failed".into()), Ok(tasks)],
        &vec![],
    );
    assert_eq!(errors, vec!["calendars failed".to_string(), "l1 failed".to_string()]);
    assert!(data.calendars.is_empty() && data.events.is_empty());
    assert_eq!(data.tasklists.len(), 2);
    assert_eq!((data.tasks.len(), data.tasks[0].tasklist_id.as_str()), (1, "l2"));

    let cals = list_calendars(&account(), &json(r#"{"items":[{"id":"a","selected":true},{"id":"b","selected":true},{"id":"c","selected":true}]}"#));
    let ev = |id: &str, d: &str| {
        json(&format!(r#"{{"items":[{{"id":"{id}","start":{{"date":"{d}"}},"end":{{"date":"{d}"}}}}]}}"#))
    };
    let (data, errors) = GoogleBackend.fetch_account(
        &account(),
        Ok(cals),
        &vec![Ok(ev("late", "2026-09-09")), Err("b failed".into()), Ok(ev("early", "2026-09-02"))],
        Err("no lists".into()),
        &vec![],
        &vec![],
    );
    assert_eq!(errors, vec!["b failed".to_string(), "no lists".to_string()]);
    assert_eq!(data.calendars.len(), 3);
    assert_eq!(data.events.iter().map(|e| e.id.as_str()).collect::<Vec<_>>(), vec!["early", "late"]);
    assert_eq!(data.events[0].calendar_id, "c");
}

#[test]
fn account_without_a_selected_calendar_was_answered() {
    let fetch = |cals: Result<Vec<Calendar>, String>, lists: Result<Vec<TaskList>, String>| {
        let answered = is_answered(&cals, &lists);
        let (data, errors) = GoogleBackend.fetch_account(&account(), cals, &vec![], lists, &vec![], &vec![]);
        is_without_data(&data, errors.len(), answered)
    };
    assert!(!fetch(Ok(vec![]), Err("no lists".into())));
    assert!(!fetch(Err("no calendars".into()), Ok(vec![])));
    assert!(!fetch(Ok(vec![]), Ok(vec![])));
    assert!(fetch(Err("no calendars".into()), Err("no lists".into())));
}

#[test]
fn event_that_was_sent_is_read_back() {
    let stored = |d: &EventDraft| json(&write_json(&event_body(d, true)).replacen('{', r#"{"id":"e7","#, 1));
    let mut d = draft();
    d.attendees = vec!["a@x".into(), "b@x".into()];
    d.start_time = Some(Moment { nanos: 250_000_000, ..moment(12, -16_200) });
    let e = Event::from_json("g", "c1", "Cal", &stored(&d)).unwrap();
    assert_eq!((e.id.as_str(), e.calendar_id.as_str(), e.summary.as_str()), ("e7", "c1", "S"));
    assert_eq!((e.location.as_deref(), e.description.as_deref()), (Some("L"), Some("D")));
    assert!(!e.all_day);
    assert_eq!(e.start_time.unwrap().instant(), d.start_time.unwrap().instant());
    assert_eq!(e.end_time.unwrap().instant(), d.end_time.unwrap().instant());
    assert_eq!(e.attendees.iter().map(|g| g.email.as_str()).collect::<Vec<_>>(), vec!["a@x", "b@x"]);
    assert!(e.attendees.iter().all(|g| g.status == "needsAction" && !g.organizer && g.name.is_none()));

    d.all_day = true;
    d.end_date = day(2026, 12, 31);
    d.add_meet = true;
    let e = Event::from_json("g", "c1", "Cal", &stored(&d)).unwrap();
    assert!(e.all_day && e.start_time.is_none() && e.end_time.is_none());
    assert_eq!((e.start_date, e.end_date), (day(2026, 9, 1), day(2026, 12, 31)));
    assert_eq!((e.summary.as_str(), e.meet_url), ("S", None));
}

#[test]
fn event_body_of_a_timed_draft() {
    assert_eq!(
        write_json(&event_body(&draft(), false)),
        r#"{"description":"D","end":{"dateTime":"2026-09-01T15:00:00+02:00"},"location":"L","start":{"dateTime":"2026-09-01T14:00:00+02:00"},"summary":"S"}"#
    );
    // An edit says that there are no guests.
    assert!(write_json(&event_body(&draft(), true)).starts_with(r#"{"attendees":[],"#));
}

#[test]
fn event_body_of_an_all_day_draft_with_guests_and_a_call() {
    let mut d = draft();
    d.all_day = true;
    d.end_date = day(2026, 12, 31);
    d.attendees = vec!["a@x".into(), "b@x".into()];
    d.add_meet = true;
    let now = Moment { secs: 1_700_000_000, nanos: 123_456_789, offset: 0 };
    assert_eq!(
        write_json(&event_body_at(&d, false, now)),
        r#"{"attendees":[{"email":"a@x"},{"email":"b@x"}],"conferenceData":{"createRequest":{"conferenceSolutionKey":{"type":"hangoutsMeet"},"requestId":"waycal-1700000000123"}},"description":"D","end":{"date":"2027-01-01"},"location":"L","start":{"date":"2026-09-01"},"summary":"S"}"#
    );
}

#[test]
fn task_bodies() {
    let d = TaskDraft { title: "T".into(), notes: String::new(), due: None };
    assert_eq!(write_json(&task_body(&d, None)), r#"{"title":"T"}"#);
    let d = TaskDraft { title: "T".into(), notes: "n".into(), due: Some(day(2026, 9, 1)) };
    assert_eq!(write_json(&task_body(&d, None)), r#"{"due":"2026-09-01T00:00:00.000Z","notes":"n","title":"T"}"#);
    assert_eq!(
        write_json(&task_body(&d, Some("t1"))),
        r#"{"due":"2026-09-01T00:00:00.000Z","id":"t1","notes":"n","status":"needsAction","title":"T"}"#
    );
}

#[test]
fn task_that_was_sent_is_read_back() {
    let d = TaskDraft { title: "Buy milk".into(), notes: "two\nlitres".into(), due: Some(day(2026, 9, 1)) };
    let sent = write_json(&task_body(&d, None));
    let stored = json(&sent.replacen('{', r#"{"id":"t7","#, 1));
    let t = Task::from_json("g", "l1", "List", &stored).unwrap();
    assert_eq!((t.account.as_str(), t.tasklist_id.as_str(), t.tasklist_title.as_str()), ("g", "l1", "List"));
    assert_eq!((t.id.as_str(), t.title.as_str(), t.notes.as_deref()), ("t7", "Buy milk", Some("two\nlitres")));
    assert_eq!((t.due, t.completed), (Some(day(2026, 9, 1)), false));

    let blank = TaskDraft { title: "  ".into(), notes: " n ".into(), due: None };
    let t = Task::from_json("g", "l1", "List", &task_body(&blank, Some("t8"))).unwrap();
    assert_eq!((t.id.as_str(), t.title.as_str(), t.notes.as_deref()), ("t8", "(untitled)", Some("n")));
    assert_eq!((t.due, t.completed), (None, false));
}

#[test]
fn change_commands_are_exact() {
    let a = account();
    let i = GoogleBackend.insert_event(&a, "c1", &draft(), true).unwrap();
    assert_eq!(i.args[..4], words(&["calendar", "events", "insert", "--params"])[..]);
    assert_eq!(i.args[4], r#"{"calendarId":"c1","conferenceDataVersion":1,"sendUpdates":"all"}"#);
    assert_eq!(i.args[5], "--json");
    assert!(!i.args[6].contains("attendees"));
    let i = GoogleBackend.patch_event(&a, "c1", "e1", &draft(), false).unwrap();
    assert_eq!(i.args[2], "patch");
    assert_eq!(i.args[4], r#"{"calendarId":"c1","conferenceDataVersion":1,"eventId":"e1","sendUpdates":"none"}"#);
    assert!(i.args[6].contains(r#""attendees":[]"#));
    let i = GoogleBackend.delete_event(&a, "c1", "e1").unwrap();
    assert_eq!(i.args, words(&["calendar", "events", "delete", "--params", r#"{"calendarId":"c1","eventId":"e1"}"#]));
    let d = TaskDraft { title: "T".into(), notes: String::new(), due: None };
    let i = GoogleBackend.insert_task(&a, "l1", &d).unwrap();
    assert_eq!(i.args, words(&["tasks", "tasks", "insert", "--params", r#"{"tasklist":"l1"}"#, "--json", r#"{"title":"T"}"#]));
    let i = GoogleBackend.update_task(&a, "l1", "t1", &d).unwrap();
    assert_eq!(
        i.args,
        words(&["tasks", "tasks", "update", "--params", r#"{"task":"t1","tasklist":"l1"}"#, "--json", r#"{"id":"t1","status":"needsAction","title":"T"}"#])
    );
    let i = GoogleBackend.complete_task(&a, "l1", "t1").unwrap();
    assert_eq!(i.args[4..], words(&[r#"{"task":"t1","tasklist":"l1"}"#, "--json", r#"{"status":"completed"}"#])[..]);
    let i = GoogleBackend.delete_task(&a, "l1", "t1").unwrap();
    assert_eq!(i.args, words(&["tasks", "tasks", "delete", "--params", r#"{"task":"t1","tasklist":"l1"}"#]));
    assert_eq!(changed(Ok(Json::Null)), Ok(()));
    assert_eq!(changed(Err("e".into())), Err("e".to_string()));
}
