use chrono::{NaiveDate, TimeZone, Utc};

use waycal::backend::AccountData;
use waycal::config::{default_hidden_event_types, Account, Config, Provider, Theme};
use waycal::daemon::{
    are_reminders_in_range, is_offline, is_open_chosen, is_without_data, notify, occurrence, poll_pause, poll_start, poll_window, tick, DueTask, Notice,
    Poll, Snapshot, State,
};
use waycal::json::read_json;
use waycal::model::{Calendar, Event, Task};
use waycal::time::{Date, Moment};

fn day(y: i32, m: u32, d: u32) -> Date {
    Date { days: chrono::Datelike::num_days_from_ce(&NaiveDate::from_ymd_opt(y, m, d).unwrap()) }
}

fn at(d: u32, h: u32, m: u32) -> Moment {
    Moment { secs: Utc.with_ymd_and_hms(2026, 9, d, h, m, 0).unwrap().timestamp(), nanos: 0, offset: 0 }
}

fn account(name: &str) -> Account {
    Account {
        name: name.into(),
        provider: Provider::Google,
        color: String::new(),
        config_dir: None,
        credentials_file: None,
        server_url: None,
        username: None,
        app_password_file: None,
    }
}

fn config(digest: Option<&str>) -> Config {
    Config {
        poll_interval_secs: 300,
        default_reminder_mins: 10,
        task_digest_time: digest.map(str::to_string),
        hide_event_types: default_hidden_event_types(),
        theme: Theme::default(),
        accounts: vec![account("a"), account("b")],
    }
}

fn event(id: &str, start: Option<Moment>, overrides: Option<Vec<i64>>) -> Event {
    Event {
        account: "acct".into(),
        calendar_id: "c1".into(),
        calendar_name: "Cal".into(),
        id: id.into(),
        summary: format!("Event {id}"),
        all_day: start.is_none(),
        start_date: day(2026, 9, 1),
        end_date: day(2026, 9, 1),
        start_time: start,
        end_time: None,
        location: None,
        description: None,
        meet_url: None,
        html_link: None,
        reminder_overrides: overrides,
        attendees: vec![],
    }
}

fn calendar(id: &str, mins: Vec<i64>) -> Calendar {
    let v = read_json(&format!(r#"{{"id":"{id}"}}"#)).unwrap();
    let mut c = Calendar::from_json("acct", &v).unwrap();
    c.default_reminder_mins = mins;
    c
}

fn task(id: &str, title: &str, due: Option<Date>) -> DueTask {
    DueTask::from_task(&Task {
        account: "acct".into(),
        tasklist_id: "l".into(),
        tasklist_title: "List".into(),
        id: id.into(),
        title: title.into(),
        notes: None,
        due,
        completed: false,
    })
}

fn snapshot(events: Vec<Event>, tasks: Vec<DueTask>) -> Snapshot {
    Snapshot { calendars: vec![], events, tasks }
}

fn poll(cfg: &Config, state: &mut State, snaps: &Vec<Snapshot>, errors: usize, now: Moment) -> Vec<Notice> {
    assert!(are_reminders_in_range(snaps, cfg, now));
    match tick(cfg, true, state, snaps, &vec![false, false], errors, now) {
        Poll::Notices(n) => n,
        Poll::Offline => panic!("offline"),
    }
}

fn summaries(notices: &[Notice]) -> Vec<&str> {
    notices.iter().map(|n| n.summary.as_str()).collect()
}

#[test]
fn reminder_is_shown_once() {
    let cfg = config(None);
    let mut state = State::new();
    let mut ev = event("e1", Some(at(1, 12, 0)), None);
    ev.location = Some("Room".into());
    ev.meet_url = Some("https://meet".into());
    let snaps = vec![snapshot(vec![ev], vec![])];
    assert!(poll(&cfg, &mut state, &snaps, 0, at(1, 11, 49)).is_empty());
    let shown = poll(&cfg, &mut state, &snaps, 0, at(1, 11, 50));
    assert_eq!(summaries(&shown), vec!["12:00 Event e1"]);
    assert_eq!(shown[0].body, "acct · Cal\nRoom\nhttps://meet");
    assert_eq!(shown[0].open_url.as_deref(), Some("https://meet"));
    assert!(poll(&cfg, &mut state, &snaps, 0, at(1, 11, 55)).is_empty());
    let key = format!("e1@{}", at(1, 11, 50).secs);
    assert_eq!(state.notified.get(&key).unwrap().secs, at(1, 11, 50).secs);
    // Once it has begun it is not announced any more.
    assert!(poll(&cfg, &mut State::new(), &snaps, 0, at(1, 12, 0)).is_empty());
}

#[test]
fn own_reminders_win_over_those_of_the_calendar() {
    let cfg = config(None);
    let start = Some(at(1, 12, 0));
    let mut snaps = vec![Snapshot {
        calendars: vec![calendar("c0", vec![90]), calendar("c1", vec![30, 20])],
        events: vec![event("own", start, Some(vec![5])), event("cal", start, None), event("none", start, Some(vec![]))],
        tasks: vec![],
    }];
    assert_eq!(summaries(&poll(&cfg, &mut State::new(), &snaps, 0, at(1, 11, 35))), vec!["12:00 Event cal"]);
    assert_eq!(
        summaries(&poll(&cfg, &mut State::new(), &snaps, 0, at(1, 11, 56))),
        vec!["12:00 Event own", "12:00 Event cal", "12:00 Event cal"]
    );
    snaps[0].calendars[1].default_reminder_mins = vec![];
    assert!(poll(&cfg, &mut State::new(), &snaps, 0, at(1, 11, 49)).is_empty());
    assert_eq!(summaries(&poll(&cfg, &mut State::new(), &snaps, 0, at(1, 11, 50))), vec!["12:00 Event cal"]);
}

#[test]
fn shared_event_is_announced_once() {
    let cfg = config(None);
    let start = Some(at(1, 12, 0));
    let snaps = vec![
        snapshot(vec![event("e", start, Some(vec![10, 10]))], vec![]),
        snapshot(vec![event("e", start, Some(vec![60])), event("day", None, None)], vec![]),
    ];
    assert_eq!(poll(&cfg, &mut State::new(), &snaps, 0, at(1, 11, 55)).len(), 1);
}

#[test]
fn reminders_are_forgotten_after_two_days() {
    let cfg = config(None);
    let mut state = State::new();
    let snaps = vec![snapshot(vec![event("e", Some(at(5, 12, 0)), Some(vec![10]))], vec![])];
    assert_eq!(poll(&cfg, &mut state, &snaps, 0, at(5, 11, 55)).len(), 1);
    assert_eq!(state.notified.len(), 1);
    poll(&cfg, &mut state, &vec![], 0, at(7, 11, 49));
    assert_eq!(state.notified.len(), 1);
    poll(&cfg, &mut state, &vec![], 0, at(7, 11, 50));
    assert_eq!(state.notified.len(), 0);
}

#[test]
fn reminder_due_long_ago_is_shown_once() {
    // A week ahead of an event in three days: due four days ago, and remembered as
    // long as the event lies ahead.
    let cfg = config(None);
    let mut state = State::new();
    let snaps = vec![snapshot(vec![event("e", Some(at(5, 12, 0)), Some(vec![10080]))], vec![])];
    assert_eq!(poll(&cfg, &mut state, &snaps, 0, at(2, 12, 0)).len(), 1);
    assert_eq!(poll(&cfg, &mut state, &snaps, 0, at(2, 12, 5)).len(), 0);
    assert_eq!(poll(&cfg, &mut state, &snaps, 0, at(5, 11, 59)).len(), 0);
    assert_eq!(state.notified.len(), 1);
    // Once it has begun it is forgotten.
    assert_eq!(poll(&cfg, &mut state, &snaps, 0, at(5, 12, 0)).len(), 0);
    assert_eq!(state.notified.len(), 0);
}

#[test]
fn accounts_that_gave_nothing_are_told() {
    let mut data = AccountData::default();
    assert!(is_without_data(&data, 1, false));
    assert!(!is_without_data(&data, 0, false));
    // No calendar is selected, and the task lists could not be had.
    assert!(!is_without_data(&data, 1, true));
    data.calendars.push(calendar("c", vec![]));
    assert!(!is_without_data(&data, 3, true));
    assert!(is_offline(&vec![true, true]));
    assert!(!is_offline(&vec![true, false]));
    assert!(is_offline(&vec![]));
}

#[test]
fn everything_failed_changes_nothing() {
    // One unreachable account, which reports one error, is enough where it is the
    // only one.
    let cfg = config(Some("08:00"));
    let mut state = State::new();
    let snaps = vec![snapshot(vec![event("e", Some(at(1, 12, 0)), None)], vec![task("t", "T", Some(day(2026, 9, 1)))])];
    assert!(matches!(tick(&cfg, true, &mut state, &vec![], &vec![true], 1, at(1, 11, 55)), Poll::Offline));
    assert!(matches!(tick(&cfg, true, &mut state, &snaps, &vec![true, true], 4, at(1, 11, 55)), Poll::Offline));
    assert_eq!(state.notified.len(), 0);
    assert_eq!(state.digest_date, None);
    assert!(!state.tasks_seeded && state.seen_tasks.items().is_empty());
    // Many errors do not make a poll a failure while an account gives something.
    assert!(matches!(tick(&cfg, true, &mut state, &snaps, &vec![true, false], 9, at(1, 11, 55)), Poll::Notices(_)));
    assert!(!state.tasks_seeded);
    assert_eq!(state.seen_tasks.items(), &vec!["t".to_string()]);
}

#[test]
fn new_tasks_are_announced_after_seeding() {
    let cfg = config(None);
    let mut state = State::new();
    let today = day(2026, 9, 1);
    let mut snaps = vec![snapshot(vec![], vec![task("old", "Old", Some(today))])];
    // With an error the backlog is not taken as complete.
    assert!(poll(&cfg, &mut state, &snaps, 1, at(1, 9, 0)).is_empty());
    assert!(!state.tasks_seeded);
    snaps[0].tasks.push(task("more", "More", Some(today)));
    assert!(poll(&cfg, &mut state, &snaps, 0, at(1, 9, 5)).is_empty());
    assert!(state.tasks_seeded);
    snaps[0].tasks.push(task("now", "Now", Some(today)));
    snaps[0].tasks.push(task("late", "Late", Some(day(2026, 8, 31))));
    snaps[0].tasks.push(task("later", "Later", Some(day(2026, 9, 2))));
    snaps[0].tasks.push(task("none", "None", None));
    snaps[0].tasks.push(task("now", "Again", Some(today)));
    let mut done = task("done", "Done", Some(today));
    done.completed = true;
    snaps[0].tasks.push(done);
    let shown = poll(&cfg, &mut state, &snaps, 1, at(1, 9, 10));
    assert_eq!(summaries(&shown), vec!["Task para hoy: Now", "Task vencida: Late"]);
    assert_eq!((shown[0].body.as_str(), shown[0].open_url.as_deref()), ("acct · List", None));
    assert!(state.tasks_seeded);
    assert!(poll(&cfg, &mut state, &snaps, 0, at(1, 9, 15)).is_empty());
    // "later" was seen before it was due, so it stays silent when its day comes.
    assert!(poll(&cfg, &mut state, &snaps, 0, at(2, 9, 0)).is_empty());
}

#[test]
fn live_announcements_can_be_switched_off() {
    let cfg = config(None);
    let mut state = State::new();
    state.tasks_seeded = true;
    let snaps = vec![snapshot(vec![], vec![task("t", "T", Some(day(2026, 9, 1)))])];
    assert!(matches!(tick(&cfg, false, &mut state, &snaps, &vec![false], 0, at(1, 9, 0)), Poll::Notices(n) if n.is_empty()));
    assert!(state.seen_tasks.contains("t"));
}

#[test]
fn digest_comes_once_a_day_in_order() {
    let cfg = config(Some(" 08:30 "));
    let mut state = State::new();
    let today = day(2026, 9, 1);
    let mut done = task("d", "Done", Some(today));
    done.completed = true;
    let mut weekly = task("w", "Weekly", Some(day(2026, 8, 1)));
    weekly.recurs = true;
    weekly.occurs_today = true;
    let mut off = task("o", "Off", Some(day(2026, 8, 1)));
    off.recurs = true;
    let snaps = vec![
        snapshot(vec![], vec![task("1", "b", Some(today)), done, task("2", "a", Some(today)), off]),
        snapshot(vec![], vec![task("3", "z", Some(day(2026, 8, 30))), weekly, task("4", "x", Some(day(2026, 9, 2)))]),
    ];
    assert!(poll(&cfg, &mut state, &snaps, 0, at(1, 8, 29)).is_empty());
    let shown = poll(&cfg, &mut state, &snaps, 0, at(1, 8, 30));
    assert_eq!(summaries(&shown), vec!["4 task(s) due today"]);
    assert_eq!(shown[0].body, "• Weekly (acct)\n• z (overdue) (acct)\n• a (acct)\n• b (acct)");
    assert_eq!(state.digest_date, Some(today));
    assert!(poll(&cfg, &mut state, &snaps, 0, at(1, 20, 0)).is_empty());
    assert_eq!(summaries(&poll(&cfg, &mut state, &snaps, 0, at(2, 9, 0))), vec!["5 task(s) due today"]);
}

#[test]
fn empty_digest_is_silent_but_counts() {
    let cfg = config(Some("08:30"));
    let mut state = State::new();
    assert!(poll(&cfg, &mut state, &vec![], 0, at(1, 9, 0)).is_empty());
    assert_eq!(state.digest_date, Some(day(2026, 9, 1)));
    let mut state = State::new();
    assert!(poll(&config(Some("nonsense")), &mut state, &vec![], 0, at(1, 9, 0)).is_empty());
    assert_eq!(state.digest_date, None);
}

#[test]
fn timed_task_rings_once_a_day() {
    let cfg = config(Some("00:00"));
    let mut state = State::new();
    let mut t = task("t", "Pill", Some(day(2026, 8, 1)));
    t.timed = true;
    t.recurs = true;
    t.occurs_today = true;
    t.occurrence = Some(at(1, 10, 0));
    let mut snaps = vec![snapshot(vec![], vec![t])];
    assert!(poll(&cfg, &mut state, &snaps, 0, at(1, 9, 59)).is_empty());
    let shown = poll(&cfg, &mut state, &snaps, 0, at(1, 10, 0));
    assert_eq!(summaries(&shown), vec!["10:00 Pill"]);
    assert_eq!(shown[0].body, "acct · List");
    assert!(state.notified.get("task:t@2026-09-01").is_some());
    assert!(poll(&cfg, &mut state, &snaps, 0, at(1, 10, 5)).is_empty());
    snaps[0].tasks[0].occurrence = Some(at(2, 10, 0));
    assert_eq!(poll(&cfg, &mut state, &snaps, 0, at(2, 10, 1)).len(), 1);
    snaps[0].tasks[0].occurs_today = false;
    snaps[0].tasks[0].occurrence = Some(at(3, 10, 0));
    assert!(poll(&cfg, &mut state, &snaps, 0, at(3, 10, 1)).is_empty());
}

#[test]
fn occurrence_is_today_at_the_same_time() {
    let due = Moment { secs: at(1, 10, 20).secs, nanos: 7, offset: 0 };
    let m = occurrence(day(2026, 9, 9), due).unwrap();
    assert_eq!(m.secs + m.offset as i64, at(9, 10, 20).secs);
    assert_eq!(m.nanos, 7);
    assert_eq!(m.date(), day(2026, 9, 9));
}

#[test]
fn reminders_out_of_range_are_told() {
    let cfg = config(None);
    let snaps = vec![snapshot(vec![event("e", Some(at(1, 12, 0)), Some(vec![i64::MAX]))], vec![])];
    assert!(!are_reminders_in_range(&snaps, &cfg, at(1, 11, 0)));
    // An event that has begun is not looked at.
    assert!(are_reminders_in_range(&snaps, &cfg, at(1, 12, 0)));
}

#[test]
fn window_and_pause() {
    let (from, to) = poll_window(at(10, 12, 0)).unwrap();
    assert_eq!((from, to), (day(2026, 9, 3), day(2026, 10, 25)));
    assert!(poll_window(Moment { secs: waycal::time::MAX_SECS, nanos: 0, offset: 0 }).is_none());
    let mut cfg = config(None);
    assert_eq!(poll_pause(&cfg), 300);
    cfg.poll_interval_secs = 29;
    assert_eq!(poll_pause(&cfg), 30);
    let before = Utc::now().timestamp();
    let now = poll_start();
    assert!(before <= now.secs && now.secs <= before + 60);
}

#[test]
fn notification_arguments() {
    let mut n = Notice { summary: "S".into(), body: "B".into(), open_url: None };
    assert_eq!(notify(&n), vec!["-a", "waycal", "-i", "x-office-calendar", "-t", "0", "S", "B"]);
    n.open_url = Some("u".into());
    assert_eq!(
        notify(&n),
        vec!["-a", "waycal", "-i", "x-office-calendar", "-t", "0", "-A", "default=Open Meet", "S", "B"]
    );
    assert!(is_open_chosen(" default\r\n"));
    assert!(!is_open_chosen("default x") && !is_open_chosen("") && !is_open_chosen("\u{a0}default"));
}
