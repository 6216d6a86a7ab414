//! Laws of a poll: what it shows and remembers, said of what was fetched.

use vstd::prelude::*;

use crate::config::Config;
use crate::daemon;
use crate::daemon::{DueTaskView, NoticeView, ReminderView, Rules, SnapshotView, StateView};
use crate::model::{CalendarView, EventView};
use crate::roundtrip;
use crate::text;
use crate::time;
use crate::time::{Date, Instant, Moment};

verus! {

// ---------------------------------------------------------------------
// What the laws speak of
// ---------------------------------------------------------------------

/// Whether an event has a start time behind `now`.
pub open spec fn ahead(e: EventView, now: Moment) -> bool {
    e.start_time matches Some(s) && (now.secs < s.secs || (now.secs == s.secs && now.nanos
        < s.nanos))
}

/// Whether `now` has not reached a point in time yet.
pub open spec fn not_yet(now: Moment, at: Instant) -> bool {
    now.secs < at.secs || (now.secs == at.secs && now.nanos < at.nanos)
}

/// Whether a calendar is the first one of an id.
pub open spec fn first_of_id(cals: Seq<CalendarView>, id: Seq<char>, c: int) -> bool {
    &&& 0 <= c < cals.len()
    &&& cals[c].id == id
    &&& forall|b: int| 0 <= b < c ==> (#[trigger] cals[b]).id != id
}

/// Whether an event is to be announced some minutes ahead: its own minutes count,
/// however few; without any of its own those of its calendar; without these the
/// fallback.
pub open spec fn minute_of(e: EventView, cals: Seq<CalendarView>, fallback: i64, m: i64) -> bool {
    match e.reminder_overrides {
        Some(own) => own.contains(m),
        None => {
            ||| exists|c: int| #[trigger]
                first_of_id(cals, e.calendar_id, c) && cals[c].default_reminder_mins.contains(m)
            ||| m == fallback && forall|c: int| #[trigger]
                first_of_id(cals, e.calendar_id, c) ==> cals[c].default_reminder_mins.len() == 0
        },
    }
}

/// Some minutes before a start. A leap second counts as the second behind it once
/// time is taken off.
pub open spec fn minutes_before(s: Moment, m: i64) -> Instant {
    if m == 0 || s.nanos < 1_000_000_000 {
        Instant { secs: (s.secs - 60 * m) as i64, nanos: s.nanos }
    } else if m > 0 {
        Instant { secs: (s.secs + 1 - 60 * m) as i64, nanos: (s.nanos - 1_000_000_000) as u32 }
    } else {
        Instant { secs: (s.secs - 60 * m) as i64, nanos: (s.nanos - 1_000_000_000) as u32 }
    }
}

/// A digit as a character.
pub open spec fn digit(d: int) -> char {
    (48 + d) as u8 as char
}

/// `HH:MM` on the clock of a moment.
pub open spec fn hhmm(m: Moment) -> Seq<char> {
    let minute = (m.secs + m.offset) % 86_400 / 60;
    seq![
        digit(minute / 60 / 10),
        digit(minute / 60 % 10),
        ':',
        digit(minute % 60 / 10),
        digit(minute % 60 % 10),
    ]
}

/// The day that the clock of a moment shows, counted from the first of January of
/// the year 1.
pub open spec fn day_of(m: Moment) -> int {
    (m.secs + m.offset) / 86_400 + 719_163
}

/// What a reminder is remembered by: the id of the event and the time at which it
/// was due.
pub open spec fn event_key(e: EventView, m: i64) -> Seq<char> {
    e.id + "@"@ + text::signed_numeral(minutes_before(e.start_time->0, m).secs as int)
}

/// What is shown for an event.
pub open spec fn says_event(n: NoticeView, e: EventView) -> bool {
    &&& e.start_time is Some
    &&& n.summary == hhmm(e.start_time->0) + " "@ + e.summary
    &&& n.open_url == e.meet_url
    &&& n.body == e.account + " · "@ + e.calendar_name + (match e.location {
        Some(place) => "\n"@ + place,
        None => Seq::empty(),
    }) + (match e.meet_url {
        Some(url) => "\n"@ + url,
        None => Seq::empty(),
    })
}

/// Whether the event at a position is the first of its id that lies ahead: none in
/// an earlier account, and none before it in its own, has its id and lies ahead.
pub open spec fn first_ahead(snaps: Seq<SnapshotView>, now: Moment, i: int, j: int) -> bool {
    &&& 0 <= i < snaps.len()
    &&& 0 <= j < snaps[i].events.len()
    &&& ahead(snaps[i].events[j], now)
    &&& forall|a: int, b: int|
        0 <= a < snaps.len() && 0 <= b < snaps[a].events.len() && (a < i || (a == i && b < j))
            && ahead(#[trigger] snaps[a].events[b], now) ==> snaps[a].events[b].id
            != snaps[i].events[j].id
}

/// Whether some account has an event that is due to be announced, is not remembered,
/// and is shown as `n`.
pub open spec fn from_event(
    n: NoticeView,
    s: StateView,
    snaps: Seq<SnapshotView>,
    fallback: i64,
    now: Moment,
    i: int,
    j: int,
    m: i64,
) -> bool {
    &&& first_ahead(snaps, now, i, j)
    &&& minute_of(snaps[i].events[j], snaps[i].calendars, fallback, m)
    &&& !not_yet(now, minutes_before(snaps[i].events[j].start_time->0, m))
    &&& !s.notified.contains_key(event_key(snaps[i].events[j], m))
    &&& says_event(n, snaps[i].events[j])
}

// ---------------------------------------------------------------------
// Every account counts
// ---------------------------------------------------------------------

/// How many events the accounts before the `i`-th have.
pub open spec fn events_before(snaps: Seq<SnapshotView>, i: int) -> nat
    decreases i,
{
    if i <= 0 {
        0
    } else {
        events_before(snaps, i - 1) + snaps[i - 1].events.len()
    }
}

/// How many tasks the accounts before the `i`-th have.
pub open spec fn tasks_before(snaps: Seq<SnapshotView>, i: int) -> nat
    decreases i,
{
    if i <= 0 {
        0
    } else {
        tasks_before(snaps, i - 1) + snaps[i - 1].tasks.len()
    }
}

proof fn lemma_before_front(snaps: Seq<SnapshotView>, i: int)
    requires
        0 <= i < snaps.len(),
    ensures
        events_before(snaps.drop_last(), i) == events_before(snaps, i),
        tasks_before(snaps.drop_last(), i) == tasks_before(snaps, i),
    decreases i,
{
    if i > 0 {
        lemma_before_front(snaps, i - 1);
    }
}

proof fn lemma_before_grows(snaps: Seq<SnapshotView>, i: int, k: int)
    requires
        0 <= i < k,
    ensures
        events_before(snaps, i) + snaps[i].events.len() <= events_before(snaps, k),
        tasks_before(snaps, i) + snaps[i].tasks.len() <= tasks_before(snaps, k),
    decreases k,
{
    if i < k - 1 {
        lemma_before_grows(snaps, i, k - 1);
    }
}

proof fn lemma_all_events_len(snaps: Seq<SnapshotView>)
    ensures
        daemon::all_events(snaps).len() == events_before(snaps, snaps.len() as int),
        daemon::all_tasks(snaps).len() == tasks_before(snaps, snaps.len() as int),
    decreases snaps.len(),
{
    if snaps.len() > 0 {
        lemma_all_events_len(snaps.drop_last());
        lemma_before_front(snaps, snaps.len() - 1);
    }
}

proof fn lemma_all_events_at(snaps: Seq<SnapshotView>, i: int, j: int)
    requires
        0 <= i < snaps.len(),
        0 <= j < snaps[i].events.len(),
    ensures
        events_before(snaps, i) + j < daemon::all_events(snaps).len(),
        daemon::all_events(snaps)[events_before(snaps, i) + j] == (
            snaps[i].events[j],
            snaps[i].calendars,
        ),
    decreases snaps.len(),
{
    let front = snaps.drop_last();
    let n = snaps.len() - 1;
    lemma_all_events_len(front);
    lemma_before_front(snaps, i);
    lemma_before_front(snaps, n);
    if i < n {
        lemma_all_events_at(front, i, j);
    } else {
        let last = snaps.last();
        assert(last.events.map_values(|e: EventView| (e, last.calendars))[j] == (
            last.events[j],
            last.calendars,
        ));
    }
}

proof fn lemma_all_tasks_at(snaps: Seq<SnapshotView>, i: int, j: int)
    requires
        0 <= i < snaps.len(),
        0 <= j < snaps[i].tasks.len(),
    ensures
        tasks_before(snaps, i) + j < daemon::all_tasks(snaps).len(),
        daemon::all_tasks(snaps)[tasks_before(snaps, i) + j] == snaps[i].tasks[j],
    decreases snaps.len(),
{
    let front = snaps.drop_last();
    let n = snaps.len() - 1;
    lemma_all_events_len(front);
    lemma_before_front(snaps, i);
    lemma_before_front(snaps, n);
    if i < n {
        lemma_all_tasks_at(front, i, j);
    }
}

/// Every event of every account is looked at, with the calendars of its account,
/// one account after the other, and nothing else is.
pub proof fn law_events_of_every_account(snaps: Seq<SnapshotView>, i: int, j: int)
    requires
        0 <= i < snaps.len(),
        0 <= j < snaps[i].events.len(),
    ensures
        daemon::all_events(snaps).len() == events_before(snaps, snaps.len() as int),
        events_before(snaps, i) + j < daemon::all_events(snaps).len(),
        daemon::all_events(snaps)[events_before(snaps, i) + j] == (
            snaps[i].events[j],
            snaps[i].calendars,
        ),
{
    lemma_all_events_len(snaps);
    lemma_all_events_at(snaps, i, j);
}

/// Every task of every account is looked at, one account after the other, and
/// nothing else is.
pub proof fn law_tasks_of_every_account(snaps: Seq<SnapshotView>, i: int, j: int)
    requires
        0 <= i < snaps.len(),
        0 <= j < snaps[i].tasks.len(),
    ensures
        daemon::all_tasks(snaps).len() == tasks_before(snaps, snaps.len() as int),
        tasks_before(snaps, i) + j < daemon::all_tasks(snaps).len(),
        daemon::all_tasks(snaps)[tasks_before(snaps, i) + j] == snaps[i].tasks[j],
{
    lemma_all_events_len(snaps);
    lemma_all_tasks_at(snaps, i, j);
}

/// The account that a position among all events belongs to.
proof fn lemma_event_place(snaps: Seq<SnapshotView>, k: int) -> (p: (int, int))
    requires
        0 <= k < daemon::all_events(snaps).len(),
    ensures
        0 <= p.0 < snaps.len(),
        0 <= p.1 < snaps[p.0].events.len(),
        k == events_before(snaps, p.0) + p.1,
        daemon::all_events(snaps)[k] == (snaps[p.0].events[p.1], snaps[p.0].calendars),
    decreases snaps.len(),
{
    let n = snaps.len() - 1;
    let front = snaps.drop_last();
    lemma_all_events_len(snaps);
    lemma_all_events_len(front);
    lemma_before_front(snaps, n);
    if k < events_before(snaps, n) {
        let p = lemma_event_place(front, k);
        lemma_before_front(snaps, p.0);
        assert(snaps[p.0].events[p.1] == front[p.0].events[p.1]);
        p
    } else {
        let j = k - events_before(snaps, n);
        lemma_all_events_at(snaps, n as int, j);
        (n as int, j)
    }
}

/// The account that a position among all tasks belongs to.
proof fn lemma_task_place(snaps: Seq<SnapshotView>, k: int) -> (p: (int, int))
    requires
        0 <= k < daemon::all_tasks(snaps).len(),
    ensures
        0 <= p.0 < snaps.len(),
        0 <= p.1 < snaps[p.0].tasks.len(),
        k == tasks_before(snaps, p.0) + p.1,
        daemon::all_tasks(snaps)[k] == snaps[p.0].tasks[p.1],
    decreases snaps.len(),
{
    let n = snaps.len() - 1;
    let front = snaps.drop_last();
    lemma_all_events_len(snaps);
    lemma_all_events_len(front);
    lemma_before_front(snaps, n);
    if k < tasks_before(snaps, n) {
        let p = lemma_task_place(front, k);
        lemma_before_front(snaps, p.0);
        assert(snaps[p.0].tasks[p.1] == front[p.0].tasks[p.1]);
        p
    } else {
        let j = k - tasks_before(snaps, n);
        lemma_all_tasks_at(snaps, n as int, j);
        (n as int, j)
    }
}

// ---------------------------------------------------------------------
// Reminders of events
// ---------------------------------------------------------------------

proof fn lemma_filter_map_has<A, B>(s: Seq<A>, f: spec_fn(A) -> Option<B>, k: int)
    requires
        0 <= k < s.len(),
        f(s[k]) is Some,
    ensures
        s.filter_map(f).contains(f(s[k])->0),
    decreases s.len(),
{
    let rest = s.drop_last().filter_map(f);
    let all = s.filter_map(f);
    if k == s.len() - 1 {
        assert(all[rest.len() as int] == f(s[k])->0);
    } else {
        assert(s.drop_last()[k] == s[k]);
        lemma_filter_map_has(s.drop_last(), f, k);
        let i = choose|i: int| 0 <= i < rest.len() && rest[i] == f(s[k])->0;
        assert(all[i] == rest[i]);
    }
}

/// The minutes of the calendar of an id.
proof fn lemma_calendar_mins(cals: Seq<CalendarView>, id: Seq<char>)
    ensures
        forall|c: int| #[trigger]
            first_of_id(cals, id, c) ==> daemon::calendar_mins(cals, id)
                == cals[c].default_reminder_mins,
        (forall|c: int| !#[trigger] first_of_id(cals, id, c)) ==> daemon::calendar_mins(
            cals,
            id,
        ).len() == 0,
    decreases cals.len(),
{
    if cals.len() > 0 {
        let rest = cals.drop_first();
        lemma_calendar_mins(rest, id);
        if cals[0].id == id {
            assert(first_of_id(cals, id, 0));
            assert forall|c: int| #[trigger] first_of_id(cals, id, c) implies c == 0 by {
                if c > 0 {
                    assert(cals[0].id != id);
                }
            }
        } else {
            assert forall|c: int| #[trigger] first_of_id(cals, id, c) implies daemon::calendar_mins(
                cals,
                id,
            ) == cals[c].default_reminder_mins by {
                assert forall|b: int| 0 <= b < c - 1 implies (#[trigger] rest[b]).id != id by {
                    assert(cals[b + 1].id != id);
                }
                assert(first_of_id(rest, id, c - 1));
            }
            if forall|c: int| !#[trigger] first_of_id(cals, id, c) {
                assert forall|c: int| !#[trigger] first_of_id(rest, id, c) by {
                    if first_of_id(rest, id, c) {
                        assert forall|b: int| 0 <= b < c + 1 implies (#[trigger] cals[b]).id != id by {
                            if b > 0 {
                                assert(rest[b - 1].id != id);
                            }
                        }
                        assert(first_of_id(cals, id, c + 1));
                    }
                }
            }
        }
    }
}

/// The minutes at which an event is announced: its own where it has a list of its
/// own, and be it empty; else those of the first calendar of its id; else the
/// fallback alone.
pub proof fn law_minutes_of_an_event(e: EventView, cals: Seq<CalendarView>, fallback: i64)
    ensures
        forall|m: i64| #[trigger]
            daemon::mins_for(e, cals, fallback).contains(m) <==> minute_of(e, cals, fallback, m),
        e.reminder_overrides matches Some(own) ==> daemon::mins_for(e, cals, fallback) == own,
        e.reminder_overrides is None ==> forall|c: int| #[trigger]
            first_of_id(cals, e.calendar_id, c) && cals[c].default_reminder_mins.len() > 0
                ==> daemon::mins_for(e, cals, fallback) == cals[c].default_reminder_mins,
{
    lemma_calendar_mins(cals, e.calendar_id);
    let mins = daemon::mins_for(e, cals, fallback);
    let of_cal = daemon::calendar_mins(cals, e.calendar_id);
    assert forall|m: i64| #[trigger] mins.contains(m) <==> minute_of(e, cals, fallback, m) by {
        if e.reminder_overrides is None {
            if of_cal.len() == 0 {
                assert(seq![fallback][0] == fallback);
                assert(seq![fallback].contains(m) <==> m == fallback);
            } else {
                assert(exists|c: int| #[trigger] first_of_id(cals, e.calendar_id, c));
                let c = choose|c: int| #[trigger] first_of_id(cals, e.calendar_id, c);
                assert(mins == cals[c].default_reminder_mins);
            }
        }
    }
}

proof fn lemma_hhmm(m: Moment)
    ensures
        time::clock_text(m.second_of_day()) == hhmm(m),
{
    let s = (m.secs + m.offset) % 86_400;
    assert(s / 60 / 60 == s / 3600);
    assert(s / 60 % 60 == s / 60 % 60);
    assert(time::clock_text(m.second_of_day()) =~= hhmm(m));
}

/// What the reminder of an event is.
proof fn lemma_event_reminder(e: EventView, m: i64, now: Moment)
    requires
        e.start_time is Some,
    ensures
        daemon::event_reminder(e, m, now) is Some <==> !not_yet(
            now,
            minutes_before(e.start_time->0, m),
        ),
        daemon::event_reminder(e, m, now) matches Some(r) ==> r.key == event_key(e, m) && r.at
            == minutes_before(e.start_time->0, m) && says_event(r.notice, e),
{
    lemma_hhmm(e.start_time->0);
    let s = e.start_time->0;
    assert(daemon::remind_at(e, m) == minutes_before(s, m));
    if daemon::event_reminder(e, m, now) is Some {
        let n = daemon::event_notice(e);
        assert(n.body == e.account + " · "@ + e.calendar_name + (match e.location {
            Some(place) => "\n"@ + place,
            None => Seq::empty(),
        }) + (match e.meet_url {
            Some(url) => "\n"@ + url,
            None => Seq::empty(),
        }));
    }
}

/// Whether the event at a position is the first of its id that lies ahead.
spec fn first_at(
    events: Seq<(EventView, Seq<CalendarView>)>,
    now: Moment,
    k: int,
) -> bool {
    &&& 0 <= k < events.len()
    &&& ahead(events[k].0, now)
    &&& forall|a: int|
        0 <= a < k && ahead((#[trigger] events[a]).0, now) ==> events[a].0.id != events[k].0.id
}

proof fn lemma_upcoming_ids(events: Seq<(EventView, Seq<CalendarView>)>, now: Moment)
    ensures
        forall|id: Seq<char>| #[trigger]
            daemon::upcoming_ids(events, now).contains(id) <==> exists|a: int|
                0 <= a < events.len() && ahead((#[trigger] events[a]).0, now) && events[a].0.id
                    == id,
    decreases events.len(),
{
    if events.len() > 0 {
        let front = events.drop_last();
        let n = events.len() - 1;
        lemma_upcoming_ids(front, now);
        assert forall|id: Seq<char>| #[trigger]
            daemon::upcoming_ids(events, now).contains(id) <==> exists|a: int|
            0 <= a < events.len() && ahead((#[trigger] events[a]).0, now) && events[a].0.id
                == id by {
            if daemon::upcoming_ids(front, now).contains(id) {
                let a = choose|a: int|
                    0 <= a < front.len() && ahead((#[trigger] front[a]).0, now) && front[a].0.id
                        == id;
                assert(events[a] == front[a]);
            }
            if exists|a: int|
                0 <= a < events.len() && ahead((#[trigger] events[a]).0, now) && events[a].0.id
                    == id {
                let a = choose|a: int|
                    0 <= a < events.len() && ahead((#[trigger] events[a]).0, now) && events[a].0.id
                        == id;
                if a < n {
                    assert(front[a] == events[a]);
                }
            }
            assert(events[n] == events.last());
        }
    }
}

proof fn lemma_counts(events: Seq<(EventView, Seq<CalendarView>)>, now: Moment)
    requires
        events.len() > 0,
    ensures
        daemon::counts(events, now) == first_at(events, now, events.len() - 1),
{
    let n = events.len() - 1;
    let front = events.drop_last();
    lemma_upcoming_ids(front, now);
    let id = events[n].0.id;
    if daemon::upcoming_ids(front, now).contains(id) {
        let a = choose|a: int|
            0 <= a < front.len() && ahead((#[trigger] front[a]).0, now) && front[a].0.id == id;
        assert(events[a] == front[a]);
    } else {
        assert forall|a: int| 0 <= a < n && ahead((#[trigger] events[a]).0, now) implies events[a].0.id
            != id by {
            assert(front[a] == events[a]);
        }
    }
}

proof fn lemma_first_at_front(events: Seq<(EventView, Seq<CalendarView>)>, now: Moment, k: int)
    requires
        0 <= k < events.len() - 1,
    ensures
        first_at(events.drop_last(), now, k) == first_at(events, now, k),
{
    let front = events.drop_last();
    assert forall|a: int| 0 <= a <= k implies front[a] == events[a] by {}
    if first_at(front, now, k) {
        assert forall|a: int| 0 <= a < k && ahead((#[trigger] events[a]).0, now) implies events[a].0.id
            != events[k].0.id by {
            assert(front[a] == events[a]);
        }
    }
    if first_at(events, now, k) {
        assert forall|a: int| 0 <= a < k && ahead((#[trigger] front[a]).0, now) implies front[a].0.id
            != front[k].0.id by {
            assert(front[a] == events[a]);
        }
    }
}

/// A reminder that is due is among the reminders.
proof fn lemma_reminders_have(
    events: Seq<(EventView, Seq<CalendarView>)>,
    fallback: i64,
    now: Moment,
    k: int,
    m: i64,
)
    requires
        first_at(events, now, k),
        minute_of(events[k].0, events[k].1, fallback, m),
        !not_yet(now, minutes_before(events[k].0.start_time->0, m)),
    ensures
        daemon::event_reminder(events[k].0, m, now) is Some,
        daemon::reminders(events, fallback, now).contains(
            daemon::event_reminder(events[k].0, m, now)->0,
        ),
    decreases events.len(),
{
    let front = events.drop_last();
    let n = events.len() - 1;
    let (e, cals) = events[k];
    let r = daemon::event_reminder(e, m, now);
    lemma_event_reminder(e, m, now);
    let all = daemon::reminders(events, fallback, now);
    let rest = daemon::reminders(front, fallback, now);
    if k == n {
        lemma_counts(events, now);
        law_minutes_of_an_event(e, cals, fallback);
        let mins = daemon::mins_for(e, cals, fallback);
        assert(mins.contains(m));
        let f = |x: i64| daemon::event_reminder(e, x, now);
        let x = choose|x: int| 0 <= x < mins.len() && mins[x] == m;
        lemma_filter_map_has(mins, f, x);
        let own = daemon::event_reminders(e, mins, now);
        assert(own == mins.filter_map(f));
        let y = choose|y: int| 0 <= y < own.len() && own[y] == r->0;
        assert(all[rest.len() + y] == r->0);
    } else {
        lemma_first_at_front(events, now, k);
        assert(front[k] == events[k]);
        lemma_reminders_have(front, fallback, now, k, m);
        let y = choose|y: int| 0 <= y < rest.len() && rest[y] == r->0;
        assert(all[y] == r->0);
    }
}

/// Every reminder comes from an event for which it is due.
proof fn lemma_reminders_come(
    events: Seq<(EventView, Seq<CalendarView>)>,
    fallback: i64,
    now: Moment,
    x: int,
) -> (p: (int, i64))
    requires
        0 <= x < daemon::reminders(events, fallback, now).len(),
    ensures
        first_at(events, now, p.0),
        minute_of(events[p.0].0, events[p.0].1, fallback, p.1),
        !not_yet(now, minutes_before(events[p.0].0.start_time->0, p.1)),
        ({
            let r = daemon::reminders(events, fallback, now)[x];
            r.key == event_key(events[p.0].0, p.1) && says_event(r.notice, events[p.0].0) && r.at
                == minutes_before(events[p.0].0.start_time->0, p.1)
        }),
    decreases events.len(),
{
    let front = events.drop_last();
    let n = events.len() - 1;
    let all = daemon::reminders(events, fallback, now);
    let rest = daemon::reminders(front, fallback, now);
    if x < rest.len() {
        let p = lemma_reminders_come(front, fallback, now, x);
        lemma_first_at_front(events, now, p.0);
        assert(front[p.0] == events[p.0]);
        assert(all[x] == rest[x]);
        p
    } else {
        lemma_counts(events, now);
        let (e, cals) = events[n];
        let mins = daemon::mins_for(e, cals, fallback);
        let f = |y: i64| daemon::event_reminder(e, y, now);
        let own = daemon::event_reminders(e, mins, now);
        assert(own == mins.filter_map(f));
        assert(all[x] == own[x - rest.len()]);
        assert(own.contains(all[x]));
        mins.lemma_filter_map_contains(f, all[x]);
        let m = choose|m: i64| #[trigger] mins.contains(m) && f(m) == Some(all[x]);
        assert(mins.contains(m) && f(m) == Some(all[x]));
        law_minutes_of_an_event(e, cals, fallback);
        lemma_event_reminder(e, m, now);
        (n, m)
    }
}

proof fn lemma_numeral_chars(n: int)
    ensures
        forall|i: int|
            0 <= i < text::signed_numeral(n).len() ==> (#[trigger] text::signed_numeral(n)[i])
                != '@',
{
    let s = text::signed_numeral(n);
    if n < 0 {
        roundtrip::lemma_numeral((-n) as nat);
    } else {
        roundtrip::lemma_numeral(n as nat);
    }
    assert forall|i: int| 0 <= i < s.len() implies (#[trigger] s[i]) != '@' by {
        if n < 0 && i > 0 {
            assert(s[i] == text::numeral((-n) as nat)[i - 1]);
            assert(text::is_digit(s[i]));
        } else if n >= 0 {
            assert(text::is_digit(s[i]));
        }
    }
}

/// What an event's reminder is remembered by tells the event's id.
proof fn lemma_key_tells_id(a: Seq<char>, x: int, b: Seq<char>, y: int)
    requires
        a + "@"@ + text::signed_numeral(x) == b + "@"@ + text::signed_numeral(y),
    ensures
        a == b,
{
    reveal_strlit("@");
    lemma_numeral_chars(x);
    lemma_numeral_chars(y);
    let s = a + "@"@ + text::signed_numeral(x);
    let t = b + "@"@ + text::signed_numeral(y);
    assert("@"@.len() == 1 && "@"@[0] == '@');
    assert(s[a.len() as int] == '@');
    assert(t[b.len() as int] == '@');
    if a.len() < b.len() {
        assert(t.len() == b.len() + 1 + text::signed_numeral(y).len());
        assert(b.len() < s.len());
        assert(s[b.len() as int] == text::signed_numeral(x)[b.len() - a.len() - 1]);
    } else if b.len() < a.len() {
        assert(s.len() == a.len() + 1 + text::signed_numeral(x).len());
        assert(a.len() < t.len());
        assert(t[a.len() as int] == text::signed_numeral(y)[a.len() - b.len() - 1]);
    } else {
        assert(s.take(a.len() as int) == a);
        assert(t.take(b.len() as int) == b);
    }
}

/// Reminders of a key, all of which say the same, are shown where the key is not
/// remembered.
proof fn lemma_shown_by_key(
    due: Seq<ReminderView>,
    notified: Map<Seq<char>, Instant>,
    k: int,
)
    requires
        0 <= k < due.len(),
        !notified.contains_key(due[k].key),
        forall|i: int|
            0 <= i < due.len() && (#[trigger] due[i]).key == due[k].key ==> due[i].notice
                == due[k].notice,
    ensures
        daemon::shown(due, notified).contains(due[k].notice),
    decreases due.len(),
{
    let front = due.drop_last();
    let n = due.len() - 1;
    let all = daemon::shown(due, notified);
    let rest = daemon::shown(front, notified);
    if exists|i: int| 0 <= i < front.len() && (#[trigger] front[i]).key == due[k].key {
        let i = choose|i: int| 0 <= i < front.len() && (#[trigger] front[i]).key == due[k].key;
        assert(due[i] == front[i]);
        assert forall|a: int| 0 <= a < front.len() && (#[trigger] front[a]).key == front[i].key
            implies front[a].notice == front[i].notice by {
            assert(due[a] == front[a]);
        }
        lemma_shown_by_key(front, notified, i);
        let y = choose|y: int| 0 <= y < rest.len() && rest[y] == due[k].notice;
        assert(all[y] == rest[y]);
    } else {
        if k < n {
            assert(front[k] == due[k]);
        }
        assert(k == n);
        daemon::lemma_unseen_key(front, notified, due[k].key);
        assert(all[rest.len() as int] == due[k].notice);
    }
}

/// What is shown of the first reminders is shown first.
proof fn lemma_shown_front(
    a: Seq<ReminderView>,
    b: Seq<ReminderView>,
    notified: Map<Seq<char>, Instant>,
)
    ensures
        daemon::shown(a + b, notified).len() >= daemon::shown(a, notified).len(),
        daemon::shown(a + b, notified).take(daemon::shown(a, notified).len() as int)
            == daemon::shown(a, notified),
    decreases b.len(),
{
    if b.len() == 0 {
        assert(a + b == a);
    } else {
        assert((a + b).drop_last() == a + b.drop_last());
        lemma_shown_front(a, b.drop_last(), notified);
        let r = daemon::shown(a + b.drop_last(), notified);
        let n = daemon::shown(a, notified).len() as int;
        assert(daemon::shown(a + b, notified).take(n) == r.take(n));
    }
}

/// Every account's events are announced: an event of any account that lies ahead, of
/// whose id none ahead comes before it, is shown once one of its minutes has been
/// reached, unless that reminder is remembered. The poll then remembers it.
pub proof fn law_due_event_is_announced(
    s: StateView,
    snaps: Seq<SnapshotView>,
    cfg: Config,
    live: bool,
    now: Moment,
    clean: bool,
    i: int,
    j: int,
    m: i64,
)
    requires
        first_ahead(snaps, now, i, j),
        minute_of(snaps[i].events[j], snaps[i].calendars, cfg.default_reminder_mins, m),
        !not_yet(now, minutes_before(snaps[i].events[j].start_time->0, m)),
    ensures
        !s.notified.contains_key(event_key(snaps[i].events[j], m)) ==> exists|n: NoticeView|
            daemon::poll_notices(s, snaps, daemon::rules(cfg, live), now).contains(n)
                && #[trigger] says_event(n, snaps[i].events[j]),
        daemon::poll_state(
            s,
            snaps,
            daemon::rules(cfg, live),
            now,
            clean,
        ).notified.contains_key(event_key(snaps[i].events[j], m)),
{
    let r = daemon::rules(cfg, live);
    let fallback = cfg.default_reminder_mins;
    let events = daemon::all_events(snaps);
    let e = snaps[i].events[j];
    let k = events_before(snaps, i) + j;
    law_events_of_every_account(snaps, i, j);
    assert(events[k] == (e, snaps[i].calendars));
    assert(first_at(events, now, k)) by {
        assert forall|a: int| 0 <= a < k && ahead((#[trigger] events[a]).0, now) implies events[a].0.id
            != events[k].0.id by {
            let p = lemma_event_place(snaps, a);
            if p.0 > i {
                lemma_before_grows(snaps, i, p.0);
            }
            assert(ahead(snaps[p.0].events[p.1], now));
        }
    }
    lemma_reminders_have(events, fallback, now, k, m);
    let first = daemon::reminders(events, fallback, now);
    let due = daemon::all_due(snaps, r, now);
    let one = daemon::event_reminder(e, m, now)->0;
    lemma_event_reminder(e, m, now);
    let x = choose|x: int| 0 <= x < first.len() && first[x] == one;
    assert(due[x] == one);
    daemon::law_poll_remembers_reminders(s, snaps, r, now, clean);
    if !s.notified.contains_key(event_key(e, m)) {
        assert forall|y: int| 0 <= y < first.len() && (#[trigger] first[y]).key == first[x].key
            implies first[y].notice == first[x].notice by {
            let p = lemma_reminders_come(events, fallback, now, y);
            lemma_key_tells_id(
                e.id,
                minutes_before(e.start_time->0, m).secs as int,
                events[p.0].0.id,
                minutes_before(events[p.0].0.start_time->0, p.1).secs as int,
            );
            if p.0 < k {
                assert(events[p.0].0.id != events[k].0.id);
            } else if k < p.0 {
                assert(events[k].0.id != events[p.0].0.id);
            }
            assert(first[y].notice =~= first[x].notice);
        }
        lemma_shown_by_key(first, s.notified, x);
        let tasks = daemon::task_reminders(daemon::all_tasks(snaps), now.local_date(), now);
        lemma_shown_front(first, tasks, s.notified);
        let shown = daemon::shown(first, s.notified);
        let all = daemon::shown(due, s.notified);
        let y = choose|y: int| 0 <= y < shown.len() && shown[y] == one.notice;
        assert(all.take(shown.len() as int)[y] == one.notice);
        let notices = daemon::poll_notices(s, snaps, r, now);
        assert(notices[y] == one.notice);
        assert(says_event(one.notice, e));
    }
}

// ---------------------------------------------------------------------
// Tasks
// ---------------------------------------------------------------------

/// The day that the clock of a moment shows.
pub open spec fn today(now: Moment) -> Date {
    Date { days: day_of(now) as i32 }
}

/// Whether a task without a time of day is to be done on a day: one that recurs when
/// it falls on that day, another from its due day on.
pub open spec fn open_on(t: DueTaskView, day: Date) -> bool {
    &&& !t.completed
    &&& !t.timed
    &&& t.due matches Some(due) && if t.recurs {
        t.occurs_today
    } else {
        due.days <= day.days
    }
}

/// Whether a task that does not recur was due before a day.
pub open spec fn late_on(t: DueTaskView, day: Date) -> bool {
    !t.recurs && (t.due matches Some(due) && due.days < day.days)
}

/// What a timed task is remembered by: its id and the day.
pub open spec fn task_key(t: DueTaskView, day: Date) -> Seq<char> {
    "task:"@ + t.id + "@"@ + time::date_text(day.days, "%Y-%m-%d"@)
}

/// Whether a task is due at a time of today that has come.
pub open spec fn rings(t: DueTaskView, now: Moment) -> bool {
    t.timed && !t.completed && t.occurs_today && (t.occurrence matches Some(at) && !not_yet(
        now,
        Instant { secs: at.secs, nanos: at.nanos },
    ))
}

/// What is shown for a task that is due at a time of day.
pub open spec fn says_timed(n: NoticeView, t: DueTaskView) -> bool {
    &&& t.occurrence matches Some(at) && n.summary == hhmm(at) + " "@ + t.title
    &&& n.body == t.account + " · "@ + t.tasklist_title
    &&& n.open_url is None
}

/// What is shown for a new task.
pub open spec fn says_new(n: NoticeView, t: DueTaskView, day: Date) -> bool {
    &&& n.summary == (if late_on(t, day) {
        "Task vencida: "@
    } else {
        "Task para hoy: "@
    }) + t.title
    &&& n.body == t.account + " · "@ + t.tasklist_title
    &&& n.open_url is None
}

/// Whether the task at a position is the first of its id.
pub open spec fn first_task(snaps: Seq<SnapshotView>, i: int, j: int) -> bool {
    &&& 0 <= i < snaps.len()
    &&& 0 <= j < snaps[i].tasks.len()
    &&& forall|a: int, b: int|
        0 <= a < snaps.len() && 0 <= b < snaps[a].tasks.len() && (a < i || (a == i && b < j))
            ==> (#[trigger] snaps[a].tasks[b]).id != snaps[i].tasks[j].id
}

/// Whether some account has a task that rings, is not remembered, and is shown as
/// `n`.
pub open spec fn from_timed(
    n: NoticeView,
    s: StateView,
    snaps: Seq<SnapshotView>,
    now: Moment,
    i: int,
    j: int,
) -> bool {
    &&& 0 <= i < snaps.len()
    &&& 0 <= j < snaps[i].tasks.len()
    &&& rings(snaps[i].tasks[j], now)
    &&& !s.notified.contains_key(task_key(snaps[i].tasks[j], today(now)))
    &&& says_timed(n, snaps[i].tasks[j])
}

/// Whether some account has a task that was never seen, is to be done today, and is
/// shown as `n`.
pub open spec fn from_new(
    n: NoticeView,
    s: StateView,
    snaps: Seq<SnapshotView>,
    now: Moment,
    i: int,
    j: int,
) -> bool {
    &&& first_task(snaps, i, j)
    &&& s.tasks_seeded
    &&& !s.seen_tasks.contains(snaps[i].tasks[j].id)
    &&& open_on(snaps[i].tasks[j], today(now))
    &&& says_new(n, snaps[i].tasks[j], today(now))
}

/// Whether the digest is wanted, its time has come on the local clock, and there was
/// none today.
pub open spec fn digest_time_has_come(cfg: Config, s: StateView, now: Moment) -> bool {
    &&& cfg.task_digest_time matches Some(t) && (time::parsed_clock(text::trimmed(t@)) matches Some(
        at,
    ) && at <= (now.secs + now.offset) % 86_400)
    &&& s.digest_date != Some(today(now))
}

/// Whether a task is listed before another: by due day, then by title.
pub open spec fn listed_before(a: DueTaskView, b: DueTaskView) -> bool {
    match (a.due, b.due) {
        (Some(x), Some(y)) => x.days < y.days || (x.days == y.days && text::text_lt(
            a.title,
            b.title,
        )),
        (None, Some(_)) => true,
        (Some(_), None) => false,
        (None, None) => text::text_lt(a.title, b.title),
    }
}

/// Whether a list holds the tasks that are to be done on a day, each as often as the
/// accounts have it, in order.
pub open spec fn lists_the_day(
    order: Seq<DueTaskView>,
    snaps: Seq<SnapshotView>,
    day: Date,
) -> bool {
    &&& forall|t: DueTaskView| #[trigger]
        order.to_multiset().count(t) == if open_on(t, day) {
            daemon::all_tasks(snaps).to_multiset().count(t)
        } else {
            0
        }
    &&& forall|a: int, b: int|
        0 <= a < b < order.len() ==> !listed_before(#[trigger] order[b], #[trigger] order[a])
}

/// What is shown for a list of tasks.
pub open spec fn says_digest(n: NoticeView, order: Seq<DueTaskView>, day: Date) -> bool {
    &&& n.summary == text::numeral(order.len()) + " task(s) due today"@
    &&& n.body == text::joined(
        Seq::new(
            order.len(),
            |k: int|
                "• "@ + order[k].title + (if late_on(order[k], day) {
                    " (overdue)"@
                } else {
                    Seq::empty()
                }) + " ("@ + order[k].account + ")"@,
        ),
        "\n"@,
    )
    &&& n.open_url is None
}

proof fn lemma_task_reminder(t: DueTaskView, now: Moment)
    ensures
        daemon::task_reminder(t, now.local_date(), now) is Some <==> rings(t, now),
        daemon::task_reminder(t, now.local_date(), now) matches Some(r) ==> r.key == task_key(
            t,
            today(now),
        ) && says_timed(r.notice, t),
{
    if t.occurrence is Some {
        lemma_hhmm(t.occurrence->0);
    }
}

/// A task of any account that is due at a time of today is shown once that time has
/// come, unless it is remembered: where no task of its id rings before it and no event
/// is remembered under the same words.
pub proof fn law_timed_task_is_announced(
    s: StateView,
    snaps: Seq<SnapshotView>,
    cfg: Config,
    live: bool,
    now: Moment,
    clean: bool,
    i: int,
    j: int,
)
    requires
        0 <= i < snaps.len(),
        0 <= j < snaps[i].tasks.len(),
        rings(snaps[i].tasks[j], now),
        forall|a: int, b: int|
            0 <= a < snaps.len() && 0 <= b < snaps[a].tasks.len() && (a < i || (a == i && b < j))
                && rings(#[trigger] snaps[a].tasks[b], now) ==> task_key(
                snaps[a].tasks[b],
                today(now),
            ) != task_key(snaps[i].tasks[j], today(now)),
        forall|a: int, b: int, n: int|
            0 <= a < snaps.len() && 0 <= b < snaps[a].events.len() ==> (
            #[trigger] snaps[a].events[b]).id + "@"@ + #[trigger] text::signed_numeral(n)
                != task_key(snaps[i].tasks[j], today(now)),
    ensures
        !s.notified.contains_key(task_key(snaps[i].tasks[j], today(now))) ==> exists|
            n: NoticeView,
        |
            daemon::poll_notices(s, snaps, daemon::rules(cfg, live), now).contains(n)
                && #[trigger] says_timed(n, snaps[i].tasks[j]),
        daemon::poll_state(
            s,
            snaps,
            daemon::rules(cfg, live),
            now,
            clean,
        ).notified.contains_key(task_key(snaps[i].tasks[j], today(now))),
{
    let r = daemon::rules(cfg, live);
    let events = daemon::all_events(snaps);
    let first = daemon::reminders(events, cfg.default_reminder_mins, now);
    let tasks = daemon::all_tasks(snaps);
    let f = |t: DueTaskView| daemon::task_reminder(t, now.local_date(), now);
    let ring = tasks.filter_map(f);
    let due = daemon::all_due(snaps, r, now);
    assert(due == first + ring);
    let t = snaps[i].tasks[j];
    let key = task_key(t, today(now));
    let k = tasks_before(snaps, i) + j;
    law_tasks_of_every_account(snaps, i, j);
    lemma_task_reminder(t, now);
    let one = f(t)->0;
    lemma_filter_map_split(tasks, f, k);
    let head = tasks.take(k).filter_map(f);
    let x = head.len() as int;
    assert(ring[x] == one);
    let p = first.len() + x;
    assert(due[p] == one);
    daemon::law_poll_remembers_reminders(s, snaps, r, now, clean);
    assert forall|y: int| 0 <= y < p implies (#[trigger] due[y]).key != due[p].key by {
        if y < first.len() {
            let q = lemma_reminders_come(events, cfg.default_reminder_mins, now, y);
            let place = lemma_event_place(snaps, q.0);
            assert(snaps[place.0].events[place.1] == events[q.0].0);
            assert(due[y] == first[y]);
        } else {
            let z = y - first.len();
            assert(due[y] == ring[z]);
            assert(ring[z] == head[z]);
            assert(head.contains(head[z]));
            tasks.take(k).lemma_filter_map_contains(f, head[z]);
            let u = choose|u: DueTaskView| #[trigger]
                tasks.take(k).contains(u) && f(u) == Some(head[z]);
            assert(tasks.take(k).contains(u) && f(u) == Some(head[z]));
            let c = choose|c: int| 0 <= c < k && tasks.take(k)[c] == u;
            let place = lemma_task_place(snaps, c);
            if place.0 > i {
                lemma_before_grows(snaps, i, place.0);
            }
            lemma_task_reminder(u, now);
            assert(rings(snaps[place.0].tasks[place.1], now));
        }
    }
    if !s.notified.contains_key(key) {
        daemon::law_new_reminder_is_shown(due, s.notified, p);
        let shown = daemon::shown(due, s.notified);
        let y = choose|y: int| 0 <= y < shown.len() && shown[y] == one.notice;
        assert(daemon::poll_notices(s, snaps, r, now)[y] == one.notice);
        assert(says_timed(one.notice, t));
    }
}

/// Where the result of one element stands.
proof fn lemma_filter_map_split<A, B>(s: Seq<A>, f: spec_fn(A) -> Option<B>, k: int)
    requires
        0 <= k < s.len(),
        f(s[k]) is Some,
    ensures
        s.take(k).filter_map(f).len() < s.filter_map(f).len(),
        s.filter_map(f)[s.take(k).filter_map(f).len() as int] == f(s[k])->0,
        forall|z: int|
            0 <= z < s.take(k).filter_map(f).len() ==> #[trigger] s.filter_map(f)[z] == s.take(
                k,
            ).filter_map(f)[z],
    decreases s.len(),
{
    let n = s.len() - 1;
    let front = s.drop_last();
    if k == n {
        assert(s.take(k) == front);
    } else {
        assert(front[k] == s[k]);
        lemma_filter_map_split(front, f, k);
        assert(front.take(k) == s.take(k));
        let rest = front.filter_map(f);
        assert forall|z: int| 0 <= z < rest.len() implies #[trigger] s.filter_map(f)[z]
            == rest[z] by {}
    }
}

/// A task of any account that was never seen before, and is to be done today, is
/// shown where heads-ups are wanted and the tasks that were there before are known.
pub proof fn law_new_task_is_announced(
    s: StateView,
    snaps: Seq<SnapshotView>,
    cfg: Config,
    now: Moment,
    i: int,
    j: int,
)
    requires
        first_task(snaps, i, j),
        s.tasks_seeded,
        !s.seen_tasks.contains(snaps[i].tasks[j].id),
        open_on(snaps[i].tasks[j], today(now)),
    ensures
        exists|n: NoticeView|
            daemon::poll_notices(s, snaps, daemon::rules(cfg, true), now).contains(n)
                && #[trigger] says_new(n, snaps[i].tasks[j], today(now)),
{
    let r = daemon::rules(cfg, true);
    let tasks = daemon::all_tasks(snaps);
    let t = snaps[i].tasks[j];
    let k = tasks_before(snaps, i) + j;
    law_tasks_of_every_account(snaps, i, j);
    assert forall|a: int| 0 <= a < k implies (#[trigger] tasks[a]).id != tasks[k].id by {
        let p = lemma_task_place(snaps, a);
        if p.0 > i {
            lemma_before_grows(snaps, i, p.0);
        }
        assert(snaps[p.0].tasks[p.1].id != t.id);
    }
    daemon::law_new_due_task_is_announced(tasks, s.seen_tasks, now.local_date(), k);
    let n = daemon::live_notice(t, now.local_date());
    let live = daemon::live_notices(tasks, s.seen_tasks, now.local_date());
    let y = choose|y: int| 0 <= y < live.len() && live[y] == n;
    let shown = daemon::shown(daemon::all_due(snaps, r, now), s.notified);
    assert(daemon::poll_notices(s, snaps, r, now)[shown.len() + y] == n);
    assert(says_new(n, t, today(now)));
}

/// The ids that are known after a poll: those known before, and those of the tasks of
/// every account. The tasks that were there before are known from the first poll on
/// that went without an error.
pub proof fn law_known_ids(
    s: StateView,
    snaps: Seq<SnapshotView>,
    r: Rules,
    now: Moment,
    clean: bool,
    id: Seq<char>,
)
    ensures
        daemon::poll_state(s, snaps, r, now, clean).seen_tasks.contains(id) <==> (
        s.seen_tasks.contains(id) || exists|i: int, j: int|
            0 <= i < snaps.len() && 0 <= j < snaps[i].tasks.len() && (#[trigger] snaps[i].tasks[j]).id
                == id),
        daemon::poll_state(s, snaps, r, now, clean).tasks_seeded <==> s.tasks_seeded || clean,
{
    let tasks = daemon::all_tasks(snaps);
    lemma_ids_exact(tasks, s.seen_tasks, id);
    if exists|k: int| 0 <= k < tasks.len() && (#[trigger] tasks[k]).id == id {
        let k = choose|k: int| 0 <= k < tasks.len() && (#[trigger] tasks[k]).id == id;
        let p = lemma_task_place(snaps, k);
        assert(snaps[p.0].tasks[p.1].id == id);
    }
    if exists|i: int, j: int|
        0 <= i < snaps.len() && 0 <= j < snaps[i].tasks.len() && (#[trigger] snaps[i].tasks[j]).id
            == id {
        let (i, j) = choose|i: int, j: int|
            0 <= i < snaps.len() && 0 <= j < snaps[i].tasks.len() && (
            #[trigger] snaps[i].tasks[j]).id == id;
        law_tasks_of_every_account(snaps, i, j);
        assert(tasks[tasks_before(snaps, i) + j].id == id);
    }
}

proof fn lemma_ids_exact(tasks: Seq<DueTaskView>, seen: Set<Seq<char>>, id: Seq<char>)
    ensures
        daemon::ids_seen(tasks, seen).contains(id) <==> (seen.contains(id) || exists|k: int|
            0 <= k < tasks.len() && (#[trigger] tasks[k]).id == id),
    decreases tasks.len(),
{
    if tasks.len() > 0 {
        let front = tasks.drop_last();
        lemma_ids_exact(front, seen, id);
        if exists|k: int| 0 <= k < front.len() && (#[trigger] front[k]).id == id {
            let k = choose|k: int| 0 <= k < front.len() && (#[trigger] front[k]).id == id;
            assert(tasks[k].id == id);
        }
        if exists|k: int| 0 <= k < tasks.len() && (#[trigger] tasks[k]).id == id {
            let k = choose|k: int| 0 <= k < tasks.len() && (#[trigger] tasks[k]).id == id;
            if k < front.len() {
                assert(front[k].id == id);
            }
        }
        assert(tasks[tasks.len() - 1] == tasks.last());
    }
}

/// The reminders of events can be told where each point in time lies between the first
/// and the last that there is, of every event that counts.
pub proof fn law_reminders_can_be_told(
    events: Seq<(EventView, Seq<CalendarView>)>,
    e: EventView,
    cals: Seq<CalendarView>,
    mins: Seq<i64>,
    fallback: i64,
    now: Moment,
)
    ensures
        daemon::reminders_in_range(Seq::empty(), fallback, now),
        daemon::reminders_in_range(events.push((e, cals)), fallback, now) <==> (
        daemon::reminders_in_range(events, fallback, now) && (daemon::counts(
            events.push((e, cals)),
            now,
        ) ==> daemon::mins_in_range(e, daemon::mins_for(e, cals, fallback)))),
        e.start_time matches Some(s) ==> (s.nanos < 1_000_000_000 ==> (daemon::mins_in_range(
            e,
            mins,
        ) <==> forall|i: int|
            0 <= i < mins.len() ==> -8_334_601_228_800 <= s.secs - 60 * (#[trigger] mins[i])
                <= 8_210_266_876_799)),
{
    assert(events.push((e, cals)).drop_last() == events);
    if e.start_time is Some {
        let s = e.start_time->0;
        if s.nanos < 1_000_000_000 {
            if daemon::mins_in_range(e, mins) {
                assert forall|i: int| 0 <= i < mins.len() implies -8_334_601_228_800 <= s.secs - 60
                    * (#[trigger] mins[i]) <= 8_210_266_876_799 by {
                    assert(s.at().can_step(60 * mins[i]));
                }
            }
        }
    }
}

// ---------------------------------------------------------------------
// The digest
// ---------------------------------------------------------------------

proof fn lemma_put_task_count(tasks: Seq<DueTaskView>, t: DueTaskView)
    ensures
        daemon::put_task(tasks, t).to_multiset() == tasks.to_multiset().insert(t),
    decreases tasks.len(),
{
    broadcast use vstd::seq_lib::group_to_multiset_ensures;

    if tasks.len() > 0 && daemon::digest_before(t, tasks.last()) {
        lemma_put_task_count(tasks.drop_last(), t);
        assert(tasks == tasks.drop_last().push(tasks.last()));
        assert(tasks.to_multiset() == tasks.drop_last().to_multiset().insert(tasks.last()));
    }
}

proof fn lemma_digest_count(tasks: Seq<DueTaskView>, now: Moment)
    ensures
        forall|t: DueTaskView| #[trigger]
            daemon::digest_tasks(tasks, now.local_date()).to_multiset().count(t) == if open_on(
                t,
                today(now),
            ) {
                tasks.to_multiset().count(t)
            } else {
                0
            },
    decreases tasks.len(),
{
    broadcast use vstd::seq_lib::group_to_multiset_ensures;

    if tasks.len() > 0 {
        let front = tasks.drop_last();
        lemma_digest_count(front, now);
        lemma_put_task_count(daemon::digest_tasks(front, now.local_date()), tasks.last());
        assert(tasks == front.push(tasks.last()));
        assert(tasks.to_multiset() == front.to_multiset().insert(tasks.last()));
    }
}

proof fn lemma_digest_lists(snaps: Seq<SnapshotView>, now: Moment)
    ensures
        lists_the_day(
            daemon::digest_tasks(daemon::all_tasks(snaps), now.local_date()),
            snaps,
            today(now),
        ),
{
    let tasks = daemon::all_tasks(snaps);
    let order = daemon::digest_tasks(tasks, now.local_date());
    lemma_digest_count(tasks, now);
    daemon::law_digest_is_in_order(tasks, now.local_date());
    assert forall|a: int, b: int| 0 <= a < b < order.len() implies !listed_before(
        #[trigger] order[b],
        #[trigger] order[a],
    ) by {
        assert(!daemon::digest_before(order[b], order[a]));
    }
}

proof fn lemma_digest_says(snaps: Seq<SnapshotView>, now: Moment)
    ensures
        ({
            let order = daemon::digest_tasks(daemon::all_tasks(snaps), now.local_date());
            let d = daemon::digest(daemon::all_tasks(snaps), now.local_date());
            if order.len() == 0 {
                d.len() == 0
            } else {
                d.len() == 1 && says_digest(d[0], order, today(now))
            }
        }),
{
    reveal_strlit("");
    let order = daemon::digest_tasks(daemon::all_tasks(snaps), now.local_date());
    let day = today(now);
    let lines = order.map_values(|t: DueTaskView| daemon::digest_line(t, now.local_date()));
    let said = Seq::new(
        order.len(),
        |k: int|
            "• "@ + order[k].title + (if late_on(order[k], day) {
                " (overdue)"@
            } else {
                Seq::empty()
            }) + " ("@ + order[k].account + ")"@,
    );
    assert(""@ == Seq::<char>::empty());
    assert forall|k: int| 0 <= k < order.len() implies lines[k] == said[k] by {}
    assert(lines == said);
}

/// The digest comes exactly when its time has come on the local clock and there was
/// none today: it is the last thing shown, it lists every task of every account that
/// is to be done today and no other, and the day is remembered. Where nothing is to be
/// done, or its time has not come, none is shown.
pub proof fn law_digest_comes_when_its_time_has_come(
    s: StateView,
    snaps: Seq<SnapshotView>,
    cfg: Config,
    live: bool,
    now: Moment,
    clean: bool,
)
    ensures
        ({
            let notices = daemon::poll_notices(s, snaps, daemon::rules(cfg, live), now);
            let without = daemon::poll_notices(
                s,
                snaps,
                Rules {
                    fallback: cfg.default_reminder_mins,
                    digest_time: None,
                    live,
                },
                now,
            );
            let after = daemon::poll_state(s, snaps, daemon::rules(cfg, live), now, clean);
            if digest_time_has_come(cfg, s, now) {
                &&& after.digest_date == Some(today(now))
                &&& exists|order: Seq<DueTaskView>| #[trigger]
                    lists_the_day(order, snaps, today(now)) && if order.len() == 0 {
                        notices == without
                    } else {
                        notices.len() == without.len() + 1 && notices.drop_last() == without
                            && says_digest(notices.last(), order, today(now))
                    }
            } else {
                after.digest_date == s.digest_date && notices == without
            }
        }),
{
    let r = daemon::rules(cfg, live);
    let none = Rules { fallback: cfg.default_reminder_mins, digest_time: None, live };
    let tasks = daemon::all_tasks(snaps);
    let order = daemon::digest_tasks(tasks, now.local_date());
    let d = daemon::digest(tasks, now.local_date());
    let notices = daemon::poll_notices(s, snaps, r, now);
    let without = daemon::poll_notices(s, snaps, none, now);
    lemma_digest_lists(snaps, now);
    lemma_digest_says(snaps, now);
    assert(daemon::all_due(snaps, r, now) == daemon::all_due(snaps, none, now));
    assert(daemon::digest_is_due(r.digest_time, s.digest_date, now.local_date(), now)
        == digest_time_has_come(cfg, s, now));
    let base = daemon::shown(daemon::all_due(snaps, r, now), s.notified) + (if s.tasks_seeded
        && live {
        daemon::live_notices(tasks, s.seen_tasks, now.local_date())
    } else {
        Seq::empty()
    });
    assert(without == base + Seq::<NoticeView>::empty());
    assert(without == base);
    if digest_time_has_come(cfg, s, now) {
        assert(notices == base + d);
        if order.len() == 0 {
            assert(d == Seq::<NoticeView>::empty());
            assert(notices == without);
        } else {
            assert(notices.drop_last() == without);
            assert(notices.last() == d[0]);
        }
    } else {
        assert(notices == base + Seq::<NoticeView>::empty());
        assert(notices == without);
    }
}

/// What the local clock shows decides on the digest: two moments at which it shows
/// the same agree, whatever their offsets.
pub proof fn law_digest_goes_by_the_local_clock(
    s: StateView,
    snaps: Seq<SnapshotView>,
    r: Rules,
    now: Moment,
    other: Moment,
    clean: bool,
)
    requires
        now.secs + now.offset == other.secs + other.offset,
    ensures
        daemon::poll_state(s, snaps, r, now, clean).digest_date == daemon::poll_state(
            s,
            snaps,
            r,
            other,
            clean,
        ).digest_date,
{
}

// ---------------------------------------------------------------------
// Nothing else is shown
// ---------------------------------------------------------------------

proof fn lemma_shown_comes(
    due: Seq<ReminderView>,
    notified: Map<Seq<char>, Instant>,
    y: int,
) -> (x: int)
    requires
        0 <= y < daemon::shown(due, notified).len(),
    ensures
        0 <= x < due.len(),
        daemon::shown(due, notified)[y] == due[x].notice,
        !notified.contains_key(due[x].key),
    decreases due.len(),
{
    let front = due.drop_last();
    let rest = daemon::shown(front, notified);
    if y < rest.len() {
        let x = lemma_shown_comes(front, notified, y);
        assert(front[x] == due[x]);
        x
    } else {
        daemon::lemma_remembered(front, notified);
        due.len() - 1
    }
}

proof fn lemma_live_comes(
    tasks: Seq<DueTaskView>,
    seen: Set<Seq<char>>,
    now: Moment,
    y: int,
) -> (k: int)
    requires
        0 <= y < daemon::live_notices(tasks, seen, now.local_date()).len(),
    ensures
        0 <= k < tasks.len(),
        !seen.contains(tasks[k].id),
        forall|a: int| 0 <= a < k ==> (#[trigger] tasks[a]).id != tasks[k].id,
        open_on(tasks[k], today(now)),
        says_new(
            daemon::live_notices(tasks, seen, now.local_date())[y],
            tasks[k],
            today(now),
        ),
    decreases tasks.len(),
{
    let front = tasks.drop_last();
    let n = tasks.len() - 1;
    let rest = daemon::live_notices(front, seen, now.local_date());
    if y < rest.len() {
        let k = lemma_live_comes(front, seen, now, y);
        assert(front[k] == tasks[k]);
        assert forall|a: int| 0 <= a < k implies (#[trigger] tasks[a]).id != tasks[k].id by {
            assert(front[a].id != front[k].id);
        }
        k
    } else {
        lemma_ids_exact(front, seen, tasks[n].id);
        assert forall|a: int| 0 <= a < n implies (#[trigger] tasks[a]).id != tasks[n].id by {
            assert(front[a] == tasks[a]);
        }
        n
    }
}

/// Whether something is the reason for a notice: an event, a task at a time of day, a
/// new task, or the digest.
pub open spec fn has_a_reason(
    n: NoticeView,
    s: StateView,
    snaps: Seq<SnapshotView>,
    cfg: Config,
    live: bool,
    now: Moment,
) -> bool {
    ||| exists|i: int, j: int, m: i64| #[trigger]
        from_event(n, s, snaps, cfg.default_reminder_mins, now, i, j, m)
    ||| exists|i: int, j: int| #[trigger] from_timed(n, s, snaps, now, i, j)
    ||| live && exists|i: int, j: int| #[trigger] from_new(n, s, snaps, now, i, j)
    ||| digest_time_has_come(cfg, s, now) && exists|order: Seq<DueTaskView>| #[trigger]
        lists_the_day(order, snaps, today(now)) && order.len() > 0 && says_digest(
            n,
            order,
            today(now),
        )
}

/// Nothing is shown without a reason.
pub proof fn law_every_notice_has_a_reason(
    s: StateView,
    snaps: Seq<SnapshotView>,
    cfg: Config,
    live: bool,
    now: Moment,
    y: int,
)
    requires
        0 <= y < daemon::poll_notices(s, snaps, daemon::rules(cfg, live), now).len(),
    ensures
        has_a_reason(
            daemon::poll_notices(s, snaps, daemon::rules(cfg, live), now)[y],
            s,
            snaps,
            cfg,
            live,
            now,
        ),
{
    let r = daemon::rules(cfg, live);
    let notices = daemon::poll_notices(s, snaps, r, now);
    let due = daemon::all_due(snaps, r, now);
    let shown = daemon::shown(due, s.notified);
    let tasks = daemon::all_tasks(snaps);
    let heads = if s.tasks_seeded && live {
        daemon::live_notices(tasks, s.seen_tasks, now.local_date())
    } else {
        Seq::empty()
    };
    if y < shown.len() {
        assert(notices[y] == shown[y]);
        let x = lemma_shown_comes(due, s.notified, y);
        lemma_due_has_a_reason(s, snaps, cfg, live, now, x);
    } else if y < shown.len() + heads.len() {
        let z = y - shown.len();
        assert(notices[y] == heads[z]);
        let k = lemma_live_comes(tasks, s.seen_tasks, now, z);
        let p = lemma_task_place(snaps, k);
        assert forall|a: int, b: int|
            0 <= a < snaps.len() && 0 <= b < snaps[a].tasks.len() && (a < p.0 || (a == p.0 && b
                < p.1)) implies (#[trigger] snaps[a].tasks[b]).id != snaps[p.0].tasks[p.1].id by {
            law_tasks_of_every_account(snaps, a, b);
            if a < p.0 {
                lemma_before_grows(snaps, a, p.0);
            }
            assert(tasks[tasks_before(snaps, a) + b].id != tasks[k].id);
        }
        assert(from_new(notices[y], s, snaps, now, p.0, p.1));
    } else {
        let d = daemon::digest(tasks, now.local_date());
        let order = daemon::digest_tasks(tasks, now.local_date());
        lemma_digest_lists(snaps, now);
        lemma_digest_says(snaps, now);
        assert(daemon::digest_is_due(r.digest_time, s.digest_date, now.local_date(), now)
            == digest_time_has_come(cfg, s, now));
        assert(notices[y] == d[0]);
        assert(lists_the_day(order, snaps, today(now)));
    }
}

proof fn lemma_due_has_a_reason(
    s: StateView,
    snaps: Seq<SnapshotView>,
    cfg: Config,
    live: bool,
    now: Moment,
    x: int,
)
    requires
        0 <= x < daemon::all_due(snaps, daemon::rules(cfg, live), now).len(),
        !s.notified.contains_key(daemon::all_due(snaps, daemon::rules(cfg, live), now)[x].key),
    ensures
        has_a_reason(
            daemon::all_due(snaps, daemon::rules(cfg, live), now)[x].notice,
            s,
            snaps,
            cfg,
            live,
            now,
        ),
{
    let due = daemon::all_due(snaps, daemon::rules(cfg, live), now);
    let n = due[x].notice;
    let events = daemon::all_events(snaps);
    let fallback = cfg.default_reminder_mins;
    let first = daemon::reminders(events, fallback, now);
    let tasks = daemon::all_tasks(snaps);
    let f = |t: DueTaskView| daemon::task_reminder(t, now.local_date(), now);
    let ring = tasks.filter_map(f);
    assert(due == first + ring);
    if x < first.len() {
        let q = lemma_reminders_come(events, fallback, now, x);
        let p = lemma_event_place(snaps, q.0);
        assert(first_ahead(snaps, now, p.0, p.1)) by {
            assert forall|a: int, b: int|
                0 <= a < snaps.len() && 0 <= b < snaps[a].events.len() && (a < p.0 || (a == p.0 && b
                    < p.1)) && ahead(#[trigger] snaps[a].events[b], now) implies snaps[a].events[b].id
                != snaps[p.0].events[p.1].id by {
                law_events_of_every_account(snaps, a, b);
                if a < p.0 {
                    lemma_before_grows(snaps, a, p.0);
                }
                let z = events_before(snaps, a) + b;
                assert(ahead(events[z].0, now));
            }
        }
        assert(from_event(n, s, snaps, fallback, now, p.0, p.1, q.1));
    } else {
        let z = x - first.len();
        assert(due[x] == ring[z]);
        assert(ring.contains(ring[z]));
        tasks.lemma_filter_map_contains(f, ring[z]);
        let u = choose|u: DueTaskView| #[trigger] tasks.contains(u) && f(u) == Some(ring[z]);
        assert(tasks.contains(u) && f(u) == Some(ring[z]));
        let c = choose|c: int| 0 <= c < tasks.len() && tasks[c] == u;
        let p = lemma_task_place(snaps, c);
        lemma_task_reminder(u, now);
        assert(from_timed(n, s, snaps, now, p.0, p.1));
    }
}

// ---------------------------------------------------------------------
// What is remembered
// ---------------------------------------------------------------------

/// Two days before a moment.
pub open spec fn two_days_before(now: Moment) -> Instant {
    if now.nanos < 1_000_000_000 {
        Instant { secs: (now.secs - 172_800) as i64, nanos: now.nanos }
    } else {
        Instant {
            secs: (now.secs + 1 - 172_800) as i64,
            nanos: (now.nanos - 1_000_000_000) as u32,
        }
    }
}

/// Whether a reminder of a key is due.
pub open spec fn is_due(due: Seq<ReminderView>, key: Seq<char>) -> bool {
    exists|x: int| 0 <= x < due.len() && (#[trigger] due[x]).key == key
}

/// A poll remembers the reminders that it found due, and of the others those that
/// were due within the last two days; what was remembered before keeps its time.
pub proof fn law_memory_of_a_poll(
    s: StateView,
    snaps: Seq<SnapshotView>,
    r: Rules,
    now: Moment,
    clean: bool,
    key: Seq<char>,
)
    ensures
        ({
            let after = daemon::poll_state(s, snaps, r, now, clean).notified;
            let due = daemon::all_due(snaps, r, now);
            let cutoff = two_days_before(now);
            &&& after.contains_key(key) <==> (is_due(due, key) || (s.notified.contains_key(key) && (
            cutoff.secs < s.notified[key].secs || (cutoff.secs == s.notified[key].secs
                && cutoff.nanos < s.notified[key].nanos))))
            &&& after.contains_key(key) && s.notified.contains_key(key) ==> after[key]
                == s.notified[key]
            &&& after.contains_key(key) && !s.notified.contains_key(key) ==> exists|x: int|
                0 <= x < due.len() && (#[trigger] due[x]).key == key && due[x].at == after[key]
        }),
{
    let due = daemon::all_due(snaps, r, now);
    daemon::lemma_due_keys(due);
    daemon::lemma_remembered(due, s.notified);
    if !s.notified.contains_key(key) {
        lemma_remembered_comes(due, s.notified, key);
    }
    if is_due(due, key) {
        let x = choose|x: int| 0 <= x < due.len() && (#[trigger] due[x]).key == key;
        assert(daemon::remembered(due, s.notified).contains_key(due[x].key));
    }
}

proof fn lemma_remembered_comes(
    due: Seq<ReminderView>,
    notified: Map<Seq<char>, Instant>,
    key: Seq<char>,
)
    requires
        !notified.contains_key(key),
    ensures
        daemon::remembered(due, notified).contains_key(key) ==> exists|x: int|
            0 <= x < due.len() && (#[trigger] due[x]).key == key && due[x].at
                == daemon::remembered(due, notified)[key],
    decreases due.len(),
{
    if due.len() > 0 {
        let front = due.drop_last();
        lemma_remembered_comes(front, notified, key);
        let rest = daemon::remembered(front, notified);
        if rest.contains_key(key) {
            let x = choose|x: int|
                0 <= x < front.len() && (#[trigger] front[x]).key == key && front[x].at
                    == rest[key];
            assert(due[x] == front[x]);
        } else {
            assert(due[due.len() - 1] == due.last());
        }
    }
}

/// Each reminder is shown once: as many are shown as there are keys that are due and
/// not remembered.
pub proof fn law_each_key_is_shown_once(
    due: Seq<ReminderView>,
    notified: Map<Seq<char>, Instant>,
)
    ensures
        forall|key: Seq<char>| #[trigger]
            daemon::due_keys(due).contains(key) <==> is_due(due, key),
        daemon::due_keys(due).finite(),
        daemon::shown(due, notified).len() == daemon::due_keys(due).difference(
            notified.dom(),
        ).len(),
    decreases due.len(),
{
    daemon::lemma_due_keys(due);
    if due.len() > 0 {
        let front = due.drop_last();
        let last = due.last().key;
        law_each_key_is_shown_once(front, notified);
        let a = daemon::due_keys(front).difference(notified.dom());
        let b = daemon::due_keys(due).difference(notified.dom());
        lemma_remembered_keys(front, notified, last);
        if daemon::remembered(front, notified).contains_key(last) {
            assert(a =~= b);
        } else {
            assert(b =~= a.insert(last));
        }
    } else {
        assert(daemon::due_keys(due).difference(notified.dom()) =~= Set::empty());
    }
}

proof fn lemma_remembered_keys(
    due: Seq<ReminderView>,
    notified: Map<Seq<char>, Instant>,
    key: Seq<char>,
)
    ensures
        daemon::remembered(due, notified).contains_key(key) <==> (notified.contains_key(key)
            || daemon::due_keys(due).contains(key)),
    decreases due.len(),
{
    if due.len() > 0 {
        lemma_remembered_keys(due.drop_last(), notified, key);
    }
}

/// An event that has a list of reminders of its own, and an empty one, is never
/// announced, whatever its calendar and the configuration say.
pub proof fn law_event_without_reminders_is_silent(
    events: Seq<(EventView, Seq<CalendarView>)>,
    fallback: i64,
    now: Moment,
)
    requires
        events.len() > 0,
        events.last().0.reminder_overrides matches Some(own) && own.len() == 0,
    ensures
        daemon::reminders(events, fallback, now) == daemon::reminders(
            events.drop_last(),
            fallback,
            now,
        ),
{
    let (e, cals) = events.last();
    let own = daemon::event_reminders(e, daemon::mins_for(e, cals, fallback), now);
    assert(own == Seq::<ReminderView>::empty());
    let r = daemon::reminders(events.drop_last(), fallback, now);
    assert(r + Seq::<ReminderView>::empty() == r);
}

// ---------------------------------------------------------------------
// When there is nothing to go by, and how a notice is shown
// ---------------------------------------------------------------------

/// A poll counts as offline exactly where no account gave anything, and an account
/// gave nothing exactly where something went wrong, nothing was answered and there
/// is nothing to show.
pub proof fn law_offline(
    nothing: Seq<bool>,
    data: crate::backend::AccountDataView,
    errors: int,
    answered: bool,
)
    ensures
        daemon::all_failed(nothing) == !nothing.contains(false),
        daemon::gave_nothing(data, errors, answered) ==> errors > 0 && !answered,
        daemon::gave_nothing(data, errors, answered) == (errors > 0 && !answered
            && data.calendars.len() + data.events.len() + data.tasklists.len() + data.tasks.len()
            == 0),
{
    if !nothing.contains(false) {
        assert forall|i: int| 0 <= i < nothing.len() implies nothing[i] by {
            assert(nothing.contains(nothing[i]));
        }
    }
}

/// A notice is shown with its summary and its body, until it is dismissed, and offers
/// to open an address exactly where it has one.
pub proof fn law_notice_is_shown_whole(n: NoticeView)
    ensures
        ({
            let args = daemon::notify_args(n);
            let k = args.len();
            &&& args[k - 2] == n.summary
            &&& args[k - 1] == n.body
            &&& args.take(6) == seq!["-a"@, "waycal"@, "-i"@, "x-office-calendar"@, "-t"@, "0"@]
            &&& n.open_url is None ==> k == 8
            &&& n.open_url is Some ==> k == 10 && args[6] == "-A"@ && args[7]
                == "default=Open Meet"@
        }),
{
    assert(daemon::notify_args(n).take(6) =~= seq![
        "-a"@,
        "waycal"@,
        "-i"@,
        "x-office-calendar"@,
        "-t"@,
        "0"@,
    ]);
}

/// Whether a character may stand around the word that takes the offer.
pub open spec fn around_a_word(c: char) -> bool {
    c == ' ' || c == '\t' || c == '\n' || c == '\r' || c == '\u{c}'
}

/// White space around the word that says that the offer was taken does not matter,
/// and nothing else counts as that word.
pub proof fn law_offer_is_taken(before: Seq<char>, word: Seq<char>, after: Seq<char>)
    requires
        forall|i: int|
            0 <= i < before.len() ==> (#[trigger] before[i]) == ' ' || before[i] == '\t'
                || before[i] == '\n' || before[i] == '\r' || before[i] == '\u{c}',
        forall|i: int|
            0 <= i < after.len() ==> (#[trigger] after[i]) == ' ' || after[i] == '\t' || after[i]
                == '\n' || after[i] == '\r' || after[i] == '\u{c}',
        word.len() > 0 ==> !around_a_word(word[0]) && !around_a_word(word.last()),
    ensures
        daemon::ascii_trimmed(before + word + after) == word,
    decreases before.len() + after.len(),
{
    let s = before + word + after;
    if before.len() > 0 {
        assert(s[0] == before[0]);
        assert(s.drop_first() == before.drop_first() + word + after);
        law_offer_is_taken(before.drop_first(), word, after);
    } else if after.len() > 0 {
        let front = after.drop_last();
        assert(s.last() == after.last());
        assert(s.drop_last() == before + word + front);
        if word.len() > 0 {
            assert(s[0] == word[0]);
            law_offer_is_taken(before, word, front);
        } else {
            assert(s == after);
            assert(s[0] == after[0]);
            assert(s.drop_first() == before + word + after.drop_first());
            law_offer_is_taken(before, word, after.drop_first());
        }
    } else {
        assert(s == word);
    }
}

} // verus!
