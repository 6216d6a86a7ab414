//! The notification daemon: which reminders are due, which tasks are new, and
//! what the morning digest says.

use vstd::prelude::*;

use crate::backend::{AccountData, AccountDataView};
use crate::config::Config;
use crate::model::{Calendar, CalendarView, Event, EventView, Task};
use crate::text;
use crate::textmap;
use crate::textmap::{TextMap, TextSet};
use crate::time;
use crate::time::{Date, Instant, Moment};

verus! {

// ---------------------------------------------------------------------
// Types
// ---------------------------------------------------------------------

/// A desktop notification; with an address, it offers to open it.
#[derive(Debug)]
pub struct Notice {
    pub summary: String,
    pub body: String,
    pub open_url: Option<String>,
}

/// What the daemon needs to know of a task today.
#[derive(Debug)]
pub struct DueTask {
    pub account: String,
    pub tasklist_title: String,
    pub id: String,
    pub title: String,
    pub completed: bool,
    pub due: Option<Date>,
    /// Whether the task recurs.
    pub recurs: bool,
    /// Whether the task, or an occurrence of it, falls on today.
    pub occurs_today: bool,
    /// Whether the task is due at a time of day.
    pub timed: bool,
    /// That time today on the local clock, where the clock shows it exactly once.
    pub occurrence: Option<Moment>,
}

/// What was fetched for one account.
#[derive(Debug)]
pub struct Snapshot {
    pub calendars: Vec<Calendar>,
    pub events: Vec<Event>,
    pub tasks: Vec<DueTask>,
}

/// What the daemon remembers from poll to poll.
#[derive(Debug)]
pub struct State {
    /// Reminders that have been shown, and when each was due.
    pub notified: TextMap<Instant>,
    pub digest_date: Option<Date>,
    /// Every task id ever observed. It only grows, so that neither a completed
    /// task nor a fetch that failed makes an id look new again.
    pub seen_tasks: TextSet,
    /// Set once the tasks that were there before are all in `seen_tasks`.
    pub tasks_seeded: bool,
}

/// The model of a [`Notice`].
#[verifier::ext_equal]
pub struct NoticeView {
    pub summary: Seq<char>,
    pub body: Seq<char>,
    pub open_url: Option<Seq<char>>,
}

/// The model of a [`DueTask`].
#[verifier::ext_equal]
pub struct DueTaskView {
    pub account: Seq<char>,
    pub tasklist_title: Seq<char>,
    pub id: Seq<char>,
    pub title: Seq<char>,
    pub completed: bool,
    pub due: Option<Date>,
    pub recurs: bool,
    pub occurs_today: bool,
    pub timed: bool,
    pub occurrence: Option<Moment>,
}

/// The model of a [`Snapshot`].
#[verifier::ext_equal]
pub struct SnapshotView {
    pub calendars: Seq<CalendarView>,
    pub events: Seq<EventView>,
    pub tasks: Seq<DueTaskView>,
}

/// The model of a [`State`].
#[verifier::ext_equal]
pub struct StateView {
    pub notified: Map<Seq<char>, Instant>,
    pub digest_date: Option<Date>,
    pub seen_tasks: Set<Seq<char>>,
    pub tasks_seeded: bool,
}

impl DeepView for Notice {
    type V = NoticeView;

    open spec fn deep_view(&self) -> NoticeView {
        NoticeView {
            summary: self.summary@,
            body: self.body@,
            open_url: self.open_url.deep_view(),
        }
    }
}

impl DeepView for DueTask {
    type V = DueTaskView;

    open spec fn deep_view(&self) -> DueTaskView {
        DueTaskView {
            account: self.account@,
            tasklist_title: self.tasklist_title@,
            id: self.id@,
            title: self.title@,
            completed: self.completed,
            due: self.due,
            recurs: self.recurs,
            occurs_today: self.occurs_today,
            timed: self.timed,
            occurrence: self.occurrence,
        }
    }
}

impl DeepView for Snapshot {
    type V = SnapshotView;

    open spec fn deep_view(&self) -> SnapshotView {
        SnapshotView {
            calendars: self.calendars.deep_view(),
            events: self.events.deep_view(),
            tasks: self.tasks.deep_view(),
        }
    }
}

impl View for State {
    type V = StateView;

    open spec fn view(&self) -> StateView {
        StateView {
            notified: self.notified@,
            digest_date: self.digest_date,
            seen_tasks: self.seen_tasks@,
            tasks_seeded: self.tasks_seeded,
        }
    }
}

impl State {
    /// A daemon that remembers nothing.
    pub fn new() -> (r: Self)
        ensures
            r@ == (StateView {
                notified: Map::empty(),
                digest_date: None,
                seen_tasks: Set::empty(),
                tasks_seeded: false,
            }),
    {
        State {
            notified: TextMap::new(),
            digest_date: None,
            seen_tasks: TextSet::new(),
            tasks_seeded: false,
        }
    }
}

impl SnapshotView {
    /// Whether the times in it are ones that chrono represents.
    pub open spec fn wf(self) -> bool {
        &&& forall|i: int| 0 <= i < self.events.len() ==> (#[trigger] self.events[i]).wf()
        &&& forall|i: int|
            0 <= i < self.tasks.len() ==> ((#[trigger] self.tasks[i]).occurrence matches Some(m)
                ==> m.valid())
    }
}

/// Whether all snapshots are well-formed.
pub open spec fn snapshots_wf(snaps: Seq<SnapshotView>) -> bool {
    forall|i: int| 0 <= i < snaps.len() ==> (#[trigger] snaps[i]).wf()
}

impl DueTask {
    /// A task that does not recur and is due on a day, if at all.
    pub fn from_task(task: &Task) -> (r: Self)
        ensures
            r.deep_view() == (DueTaskView {
                account: task.account@,
                tasklist_title: task.tasklist_title@,
                id: task.id@,
                title: task.title@,
                completed: task.completed,
                due: task.due,
                recurs: false,
                occurs_today: false,
                timed: false,
                occurrence: None,
            }),
    {
        DueTask {
            account: task.account.clone(),
            tasklist_title: task.tasklist_title.clone(),
            id: task.id.clone(),
            title: task.title.clone(),
            completed: task.completed,
            due: task.due,
            recurs: false,
            occurs_today: false,
            timed: false,
            occurrence: None,
        }
    }
}

/// The time of day of a due time, today on the local clock, where the clock
/// shows it exactly once. Whether it does is the machine's.
pub fn occurrence(today: Date, due_time: Moment) -> (r: Option<Moment>)
    requires
        today.valid(),
        due_time.valid(),
    ensures
        time::shows(time::clock_reading(today, due_time.second_of_day(), due_time.nanos), r),
        r matches Some(m) ==> {
            &&& m.valid()
            &&& m.local_date() == today
            &&& m.second_of_day() == due_time.second_of_day()
            &&& m.nanos == due_time.nanos
        },
{
    time::local_single(time::clock_at(today, due_time.time_of_day(), due_time.nanos))
}

// ---------------------------------------------------------------------
// Reminders
// ---------------------------------------------------------------------

/// A reminder that is due: what it is remembered by, when it was due, and what
/// it says.
#[derive(Debug)]
pub struct Reminder {
    pub key: String,
    pub at: Instant,
    pub notice: Notice,
}

/// The model of a [`Reminder`].
#[verifier::ext_equal]
pub struct ReminderView {
    pub key: Seq<char>,
    pub at: Instant,
    pub notice: NoticeView,
}

impl DeepView for Reminder {
    type V = ReminderView;

    open spec fn deep_view(&self) -> ReminderView {
        ReminderView { key: self.key@, at: self.at, notice: self.notice.deep_view() }
    }
}

/// The default reminders of the first calendar of an id.
pub open spec fn calendar_mins(cals: Seq<CalendarView>, id: Seq<char>) -> Seq<i64>
    decreases cals.len(),
{
    if cals.len() == 0 {
        Seq::empty()
    } else if cals[0].id == id {
        cals[0].default_reminder_mins
    } else {
        calendar_mins(cals.drop_first(), id)
    }
}

/// The minutes before an event at which it is announced: its own, else those of
/// its calendar, else one fallback.
pub open spec fn mins_for(ev: EventView, cals: Seq<CalendarView>, fallback: i64) -> Seq<i64> {
    match ev.reminder_overrides {
        Some(mins) => mins,
        None => {
            let mins = calendar_mins(cals, ev.calendar_id);
            if mins.len() == 0 {
                seq![fallback]
            } else {
                mins
            }
        },
    }
}

/// Whether an event has a start time that lies ahead.
pub open spec fn upcoming(ev: EventView, now: Moment) -> bool {
    ev.start_time matches Some(start) && now.at().before(start.at())
}

/// `ACCOUNT · PLACE`.
pub open spec fn origin(account: Seq<char>, place: Seq<char>) -> Seq<char> {
    account + " · "@ + place
}

/// A line of its own, where there is a text.
pub open spec fn extra_line(s: Option<Seq<char>>) -> Seq<char> {
    match s {
        Some(s) => "\n"@ + s,
        None => Seq::empty(),
    }
}

/// `HH:MM TITLE`.
pub open spec fn timed_title(at: Moment, title: Seq<char>) -> Seq<char> {
    time::clock_text(at.second_of_day()) + " "@ + title
}

/// What the reminder of an event says.
pub open spec fn event_notice(ev: EventView) -> NoticeView {
    NoticeView {
        summary: timed_title(ev.start_time->0, ev.summary),
        body: origin(ev.account, ev.calendar_name) + extra_line(ev.location) + extra_line(
            ev.meet_url,
        ),
        open_url: ev.meet_url,
    }
}

/// When an event is announced, some minutes before it starts.
pub open spec fn remind_at(ev: EventView, mins: i64) -> Instant {
    ev.start_time->0.at().earlier(60 * mins)
}

/// The reminder of an event, where it is due.
pub open spec fn event_reminder(ev: EventView, mins: i64, now: Moment) -> Option<ReminderView> {
    let at = remind_at(ev, mins);
    if now.at().before(at) {
        None
    } else {
        Some(
            ReminderView {
                key: ev.id + "@"@ + text::signed_numeral(at.secs as int),
                at,
                notice: event_notice(ev),
            },
        )
    }
}

/// The reminders of an event that are due.
pub open spec fn event_reminders(ev: EventView, mins: Seq<i64>, now: Moment) -> Seq<ReminderView> {
    mins.filter_map(|m: i64| event_reminder(ev, m, now))
}

/// All events with the calendars of their account, one account after the other.
pub open spec fn all_events(snaps: Seq<SnapshotView>) -> Seq<(EventView, Seq<CalendarView>)>
    decreases snaps.len(),
{
    if snaps.len() == 0 {
        Seq::empty()
    } else {
        let last = snaps.last();
        all_events(snaps.drop_last()) + last.events.map_values(
            |e: EventView| (e, last.calendars),
        )
    }
}

/// All tasks, one account after the other.
pub open spec fn all_tasks(snaps: Seq<SnapshotView>) -> Seq<DueTaskView>
    decreases snaps.len(),
{
    if snaps.len() == 0 {
        Seq::empty()
    } else {
        all_tasks(snaps.drop_last()) + snaps.last().tasks
    }
}

/// The ids of the events that lie ahead.
pub open spec fn upcoming_ids(events: Seq<(EventView, Seq<CalendarView>)>, now: Moment) -> Set<
    Seq<char>,
>
    decreases events.len(),
{
    if events.len() == 0 {
        Set::empty()
    } else {
        let rest = upcoming_ids(events.drop_last(), now);
        let ev = events.last().0;
        if upcoming(ev, now) {
            rest.insert(ev.id)
        } else {
            rest
        }
    }
}

/// Whether the last of the events lies ahead and is the first of its id to do
/// so: an event that several accounts share counts once.
pub open spec fn counts(events: Seq<(EventView, Seq<CalendarView>)>, now: Moment) -> bool {
    upcoming(events.last().0, now) && !upcoming_ids(events.drop_last(), now).contains(
        events.last().0.id,
    )
}

/// The reminders of events that are due.
pub open spec fn reminders(
    events: Seq<(EventView, Seq<CalendarView>)>,
    fallback: i64,
    now: Moment,
) -> Seq<ReminderView>
    decreases events.len(),
{
    if events.len() == 0 {
        Seq::empty()
    } else {
        let (ev, cals) = events.last();
        reminders(events.drop_last(), fallback, now) + if counts(events, now) {
            event_reminders(ev, mins_for(ev, cals, fallback), now)
        } else {
            Seq::empty()
        }
    }
}

/// Whether the times at which an event is announced are ones that chrono
/// represents.
pub open spec fn mins_in_range(ev: EventView, mins: Seq<i64>) -> bool {
    forall|i: int|
        0 <= i < mins.len() ==> ev.start_time->0.at().can_step(60 * #[trigger] mins[i])
}

/// Whether the times of all reminders that are looked at are ones that chrono
/// represents.
pub open spec fn reminders_in_range(
    events: Seq<(EventView, Seq<CalendarView>)>,
    fallback: i64,
    now: Moment,
) -> bool
    decreases events.len(),
{
    events.len() == 0 || {
        let (ev, cals) = events.last();
        &&& reminders_in_range(events.drop_last(), fallback, now)
        &&& counts(events, now) ==> mins_in_range(ev, mins_for(ev, cals, fallback))
    }
}

/// The reminder of a task that is due at a time of day, where that time has
/// come.
pub open spec fn task_reminder(t: DueTaskView, today: Date, now: Moment) -> Option<ReminderView> {
    if !t.timed || t.completed || !t.occurs_today {
        None
    } else {
        match t.occurrence {
            None => None,
            Some(at) => if now.at().before(at.at()) {
                None
            } else {
                Some(
                    ReminderView {
                        key: "task:"@ + t.id + "@"@ + time::date_text(today.days, "%Y-%m-%d"@),
                        at: at.at(),
                        notice: NoticeView {
                            summary: timed_title(at, t.title),
                            body: origin(t.account, t.tasklist_title),
                            open_url: None,
                        },
                    },
                )
            },
        }
    }
}

/// The reminders of tasks that are due at a time of day.
pub open spec fn task_reminders(tasks: Seq<DueTaskView>, today: Date, now: Moment) -> Seq<
    ReminderView,
> {
    tasks.filter_map(|t: DueTaskView| task_reminder(t, today, now))
}

/// What is remembered once reminders have been shown.
pub open spec fn remembered(
    due: Seq<ReminderView>,
    notified: Map<Seq<char>, Instant>,
) -> Map<Seq<char>, Instant>
    decreases due.len(),
{
    if due.len() == 0 {
        notified
    } else {
        let rest = remembered(due.drop_last(), notified);
        if rest.contains_key(due.last().key) {
            rest
        } else {
            rest.insert(due.last().key, due.last().at)
        }
    }
}

/// What reminders are remembered by.
pub open spec fn due_keys(due: Seq<ReminderView>) -> Set<Seq<char>>
    decreases due.len(),
{
    if due.len() == 0 {
        Set::empty()
    } else {
        due_keys(due.drop_last()).insert(due.last().key)
    }
}

/// The reminders that are shown: those that have not been yet, each once.
pub open spec fn shown(
    due: Seq<ReminderView>,
    notified: Map<Seq<char>, Instant>,
) -> Seq<NoticeView>
    decreases due.len(),
{
    if due.len() == 0 {
        Seq::empty()
    } else {
        let rest = shown(due.drop_last(), notified);
        if remembered(due.drop_last(), notified).contains_key(due.last().key) {
            rest
        } else {
            rest.push(due.last().notice)
        }
    }
}

// ---------------------------------------------------------------------
// Tasks
// ---------------------------------------------------------------------

/// Whether a task without a time is to be done today: it recurs today, or it is
/// due today or was due before.
pub open spec fn due_today(t: DueTaskView, today: Date) -> bool {
    !t.timed && (t.due matches Some(day) && if t.recurs {
        t.occurs_today
    } else {
        day.days <= today.days
    })
}

/// Whether a task should have been done before today.
pub open spec fn overdue(t: DueTaskView, today: Date) -> bool {
    !t.recurs && (t.due matches Some(day) && day.days < today.days)
}

/// The heads-up about a new task.
pub open spec fn live_notice(t: DueTaskView, today: Date) -> NoticeView {
    NoticeView {
        summary: (if overdue(t, today) {
            "Task vencida: "@
        } else {
            "Task para hoy: "@
        }) + t.title,
        body: origin(t.account, t.tasklist_title),
        open_url: None,
    }
}

/// Every task id ever observed, once tasks have been.
pub open spec fn ids_seen(tasks: Seq<DueTaskView>, seen: Set<Seq<char>>) -> Set<Seq<char>>
    decreases tasks.len(),
{
    if tasks.len() == 0 {
        seen
    } else {
        ids_seen(tasks.drop_last(), seen).insert(tasks.last().id)
    }
}

/// The heads-ups about tasks that are new and to be done today.
pub open spec fn live_notices(
    tasks: Seq<DueTaskView>,
    seen: Set<Seq<char>>,
    today: Date,
) -> Seq<NoticeView>
    decreases tasks.len(),
{
    if tasks.len() == 0 {
        Seq::empty()
    } else {
        let t = tasks.last();
        let rest = live_notices(tasks.drop_last(), seen, today);
        if !ids_seen(tasks.drop_last(), seen).contains(t.id) && !t.completed && due_today(t, today) {
            rest.push(live_notice(t, today))
        } else {
            rest
        }
    }
}

/// Whether a task comes before another in the digest: by due day, then by title.
pub open spec fn digest_before(a: DueTaskView, b: DueTaskView) -> bool {
    match (a.due, b.due) {
        (Some(x), Some(y)) => x.days < y.days || (x.days == y.days && text::text_lt(
            a.title,
            b.title,
        )),
        (None, Some(_)) => true,
        (None, None) => text::text_lt(a.title, b.title),
        (Some(_), None) => false,
    }
}

/// A task put behind those that do not come after it.
pub open spec fn put_task(tasks: Seq<DueTaskView>, t: DueTaskView) -> Seq<DueTaskView>
    decreases tasks.len(),
{
    if tasks.len() == 0 || !digest_before(t, tasks.last()) {
        tasks.push(t)
    } else {
        put_task(tasks.drop_last(), t).push(tasks.last())
    }
}

/// The tasks of the digest: those to be done today, in order.
pub open spec fn digest_tasks(tasks: Seq<DueTaskView>, today: Date) -> Seq<DueTaskView>
    decreases tasks.len(),
{
    if tasks.len() == 0 {
        Seq::empty()
    } else {
        let rest = digest_tasks(tasks.drop_last(), today);
        let t = tasks.last();
        if !t.completed && due_today(t, today) {
            put_task(rest, t)
        } else {
            rest
        }
    }
}

/// The line of a task in the digest.
pub open spec fn digest_line(t: DueTaskView, today: Date) -> Seq<char> {
    "• "@ + t.title + (if overdue(t, today) {
        " (overdue)"@
    } else {
        ""@
    }) + " ("@ + t.account + ")"@
}

/// The digest; none where nothing is to be done.
pub open spec fn digest(tasks: Seq<DueTaskView>, today: Date) -> Seq<NoticeView> {
    let due = digest_tasks(tasks, today);
    if due.len() == 0 {
        Seq::empty()
    } else {
        seq![
            NoticeView {
                summary: text::numeral(due.len()) + " task(s) due today"@,
                body: text::joined(
                    due.map_values(|t: DueTaskView| digest_line(t, today)),
                    "\n"@,
                ),
                open_url: None,
            },
        ]
    }
}

/// Whether the time of the digest has come and there has been none today.
pub open spec fn digest_is_due(
    digest_time: Option<Seq<char>>,
    digest_date: Option<Date>,
    today: Date,
    now: Moment,
) -> bool {
    &&& digest_time matches Some(s) && (time::parsed_clock(text::trimmed(s)) matches Some(at)
        && at <= now.second_of_day())
    &&& digest_date != Some(today)
}

// ---------------------------------------------------------------------
// A poll
// ---------------------------------------------------------------------

/// Two days, in seconds: how long a reminder is remembered that no poll looks at
/// any more.
pub const MEMORY_SECS: i64 = 172_800;

/// What a poll goes by.
#[verifier::ext_equal]
pub struct Rules {
    pub fallback: i64,
    pub digest_time: Option<Seq<char>>,
    pub live: bool,
}

/// The rules of a configuration.
pub open spec fn rules(cfg: Config, live: bool) -> Rules {
    Rules {
        fallback: cfg.default_reminder_mins,
        digest_time: cfg.task_digest_time.deep_view(),
        live,
    }
}

/// The reminders that are due, of events and then of tasks.
pub open spec fn all_due(snaps: Seq<SnapshotView>, r: Rules, now: Moment) -> Seq<ReminderView> {
    reminders(all_events(snaps), r.fallback, now) + task_reminders(
        all_tasks(snaps),
        now.local_date(),
        now,
    )
}

/// What a poll shows: reminders, heads-ups about new tasks where these are
/// wanted and the tasks that were there before are known, and the digest where
/// it is due.
pub open spec fn poll_notices(
    s: StateView,
    snaps: Seq<SnapshotView>,
    r: Rules,
    now: Moment,
) -> Seq<NoticeView> {
    let today = now.local_date();
    let tasks = all_tasks(snaps);
    shown(all_due(snaps, r, now), s.notified) + (if s.tasks_seeded && r.live {
        live_notices(tasks, s.seen_tasks, today)
    } else {
        Seq::empty()
    }) + (if digest_is_due(r.digest_time, s.digest_date, today, now) {
        digest(tasks, today)
    } else {
        Seq::empty()
    })
}

/// What is remembered after a poll: the reminders of the last two days and those
/// that the poll looked at however old they are, every task id, whether the tasks
/// that were there before are known (which takes a poll without errors), and the
/// day of the digest.
pub open spec fn poll_state(
    s: StateView,
    snaps: Seq<SnapshotView>,
    r: Rules,
    now: Moment,
    clean: bool,
) -> StateView {
    let today = now.local_date();
    StateView {
        notified: textmap::later_or_in(
            remembered(all_due(snaps, r, now), s.notified),
            now.at().earlier(MEMORY_SECS as int),
            due_keys(all_due(snaps, r, now)),
        ),
        digest_date: if digest_is_due(r.digest_time, s.digest_date, today, now) {
            Some(today)
        } else {
            s.digest_date
        },
        seen_tasks: ids_seen(all_tasks(snaps), s.seen_tasks),
        tasks_seeded: s.tasks_seeded || clean,
    }
}

/// What came of a poll.
#[derive(Debug)]
pub enum Poll {
    /// Everything failed: nothing is shown and nothing changes.
    Offline,
    /// What to show.
    Notices(Vec<Notice>),
}

/// Whether the fetch of an account gave nothing: something went wrong, no request
/// was answered, and there is no data.
pub open spec fn gave_nothing(data: AccountDataView, errors: int, answered: bool) -> bool {
    &&& errors > 0
    &&& !answered
    &&& data.calendars.len() == 0
    &&& data.events.len() == 0
    &&& data.tasklists.len() == 0
    &&& data.tasks.len() == 0
}

/// Whether everything failed: every account gave nothing.
pub open spec fn all_failed(nothing: Seq<bool>) -> bool {
    forall|i: int| 0 <= i < nothing.len() ==> nothing[i]
}

// ---------------------------------------------------------------------
// Carrying a poll out
// ---------------------------------------------------------------------

/// The event at a position, with the calendars of its account.
spec fn event_at(snaps: Seq<SnapshotView>, p: (usize, usize)) -> (EventView, Seq<CalendarView>) {
    (snaps[p.0 as int].events[p.1 as int], snaps[p.0 as int].calendars)
}

/// Whether positions name all events in order.
spec fn lists_events(index: Seq<(usize, usize)>, snaps: Seq<SnapshotView>) -> bool {
    &&& index.len() == all_events(snaps).len()
    &&& forall|k: int| #![trigger index[k]]
        0 <= k < index.len() ==> {
            &&& index[k].0 < snaps.len()
            &&& index[k].1 < snaps[index[k].0 as int].events.len()
            &&& all_events(snaps)[k] == event_at(snaps, index[k])
        }
}

/// Whether positions name all tasks in order.
spec fn lists_tasks(index: Seq<(usize, usize)>, snaps: Seq<SnapshotView>) -> bool {
    &&& index.len() == all_tasks(snaps).len()
    &&& forall|k: int| #![trigger index[k]]
        0 <= k < index.len() ==> {
            &&& index[k].0 < snaps.len()
            &&& index[k].1 < snaps[index[k].0 as int].tasks.len()
            &&& all_tasks(snaps)[k] == snaps[index[k].0 as int].tasks[index[k].1 as int]
        }
}

/// The positions of all events.
fn event_index(snaps: &Vec<Snapshot>) -> (r: Vec<(usize, usize)>)
    ensures
        lists_events(r@, snaps.deep_view()),
{
    let ghost all = snaps.deep_view();
    let mut out: Vec<(usize, usize)> = Vec::new();
    let mut i: usize = 0;
    while i < snaps.len()
        invariant
            i <= snaps@.len(),
            all == snaps.deep_view(),
            out@.len() == all_events(all.take(i as int)).len(),
            forall|k: int| #![trigger out@[k]]
                0 <= k < out@.len() ==> {
                    &&& out@[k].0 < i
                    &&& out@[k].1 < all[out@[k].0 as int].events.len()
                    &&& all_events(all.take(i as int))[k] == event_at(all, out@[k])
                },
        decreases snaps.len() - i,
    {
        let ghost before = out@;
        let ghost snap = all[i as int];
        assert(snap == snaps@[i as int].deep_view());
        assert(all.take(i + 1).drop_last() == all.take(i as int));
        assert(all.take(i + 1).last() == snap);
        let n = snaps[i].events.len();
        let mut j: usize = 0;
        while j < n
            invariant
                j <= n == snap.events.len(),
                out@.len() == before.len() + j,
                forall|k: int| 0 <= k < before.len() ==> #[trigger] out@[k] == before[k],
                forall|k: int| before.len() <= k < out@.len() ==> #[trigger] out@[k] == (
                    i,
                    (k - before.len()) as usize,
                ),
            decreases n - j,
        {
            out.push((i, j));
            j += 1;
        }
        assert forall|k: int| #![trigger out@[k]] 0 <= k < out@.len() implies {
            &&& out@[k].0 < i + 1
            &&& out@[k].1 < all[out@[k].0 as int].events.len()
            &&& all_events(all.take(i + 1))[k] == event_at(all, out@[k])
        } by {
            if k < before.len() {
                assert(out@[k] == before[k]);
            }
        }
        i += 1;
    }
    assert(all.take(i as int) == all);
    out
}

/// The positions of all tasks.
fn task_index(snaps: &Vec<Snapshot>) -> (r: Vec<(usize, usize)>)
    ensures
        lists_tasks(r@, snaps.deep_view()),
{
    let ghost all = snaps.deep_view();
    let mut out: Vec<(usize, usize)> = Vec::new();
    let mut i: usize = 0;
    while i < snaps.len()
        invariant
            i <= snaps@.len(),
            all == snaps.deep_view(),
            out@.len() == all_tasks(all.take(i as int)).len(),
            forall|k: int| #![trigger out@[k]]
                0 <= k < out@.len() ==> {
                    &&& out@[k].0 < i
                    &&& out@[k].1 < all[out@[k].0 as int].tasks.len()
                    &&& all_tasks(all.take(i as int))[k]
                        == all[out@[k].0 as int].tasks[out@[k].1 as int]
                },
        decreases snaps.len() - i,
    {
        let ghost before = out@;
        let ghost snap = all[i as int];
        assert(snap == snaps@[i as int].deep_view());
        assert(all.take(i + 1).drop_last() == all.take(i as int));
        assert(all.take(i + 1).last() == snap);
        let n = snaps[i].tasks.len();
        let mut j: usize = 0;
        while j < n
            invariant
                j <= n == snap.tasks.len(),
                out@.len() == before.len() + j,
                forall|k: int| 0 <= k < before.len() ==> #[trigger] out@[k] == before[k],
                forall|k: int| before.len() <= k < out@.len() ==> #[trigger] out@[k] == (
                    i,
                    (k - before.len()) as usize,
                ),
            decreases n - j,
        {
            out.push((i, j));
            j += 1;
        }
        assert forall|k: int| #![trigger out@[k]] 0 <= k < out@.len() implies {
            &&& out@[k].0 < i + 1
            &&& out@[k].1 < all[out@[k].0 as int].tasks.len()
            &&& all_tasks(all.take(i + 1))[k] == all[out@[k].0 as int].tasks[out@[k].1 as int]
        } by {
            if k < before.len() {
                assert(out@[k] == before[k]);
            }
        }
        i += 1;
    }
    assert(all.take(i as int) == all);
    out
}

/// Copies numbers.
fn copy_mins(mins: &Vec<i64>) -> (r: Vec<i64>)
    ensures
        r@ == mins@,
{
    let mut out: Vec<i64> = Vec::new();
    let mut i: usize = 0;
    while i < mins.len()
        invariant
            i <= mins@.len(),
            out@ == mins@.take(i as int),
        decreases mins.len() - i,
    {
        out.push(mins[i]);
        i += 1;
    }
    out
}

/// The minutes before an event at which it is announced.
fn reminder_mins(ev: &Event, cals: &Vec<Calendar>, fallback: i64) -> (r: Vec<i64>)
    ensures
        r@ == mins_for(ev.deep_view(), cals.deep_view(), fallback),
{
    if let Some(mins) = &ev.reminder_overrides {
        return copy_mins(mins);
    }
    let ghost all = cals.deep_view();
    let ghost id = ev.calendar_id@;
    let mut defaults: Vec<i64> = Vec::new();
    let mut found = false;
    let mut i: usize = 0;
    assert(all.skip(0) == all);
    while i < cals.len() && !found
        invariant
            i <= cals@.len(),
            all == cals.deep_view(),
            id == ev.calendar_id@,
            !found ==> defaults@.len() == 0 && calendar_mins(all, id) == calendar_mins(
                all.skip(i as int),
                id,
            ),
            found ==> defaults@ == calendar_mins(all, id),
        decreases cals.len() - i,
    {
        assert(all.skip(i as int)[0] == cals@[i as int].deep_view());
        assert(all.skip(i as int).drop_first() == all.skip(i + 1));
        if text::same(cals[i].id.as_str(), ev.calendar_id.as_str()) {
            defaults = copy_mins(&cals[i].default_reminder_mins);
            found = true;
        }
        i += 1;
    }
    if defaults.len() == 0 {
        assert(calendar_mins(all, id).len() == 0) by {
            if !found {
                assert(all.skip(i as int).len() == 0);
            }
        }
        let mut one: Vec<i64> = Vec::new();
        one.push(fallback);
        assert(one@ == seq![fallback]);
        one
    } else {
        defaults
    }
}

/// Decides [`upcoming`].
fn is_upcoming(ev: &Event, now: Moment) -> (r: bool)
    ensures
        r == upcoming(ev.deep_view(), now),
{
    match ev.start_time {
        Some(start) => now.instant().is_before(start.instant()),
        None => false,
    }
}

/// Whether a step back of some minutes stays in the range of chrono.
fn can_step_back(t: Instant, mins: i64) -> (r: bool)
    ensures
        r == t.can_step(60 * mins),
{
    let n: i128 = mins as i128 * 60;
    let at: i128 = if n > 0 && t.nanos >= 1_000_000_000 {
        t.secs as i128 + 1 - n
    } else {
        t.secs as i128 - n
    };
    time::MIN_SECS as i128 <= at && at <= time::MAX_SECS as i128
}

/// Decides [`mins_in_range`].
fn are_mins_in_range(ev: &Event, mins: &Vec<i64>) -> (r: bool)
    requires
        ev.start_time is Some,
    ensures
        r == mins_in_range(ev.deep_view(), mins@),
{
    match ev.start_time {
        None => true,
        Some(start) => {
            let mut i: usize = 0;
            while i < mins.len()
                invariant
                    i <= mins@.len(),
                    ev.deep_view().start_time == Some(start),
                    forall|j: int| 0 <= j < i ==> start.at().can_step(60 * #[trigger] mins@[j]),
                decreases mins.len() - i,
            {
                if !can_step_back(start.instant(), mins[i]) {
                    assert(!start.at().can_step(60 * mins@[i as int]));
                    return false;
                }
                i += 1;
            }
            true
        },
    }
}

/// Decides whether the times of all reminders that a poll looks at are ones that
/// chrono represents.
pub fn are_reminders_in_range(snaps: &Vec<Snapshot>, cfg: &Config, now: Moment) -> (r: bool)
    ensures
        r == reminders_in_range(
            all_events(snaps.deep_view()),
            cfg.default_reminder_mins,
            now,
        ),
{
    let ghost all = snaps.deep_view();
    let ghost events = all_events(all);
    let index = event_index(snaps);
    let mut seen = TextSet::new();
    let mut in_range = true;
    let mut k: usize = 0;
    while k < index.len()
        invariant
            k <= index@.len() == events.len(),
            all == snaps.deep_view(),
            events == all_events(all),
            lists_events(index@, all),
            seen@ == upcoming_ids(events.take(k as int), now),
            in_range == reminders_in_range(
                events.take(k as int),
                cfg.default_reminder_mins,
                now,
            ),
        decreases index.len() - k,
    {
        let (i, j) = index[k];
        assert(all[i as int] == snaps@[i as int].deep_view());
        let ev = &snaps[i].events[j];
        assert(all[i as int].events[j as int] == snaps@[i as int].events@[j as int].deep_view());
        let ghost upto = events.take(k + 1);
        assert(upto.drop_last() == events.take(k as int));
        assert(upto.last() == (ev.deep_view(), all[i as int].calendars));
        if is_upcoming(ev, now) {
            let fresh = seen.insert(ev.id.clone());
            if fresh {
                let mins = reminder_mins(ev, &snaps[i].calendars, cfg.default_reminder_mins);
                let fine = are_mins_in_range(ev, &mins);
                in_range = in_range && fine;
            }
        }
        k += 1;
    }
    assert(events.take(k as int) == events);
    in_range
}

/// `ACCOUNT · PLACE`.
fn write_origin(account: &str, place: &str) -> (r: String)
    ensures
        r@ == origin(account@, place@),
{
    text::concat3(account, " · ", place)
}

/// A line of its own, where there is a text.
fn push_extra(out: &mut String, s: &Option<String>)
    ensures
        final(out)@ == old(out)@ + extra_line(s.deep_view()),
{
    match s {
        Some(s) => {
            out.push_str("\n");
            out.push_str(s.as_str());
            assert(out@ == old(out)@ + ("\n"@ + s@));
        },
        None => {
            assert(out@ == old(out)@ + Seq::<char>::empty());
        },
    }
}

/// Copies an optional text.
fn copy_text(s: &Option<String>) -> (r: Option<String>)
    ensures
        r.deep_view() == s.deep_view(),
{
    match s {
        Some(s) => Some(s.clone()),
        None => None,
    }
}

/// What the reminder of an event says.
fn write_event_notice(ev: &Event, start: Moment) -> (r: Notice)
    requires
        ev.start_time == Some(start),
        start.valid(),
    ensures
        r.deep_view() == event_notice(ev.deep_view()),
{
    let mut body = write_origin(ev.account.as_str(), ev.calendar_name.as_str());
    push_extra(&mut body, &ev.location);
    push_extra(&mut body, &ev.meet_url);
    Notice {
        summary: text::concat3(time::format_clock(start).as_str(), " ", ev.summary.as_str()),
        body,
        open_url: copy_text(&ev.meet_url),
    }
}

/// Adds the reminders of an event that are due.
fn add_event_reminders(
    ev: &Event,
    start: Moment,
    mins: &Vec<i64>,
    now: Moment,
    out: &mut Vec<Reminder>,
)
    requires
        ev.start_time == Some(start),
        start.valid(),
        mins_in_range(ev.deep_view(), mins@),
    ensures
        final(out).deep_view() == old(out).deep_view() + event_reminders(
            ev.deep_view(),
            mins@,
            now,
        ),
{
    let ghost e = ev.deep_view();
    let ghost before = out.deep_view();
    let mut i: usize = 0;
    assert(before + event_reminders(e, mins@.take(0), now) == before);
    while i < mins.len()
        invariant
            i <= mins@.len(),
            e == ev.deep_view(),
            ev.start_time == Some(start),
            start.valid(),
            mins_in_range(e, mins@),
            out.deep_view() == before + event_reminders(e, mins@.take(i as int), now),
        decreases mins.len() - i,
    {
        let ghost sofar = out.deep_view();
        let ghost upto = mins@.take(i + 1);
        assert(upto.drop_last() == mins@.take(i as int));
        assert(upto.last() == mins@[i as int]);
        assert(start.at().can_step(60 * mins@[i as int]));
        let back: i64 = mins[i] * 60;
        let at = start.instant().minus(back);
        assert(at == remind_at(e, mins@[i as int]));
        if !now.instant().is_before(at) {
            let key = text::concat3(
                ev.id.as_str(),
                "@",
                text::signed_decimal(at.secs).as_str(),
            );
            let reminder = Reminder { key, at, notice: write_event_notice(ev, start) };
            assert(event_reminder(e, mins@[i as int], now) == Some(reminder.deep_view()));
            out.push(reminder);
            assert(out.deep_view() == sofar.push(reminder.deep_view()));
            assert(out.deep_view() == before + (event_reminders(e, mins@.take(i as int), now)
                + seq![reminder.deep_view()]));
        } else {
            assert(event_reminder(e, mins@[i as int], now) is None);
        }
        i += 1;
    }
    assert(mins@.take(i as int) == mins@);
}

/// The reminders of events that are due.
fn due_event_reminders(snaps: &Vec<Snapshot>, fallback: i64, now: Moment) -> (r: Vec<Reminder>)
    requires
        snapshots_wf(snaps.deep_view()),
        reminders_in_range(all_events(snaps.deep_view()), fallback, now),
    ensures
        r.deep_view() == reminders(all_events(snaps.deep_view()), fallback, now),
{
    let ghost all = snaps.deep_view();
    let ghost events = all_events(all);
    let index = event_index(snaps);
    let mut seen = TextSet::new();
    let mut out: Vec<Reminder> = Vec::new();
    let mut k: usize = 0;
    assert(events.take(events.len() as int) == events);
    proof {
        lemma_range_prefix(events, fallback, now, events.len() as int);
    }
    while k < index.len()
        invariant
            k <= index@.len() == events.len(),
            all == snaps.deep_view(),
            snapshots_wf(all),
            events == all_events(all),
            lists_events(index@, all),
            forall|n: int|
                0 <= n <= events.len() ==> reminders_in_range(
                    #[trigger] events.take(n),
                    fallback,
                    now,
                ),
            seen@ == upcoming_ids(events.take(k as int), now),
            out.deep_view() == reminders(events.take(k as int), fallback, now),
        decreases index.len() - k,
    {
        let (i, j) = index[k];
        assert(all[i as int] == snaps@[i as int].deep_view());
        let ev = &snaps[i].events[j];
        assert(all[i as int].events[j as int] == snaps@[i as int].events@[j as int].deep_view());
        assert(all[i as int].wf());
        assert(ev.deep_view().wf());
        let ghost upto = events.take(k + 1);
        assert(upto.drop_last() == events.take(k as int));
        assert(upto.last() == (ev.deep_view(), all[i as int].calendars));
        assert(reminders_in_range(upto, fallback, now));
        let ghost sofar = out.deep_view();
        assert(sofar + Seq::<ReminderView>::empty() == sofar);
        if let Some(start) = ev.start_time {
            if is_upcoming(ev, now) {
                let fresh = seen.insert(ev.id.clone());
                if fresh {
                    assert(counts(upto, now));
                    let mins = reminder_mins(ev, &snaps[i].calendars, fallback);
                    add_event_reminders(ev, start, &mins, now, &mut out);
                }
            }
        }
        k += 1;
    }
    assert(events.take(k as int) == events);
    out
}

proof fn lemma_range_prefix(
    events: Seq<(EventView, Seq<CalendarView>)>,
    fallback: i64,
    now: Moment,
    n: int,
)
    requires
        0 <= n <= events.len(),
        reminders_in_range(events.take(n), fallback, now),
    ensures
        forall|m: int|
            0 <= m <= n ==> reminders_in_range(#[trigger] events.take(m), fallback, now),
    decreases n,
{
    if n > 0 {
        assert(events.take(n).drop_last() == events.take(n - 1));
        lemma_range_prefix(events, fallback, now, n - 1);
    }
    assert forall|m: int| 0 <= m <= n implies reminders_in_range(
        #[trigger] events.take(m),
        fallback,
        now,
    ) by {
        if m == n {
        }
    }
}

/// Adds the reminders of tasks that are due at a time of day.
fn add_task_reminders(snaps: &Vec<Snapshot>, today: Date, now: Moment, out: &mut Vec<Reminder>)
    requires
        snapshots_wf(snaps.deep_view()),
        today.valid(),
    ensures
        final(out).deep_view() == old(out).deep_view() + task_reminders(
            all_tasks(snaps.deep_view()),
            today,
            now,
        ),
{
    let ghost all = snaps.deep_view();
    let ghost tasks = all_tasks(all);
    let ghost before = out.deep_view();
    let index = task_index(snaps);
    let mut k: usize = 0;
    assert(before + task_reminders(tasks.take(0), today, now) == before);
    while k < index.len()
        invariant
            k <= index@.len() == tasks.len(),
            all == snaps.deep_view(),
            snapshots_wf(all),
            today.valid(),
            tasks == all_tasks(all),
            lists_tasks(index@, all),
            out.deep_view() == before + task_reminders(tasks.take(k as int), today, now),
        decreases index.len() - k,
    {
        let (i, j) = index[k];
        assert(all[i as int] == snaps@[i as int].deep_view());
        let t = &snaps[i].tasks[j];
        assert(all[i as int].tasks[j as int] == snaps@[i as int].tasks@[j as int].deep_view());
        assert(all[i as int].wf());
        let ghost tv = t.deep_view();
        let ghost sofar = out.deep_view();
        assert(tasks.take(k + 1).drop_last() == tasks.take(k as int));
        assert(tasks.take(k + 1).last() == tv);
        if t.timed && !t.completed && t.occurs_today {
            if let Some(at) = t.occurrence {
                if !now.instant().is_before(at.instant()) {
                    let mut key = text::concat3("task:", t.id.as_str(), "@");
                    key.push_str(time::format_date(today, "%Y-%m-%d").as_str());
                    let reminder = Reminder {
                        key,
                        at: at.instant(),
                        notice: Notice {
                            summary: text::concat3(
                                time::format_clock(at).as_str(),
                                " ",
                                t.title.as_str(),
                            ),
                            body: write_origin(t.account.as_str(), t.tasklist_title.as_str()),
                            open_url: None,
                        },
                    };
                    assert(task_reminder(tv, today, now) == Some(reminder.deep_view()));
                    out.push(reminder);
                    assert(out.deep_view() == sofar.push(reminder.deep_view()));
                    assert(out.deep_view() == before + (task_reminders(
                        tasks.take(k as int),
                        today,
                        now,
                    ) + seq![reminder.deep_view()]));
                }
            }
        }
        k += 1;
    }
    assert(tasks.take(k as int) == tasks);
}

/// Shows the reminders that have not been yet.
fn show(due: Vec<Reminder>, notified: &mut TextMap<Instant>) -> (r: Vec<Notice>)
    ensures
        r.deep_view() == shown(due.deep_view(), old(notified)@),
        final(notified)@ == remembered(due.deep_view(), old(notified)@),
{
    let ghost all = due.deep_view();
    let ghost given = due@;
    let ghost start = notified@;
    let mut due = due;
    let n = due.len();
    let mut out: Vec<Notice> = Vec::new();
    let mut i: usize = 0;
    assert(all.take(0) == Seq::<ReminderView>::empty());
    while i < n
        invariant
            i <= n == all.len(),
            n == given.len(),
            all == Seq::new(given.len(), |j: int| given[j].deep_view()),
            due@ == given.skip(i as int),
            out.deep_view() == shown(all.take(i as int), start),
            notified@ == remembered(all.take(i as int), start),
        decreases n - i,
    {
        let reminder = due.remove(0);
        assert(reminder == given[i as int]);
        assert(due@ == given.skip(i + 1));
        assert(all.take(i + 1).drop_last() == all.take(i as int));
        assert(all.take(i + 1).last() == reminder.deep_view());
        let ghost sofar = out.deep_view();
        let known = notified.get(reminder.key.as_str()).is_some();
        if !known {
            let notice = reminder.notice;
            out.push(notice);
            assert(out.deep_view() == sofar.push(notice.deep_view()));
            notified.insert(reminder.key, reminder.at);
        }
        i += 1;
    }
    assert(all.take(i as int) == all);
    out
}

/// Decides [`due_today`].
fn is_due_today(t: &DueTask, today: Date) -> (r: bool)
    ensures
        r == due_today(t.deep_view(), today),
{
    !t.timed && match t.due {
        Some(day) => if t.recurs {
            t.occurs_today
        } else {
            day.days <= today.days
        },
        None => false,
    }
}

/// Decides [`overdue`].
fn is_overdue(t: &DueTask, today: Date) -> (r: bool)
    ensures
        r == overdue(t.deep_view(), today),
{
    !t.recurs && match t.due {
        Some(day) => day.days < today.days,
        None => false,
    }
}

/// Notes every task id, and adds the heads-ups about new tasks where `announce`
/// says so.
fn note_tasks(
    snaps: &Vec<Snapshot>,
    today: Date,
    announce: bool,
    seen: &mut TextSet,
    out: &mut Vec<Notice>,
)
    ensures
        final(seen)@ == ids_seen(all_tasks(snaps.deep_view()), old(seen)@),
        final(out).deep_view() == old(out).deep_view() + if announce {
            live_notices(all_tasks(snaps.deep_view()), old(seen)@, today)
        } else {
            Seq::empty()
        },
{
    let ghost all = snaps.deep_view();
    let ghost tasks = all_tasks(all);
    let ghost before = out.deep_view();
    let ghost known = seen@;
    let index = task_index(snaps);
    let mut k: usize = 0;
    assert(before + Seq::<NoticeView>::empty() == before);
    assert(tasks.take(0) == Seq::<DueTaskView>::empty());
    while k < index.len()
        invariant
            k <= index@.len() == tasks.len(),
            all == snaps.deep_view(),
            tasks == all_tasks(all),
            lists_tasks(index@, all),
            seen@ == ids_seen(tasks.take(k as int), known),
            out.deep_view() == before + if announce {
                live_notices(tasks.take(k as int), known, today)
            } else {
                Seq::empty()
            },
        decreases index.len() - k,
    {
        let (i, j) = index[k];
        assert(all[i as int] == snaps@[i as int].deep_view());
        let t = &snaps[i].tasks[j];
        assert(all[i as int].tasks[j as int] == snaps@[i as int].tasks@[j as int].deep_view());
        let ghost tv = t.deep_view();
        let ghost sofar = out.deep_view();
        assert(tasks.take(k + 1).drop_last() == tasks.take(k as int));
        assert(tasks.take(k + 1).last() == tv);
        let fresh = seen.insert(t.id.clone());
        if fresh && announce && !t.completed && is_due_today(t, today) {
            let lead = if is_overdue(t, today) {
                "Task vencida: "
            } else {
                "Task para hoy: "
            };
            let notice = Notice {
                summary: text::concat(lead, t.title.as_str()),
                body: write_origin(t.account.as_str(), t.tasklist_title.as_str()),
                open_url: None,
            };
            assert(notice.deep_view() =~= live_notice(tv, today));
            out.push(notice);
            assert(out.deep_view() == sofar.push(notice.deep_view()));
            assert(out.deep_view() == before + live_notices(
                tasks.take(k as int),
                known,
                today,
            ).push(notice.deep_view()));
        }
        k += 1;
    }
    assert(tasks.take(k as int) == tasks);
}

/// Decides [`digest_before`].
fn is_digest_before(a: &DueTask, b: &DueTask) -> (r: bool)
    ensures
        r == digest_before(a.deep_view(), b.deep_view()),
{
    match (a.due, b.due) {
        (Some(x), Some(y)) => if x.days != y.days {
            x.days < y.days
        } else {
            text::less(a.title.as_str(), b.title.as_str())
        },
        (None, Some(_)) => true,
        (None, None) => text::less(a.title.as_str(), b.title.as_str()),
        (Some(_), None) => false,
    }
}

proof fn lemma_put_task(tasks: Seq<DueTaskView>, t: DueTaskView, k: int)
    requires
        0 <= k <= tasks.len(),
        forall|j: int| k <= j < tasks.len() ==> digest_before(t, #[trigger] tasks[j]),
        k > 0 ==> !digest_before(t, tasks[k - 1]),
    ensures
        put_task(tasks, t) == tasks.insert(k, t),
    decreases tasks.len(),
{
    if k < tasks.len() {
        assert(digest_before(t, tasks[tasks.len() - 1]));
        lemma_put_task(tasks.drop_last(), t, k);
        assert(tasks.drop_last().insert(k, t).push(tasks.last()) == tasks.insert(k, t));
    } else {
        assert(tasks.insert(k, t) == tasks.push(t));
    }
}

/// The tasks at positions.
spec fn tasks_at(snaps: Seq<SnapshotView>, index: Seq<(usize, usize)>) -> Seq<DueTaskView> {
    index.map_values(|p: (usize, usize)| snaps[p.0 as int].tasks[p.1 as int])
}

/// Whether positions name tasks.
spec fn in_bounds(snaps: Seq<SnapshotView>, index: Seq<(usize, usize)>) -> bool {
    forall|k: int| #![trigger index[k]]
        0 <= k < index.len() ==> index[k].0 < snaps.len() && index[k].1
            < snaps[index[k].0 as int].tasks.len()
}

/// The positions of the tasks of the digest, in order.
fn digest_index(snaps: &Vec<Snapshot>, today: Date) -> (r: Vec<(usize, usize)>)
    ensures
        in_bounds(snaps.deep_view(), r@),
        tasks_at(snaps.deep_view(), r@) == digest_tasks(all_tasks(snaps.deep_view()), today),
{
    let ghost all = snaps.deep_view();
    let ghost tasks = all_tasks(all);
    let index = task_index(snaps);
    let mut out: Vec<(usize, usize)> = Vec::new();
    let mut k: usize = 0;
    assert(tasks.take(0) == Seq::<DueTaskView>::empty());
    assert(tasks_at(all, out@) == Seq::<DueTaskView>::empty());
    while k < index.len()
        invariant
            k <= index@.len() == tasks.len(),
            all == snaps.deep_view(),
            tasks == all_tasks(all),
            lists_tasks(index@, all),
            in_bounds(all, out@),
            tasks_at(all, out@) == digest_tasks(tasks.take(k as int), today),
        decreases index.len() - k,
    {
        let p = index[k];
        assert(all[p.0 as int] == snaps@[p.0 as int].deep_view());
        let t = &snaps[p.0].tasks[p.1];
        let ghost tv = t.deep_view();
        assert(all[p.0 as int].tasks[p.1 as int] == tv);
        assert(tasks.take(k + 1).drop_last() == tasks.take(k as int));
        assert(tasks.take(k + 1).last() == tv);
        if !t.completed && is_due_today(t, today) {
            let ghost before = tasks_at(all, out@);
            let mut at: usize = out.len();
            while at > 0 && is_digest_before(t, &snaps[out[at - 1].0].tasks[out[at - 1].1])
                invariant
                    at <= out@.len(),
                    all == snaps.deep_view(),
                    in_bounds(all, out@),
                    tv == t.deep_view(),
                    before == tasks_at(all, out@),
                    forall|j: int|
                        at <= j < before.len() ==> digest_before(tv, #[trigger] before[j]),
                decreases at,
            {
                proof {
                    let q = out@[at - 1];
                    assert(all[q.0 as int] == snaps@[q.0 as int].deep_view());
                    assert(before[at - 1] == all[q.0 as int].tasks[q.1 as int]);
                }
                at -= 1;
            }
            proof {
                if at > 0 {
                    let q = out@[at - 1];
                    assert(all[q.0 as int] == snaps@[q.0 as int].deep_view());
                    assert(before[at - 1] == all[q.0 as int].tasks[q.1 as int]);
                }
                lemma_put_task(before, tv, at as int);
            }
            let ghost old_out = out@;
            out.insert(at, p);
            assert(tasks_at(all, out@) == before.insert(at as int, tv));
            assert forall|m: int| #![trigger out@[m]] 0 <= m < out@.len() implies out@[m].0
                < all.len() && out@[m].1 < all[out@[m].0 as int].tasks.len() by {
                if m < at {
                    assert(out@[m] == old_out[m]);
                } else if m > at {
                    assert(out@[m] == old_out[m - 1]);
                }
            }
        }
        k += 1;
    }
    assert(tasks.take(k as int) == tasks);
    out
}

/// The line of a task in the digest.
fn write_digest_line(t: &DueTask, today: Date) -> (r: String)
    ensures
        r@ == digest_line(t.deep_view(), today),
{
    let mut out = text::concat("• ", t.title.as_str());
    out.push_str(
        if is_overdue(t, today) {
            " (overdue)"
        } else {
            ""
        },
    );
    out.push_str(" (");
    out.push_str(t.account.as_str());
    out.push_str(")");
    out
}

/// Adds the digest, where anything is to be done.
fn add_digest(snaps: &Vec<Snapshot>, today: Date, out: &mut Vec<Notice>)
    ensures
        final(out).deep_view() == old(out).deep_view() + digest(
            all_tasks(snaps.deep_view()),
            today,
        ),
{
    let ghost all = snaps.deep_view();
    let ghost before = out.deep_view();
    let index = digest_index(snaps, today);
    let ghost due = tasks_at(all, index@);
    let ghost f = |t: DueTaskView| digest_line(t, today);
    if index.len() == 0 {
        assert(before + Seq::<NoticeView>::empty() == before);
        return ;
    }
    let mut lines: Vec<String> = Vec::new();
    let mut k: usize = 0;
    while k < index.len()
        invariant
            k <= index@.len(),
            all == snaps.deep_view(),
            in_bounds(all, index@),
            due == tasks_at(all, index@),
            f == (|t: DueTaskView| digest_line(t, today)),
            lines.deep_view() == due.take(k as int).map_values(f),
        decreases index.len() - k,
    {
        let ghost sofar = lines.deep_view();
        let (i, j) = index[k];
        assert(all[i as int] == snaps@[i as int].deep_view());
        let line = write_digest_line(&snaps[i].tasks[j], today);
        assert(due[k as int] == all[i as int].tasks[j as int]);
        lines.push(line);
        assert(lines.deep_view() == sofar.push(line@));
        assert(due.take(k + 1).map_values(f) == due.take(k as int).map_values(f).push(
            f(due[k as int]),
        ));
        k += 1;
    }
    assert(due.take(k as int) == due);
    let notice = Notice {
        summary: text::concat(text::decimal(index.len() as u64).as_str(), " task(s) due today"),
        body: text::join(&lines, "\n"),
        open_url: None,
    };
    out.push(notice);
    assert(out.deep_view() == before.push(notice.deep_view()));
    assert(before.push(notice.deep_view()) == before + seq![notice.deep_view()]);
}

/// Whether the digest is due.
fn is_digest_due(
    digest_time: &Option<String>,
    digest_date: Option<Date>,
    today: Date,
    now: Moment,
) -> (r: bool)
    requires
        now.valid(),
    ensures
        r == digest_is_due(digest_time.deep_view(), digest_date, today, now),
{
    let due = match digest_time {
        Some(s) => match time::parse_hhmm(s.as_str()) {
            Some(at) => at <= now.time_of_day(),
            None => false,
        },
        None => false,
    };
    due && digest_date != Some(today)
}

/// Decides [`gave_nothing`] for the fetch of an account. `answered` tells whether
/// any of its requests was answered.
pub fn is_without_data(data: &AccountData, errors: usize, answered: bool) -> (r: bool)
    ensures
        r == gave_nothing(data.deep_view(), errors as int, answered),
{
    errors > 0 && !answered && data.calendars.len() == 0 && data.events.len() == 0 && data.tasklists.len() == 0
        && data.tasks.len() == 0
}

/// Decides [`all_failed`].
pub fn is_offline(nothing: &Vec<bool>) -> (r: bool)
    ensures
        r == all_failed(nothing@),
{
    let mut i: usize = 0;
    while i < nothing.len()
        invariant
            i <= nothing@.len(),
            forall|j: int| 0 <= j < i ==> nothing@[j],
        decreases nothing.len() - i,
    {
        if !nothing[i] {
            return false;
        }
        i += 1;
    }
    true
}

/// What the reminders are remembered by.
fn keys_of(due: &Vec<Reminder>) -> (r: TextSet)
    ensures
        r@ == due_keys(due.deep_view()),
{
    let ghost all = due.deep_view();
    let mut out = TextSet::new();
    let mut i: usize = 0;
    while i < due.len()
        invariant
            i <= due@.len(),
            all == due.deep_view(),
            out@ == due_keys(all.take(i as int)),
        decreases due.len() - i,
    {
        assert(all.take(i + 1).drop_last() == all.take(i as int));
        assert(all.take(i + 1).last() == due@[i as int].deep_view());
        out.insert(due[i].key.clone());
        i += 1;
    }
    assert(all.take(i as int) == all);
    out
}

/// One poll at a given moment: what to show, and what is remembered. `snaps` is
/// what was fetched, `nothing` says of each account whether its fetch gave
/// nothing, and `errors` is how many errors there were.
pub fn tick(
    cfg: &Config,
    live: bool,
    state: &mut State,
    snaps: &Vec<Snapshot>,
    nothing: &Vec<bool>,
    errors: usize,
    now: Moment,
) -> (r: Poll)
    requires
        now.valid(),
        now.local_date().valid(),
        now.at().can_step(MEMORY_SECS as int),
        snapshots_wf(snaps.deep_view()),
        all_failed(nothing@) || reminders_in_range(
            all_events(snaps.deep_view()),
            cfg.default_reminder_mins,
            now,
        ),
    ensures
        if all_failed(nothing@) {
            r is Offline && final(state)@ == old(state)@
        } else {
            &&& r matches Poll::Notices(notices) && notices.deep_view() == poll_notices(
                old(state)@,
                snaps.deep_view(),
                rules(*cfg, live),
                now,
            )
            &&& final(state)@ == poll_state(
                old(state)@,
                snaps.deep_view(),
                rules(*cfg, live),
                now,
                errors == 0,
            )
        },
{
    if is_offline(nothing) {
        return Poll::Offline;
    }
    let today = now.date();
    let mut due = due_event_reminders(snaps, cfg.default_reminder_mins, now);
    add_task_reminders(snaps, today, now, &mut due);
    let looked_at = keys_of(&due);
    let mut notices = show(due, &mut state.notified);
    let seeding = !state.tasks_seeded;
    note_tasks(snaps, today, !seeding && live, &mut state.seen_tasks, &mut notices);
    if seeding && errors == 0 {
        state.tasks_seeded = true;
    }
    if is_digest_due(&cfg.task_digest_time, state.digest_date, today, now) {
        add_digest(snaps, today, &mut notices);
        state.digest_date = Some(today);
    } else {
        assert(notices.deep_view() + Seq::<NoticeView>::empty() == notices.deep_view());
    }
    let cutoff = now.instant().minus(MEMORY_SECS);
    state.notified.retain_later(cutoff, &looked_at);
    Poll::Notices(notices)
}

/// Days before today from which on events are fetched.
pub const DAYS_BACK: i32 = 7;

/// Days after today up to which events are fetched.
pub const DAYS_AHEAD: i32 = 45;

/// The days over which a poll fetches; none where chrono does not represent
/// them.
pub fn poll_window(now: Moment) -> (r: Option<(Date, Date)>)
    requires
        now.valid(),
    ensures
        match r {
            Some((from, to)) => from.valid() && to.valid() && from.days == now.local_days()
                - DAYS_BACK && to.days == now.local_days() + DAYS_AHEAD,
            None => now.local_days() - DAYS_BACK < time::MIN_DAYS || now.local_days() + DAYS_AHEAD
                > time::MAX_DAYS,
        },
        r matches Some((from, to)) ==> {
            &&& from.days == (now.secs + now.offset) / 86_400 + 719_163 - 7
            &&& to.days == (now.secs + now.offset) / 86_400 + 719_163 + 45
        },
{
    let today = now.date();
    if today.days - DAYS_BACK >= time::MIN_DAYS && today.days + DAYS_AHEAD <= time::MAX_DAYS {
        Some((today.plus(-DAYS_BACK), today.plus(DAYS_AHEAD)))
    } else {
        None
    }
}

/// The moment at which a poll starts.
pub fn poll_start() -> (r: Moment)
    ensures
        r.valid(),
{
    time::local_now()
}

/// The least number of seconds between two polls.
pub const MIN_POLL_SECS: u64 = 30;

/// Seconds until the next poll.
pub fn poll_pause(cfg: &Config) -> (r: u64)
    ensures
        r == if cfg.poll_interval_secs < MIN_POLL_SECS {
            MIN_POLL_SECS
        } else {
            cfg.poll_interval_secs
        },
        r >= 30,
        cfg.poll_interval_secs >= 30 ==> r == cfg.poll_interval_secs,
        cfg.poll_interval_secs < 30 ==> r == 30,
{
    if cfg.poll_interval_secs < MIN_POLL_SECS {
        MIN_POLL_SECS
    } else {
        cfg.poll_interval_secs
    }
}

/// The arguments that show a notification: it stays until it is dismissed, and
/// with an address it offers to open it.
pub open spec fn notify_args(n: NoticeView) -> Seq<Seq<char>> {
    seq!["-a"@, "waycal"@, "-i"@, "x-office-calendar"@, "-t"@, "0"@] + (if n.open_url is Some {
        seq!["-A"@, "default=Open Meet"@]
    } else {
        Seq::empty()
    }) + seq![n.summary, n.body]
}

/// The arguments that show a notification.
pub fn notify(n: &Notice) -> (r: Vec<String>)
    ensures
        r.deep_view() == notify_args(n.deep_view()),
{
    let mut out: Vec<String> = Vec::new();
    out.push("-a".to_owned());
    out.push("waycal".to_owned());
    out.push("-i".to_owned());
    out.push("x-office-calendar".to_owned());
    out.push("-t".to_owned());
    out.push("0".to_owned());
    if n.open_url.is_some() {
        out.push("-A".to_owned());
        out.push("default=Open Meet".to_owned());
    }
    out.push(n.summary.clone());
    out.push(n.body.clone());
    assert(out.deep_view() == notify_args(n.deep_view()));
    out
}

/// ASCII white space.
pub open spec fn ascii_white(c: char) -> bool {
    c == ' ' || c == '\t' || c == '\n' || c == '\r' || c == '\u{c}'
}

/// `s` without ASCII white space at either end.
pub open spec fn ascii_trimmed(s: Seq<char>) -> Seq<char>
    decreases s.len(),
{
    if s.len() > 0 && ascii_white(s[0]) {
        ascii_trimmed(s.drop_first())
    } else if s.len() > 0 && ascii_white(s.last()) {
        ascii_trimmed(s.drop_last())
    } else {
        s
    }
}

fn is_ascii_white(c: char) -> (r: bool)
    ensures
        r == ascii_white(c),
{
    c == ' ' || c == '\t' || c == '\n' || c == '\r' || c == '\u{c}'
}

/// Whether the user took the offer to open the address: what was written says
/// `default` and nothing else.
pub fn is_open_chosen(written: &str) -> (r: bool)
    ensures
        r == (ascii_trimmed(written@) == "default"@),
{
    let cs = text::chars_of(written);
    let mut a: usize = 0;
    let mut b: usize = cs.len();
    assert(cs@.subrange(0, b as int) == written@);
    while a < b && is_ascii_white(cs[a])
        invariant
            a <= b == cs@.len(),
            ascii_trimmed(written@) == ascii_trimmed(cs@.subrange(a as int, b as int)),
        decreases b - a,
    {
        assert(cs@.subrange(a as int, b as int).drop_first() == cs@.subrange(a + 1, b as int));
        a += 1;
    }
    while a < b && is_ascii_white(cs[b - 1])
        invariant
            a <= b <= cs@.len(),
            a < b ==> !ascii_white(cs@[a as int]),
            ascii_trimmed(written@) == ascii_trimmed(cs@.subrange(a as int, b as int)),
        decreases b - a,
    {
        let ghost w = cs@.subrange(a as int, b as int);
        assert(w[0] == cs@[a as int]);
        assert(w.drop_last() == cs@.subrange(a as int, b - 1));
        b -= 1;
    }
    let word = text::string_of(&cs, a, b);
    text::same(word.as_str(), "default")
}

// ---------------------------------------------------------------------
// Laws
// ---------------------------------------------------------------------

pub proof fn lemma_remembered(due: Seq<ReminderView>, notified: Map<Seq<char>, Instant>)
    ensures
        forall|k: Seq<char>| #[trigger]
            notified.contains_key(k) ==> remembered(due, notified).contains_key(k) && remembered(
                due,
                notified,
            )[k] == notified[k],
        forall|i: int|
            0 <= i < due.len() ==> remembered(due, notified).contains_key(
                (#[trigger] due[i]).key,
            ),
    decreases due.len(),
{
    if due.len() > 0 {
        let front = due.drop_last();
        lemma_remembered(front, notified);
        assert forall|i: int| 0 <= i < due.len() implies remembered(due, notified).contains_key(
            (#[trigger] due[i]).key,
        ) by {
            if i < front.len() {
                assert(front[i] == due[i]);
            }
        }
    }
}

/// A reminder that has been shown is not shown again: where every reminder is
/// remembered, none is shown and nothing changes.
pub proof fn law_remembered_reminders_stay_silent(
    due: Seq<ReminderView>,
    notified: Map<Seq<char>, Instant>,
)
    requires
        forall|i: int| 0 <= i < due.len() ==> notified.contains_key((#[trigger] due[i]).key),
    ensures
        shown(due, notified) == Seq::<NoticeView>::empty(),
        remembered(due, notified) == notified,
    decreases due.len(),
{
    if due.len() > 0 {
        let front = due.drop_last();
        assert forall|i: int| 0 <= i < front.len() implies notified.contains_key(
            (#[trigger] front[i]).key,
        ) by {
            assert(front[i] == due[i]);
        }
        law_remembered_reminders_stay_silent(front, notified);
        assert(notified.contains_key(due[due.len() - 1].key));
    }
}

/// Showing the same reminders a second time shows none.
pub proof fn law_reminders_are_shown_once(
    due: Seq<ReminderView>,
    notified: Map<Seq<char>, Instant>,
)
    ensures
        shown(due, remembered(due, notified)) == Seq::<NoticeView>::empty(),
        remembered(due, remembered(due, notified)) == remembered(due, notified),
{
    lemma_remembered(due, notified);
    law_remembered_reminders_stay_silent(due, remembered(due, notified));
}

/// The keys of reminders are those that some reminder has.
pub proof fn lemma_due_keys(due: Seq<ReminderView>)
    ensures
        forall|k: Seq<char>| #[trigger]
            due_keys(due).contains(k) <==> exists|i: int|
                0 <= i < due.len() && (#[trigger] due[i]).key == k,
    decreases due.len(),
{
    if due.len() > 0 {
        let front = due.drop_last();
        lemma_due_keys(front);
        assert forall|k: Seq<char>| #[trigger] due_keys(due).contains(k) <==> exists|i: int|
            0 <= i < due.len() && (#[trigger] due[i]).key == k by {
            if due_keys(front).contains(k) {
                let i = choose|i: int| 0 <= i < front.len() && (#[trigger] front[i]).key == k;
                assert(due[i].key == k);
            }
            if exists|i: int| 0 <= i < due.len() && (#[trigger] due[i]).key == k {
                let i = choose|i: int| 0 <= i < due.len() && (#[trigger] due[i]).key == k;
                if i < front.len() {
                    assert(front[i].key == k);
                }
            }
            assert(due[due.len() - 1].key == due.last().key);
        }
    }
}

/// A poll remembers every reminder that it looks at, however long ago it was due.
pub proof fn law_poll_remembers_reminders(
    s: StateView,
    snaps: Seq<SnapshotView>,
    r: Rules,
    now: Moment,
    clean: bool,
)
    ensures
        forall|i: int|
            0 <= i < all_due(snaps, r, now).len() ==> poll_state(
                s,
                snaps,
                r,
                now,
                clean,
            ).notified.contains_key((#[trigger] all_due(snaps, r, now)[i]).key),
{
    lemma_remembered(all_due(snaps, r, now), s.notified);
    lemma_due_keys(all_due(snaps, r, now));
}

/// A poll forgets: everything it remembers was due within the last two days, or
/// is a reminder that it looked at.
pub proof fn law_poll_forgets_after_two_days(
    s: StateView,
    snaps: Seq<SnapshotView>,
    r: Rules,
    now: Moment,
    clean: bool,
    key: Seq<char>,
)
    requires
        poll_state(s, snaps, r, now, clean).notified.contains_key(key),
    ensures
        now.at().earlier(MEMORY_SECS as int).before(
            poll_state(s, snaps, r, now, clean).notified[key],
        ) || exists|i: int|
            0 <= i < all_due(snaps, r, now).len() && (#[trigger] all_due(snaps, r, now)[i]).key
                == key,
{
    lemma_due_keys(all_due(snaps, r, now));
}

/// The reminders that are not remembered yet.
pub open spec fn unremembered(
    due: Seq<ReminderView>,
    notified: Map<Seq<char>, Instant>,
) -> Seq<ReminderView>
    decreases due.len(),
{
    if due.len() == 0 {
        Seq::empty()
    } else if notified.contains_key(due.last().key) {
        unremembered(due.drop_last(), notified)
    } else {
        unremembered(due.drop_last(), notified).push(due.last())
    }
}

proof fn lemma_unremembered(due: Seq<ReminderView>, notified: Map<Seq<char>, Instant>)
    ensures
        shown(due, notified) == shown(unremembered(due, notified), notified),
        remembered(due, notified) == remembered(unremembered(due, notified), notified),
        forall|i: int|
            0 <= i < unremembered(due, notified).len() ==> !notified.contains_key(
                (#[trigger] unremembered(due, notified)[i]).key,
            ),
    decreases due.len(),
{
    if due.len() > 0 {
        let front = due.drop_last();
        lemma_unremembered(front, notified);
        lemma_remembered(front, notified);
        let rest = unremembered(front, notified);
        if !notified.contains_key(due.last().key) {
            assert(rest.push(due.last()).drop_last() == rest);
        }
    }
}

/// A reminder is shown once, however long ago it was due: what a later poll shows
/// comes from reminders that the poll before did not look at. `due` is what the
/// later poll finds due.
pub proof fn law_reminder_is_shown_in_one_poll(
    s: StateView,
    snaps: Seq<SnapshotView>,
    r: Rules,
    now: Moment,
    clean: bool,
    due: Seq<ReminderView>,
)
    ensures
        ({
            let after = poll_state(s, snaps, r, now, clean).notified;
            let fresh = unremembered(due, after);
            &&& shown(due, after) == shown(fresh, after)
            &&& forall|i: int, j: int|
                0 <= i < fresh.len() && 0 <= j < all_due(snaps, r, now).len() ==> (
                #[trigger] fresh[i]).key != (#[trigger] all_due(snaps, r, now)[j]).key
        }),
{
    let after = poll_state(s, snaps, r, now, clean).notified;
    law_poll_remembers_reminders(s, snaps, r, now, clean);
    lemma_unremembered(due, after);
}

/// A second poll that finds due only what the first looked at shows no reminder,
/// however long ago these were due.
pub proof fn law_second_poll_shows_no_reminder_again(
    s: StateView,
    snaps: Seq<SnapshotView>,
    r: Rules,
    now: Moment,
    clean: bool,
    later_snaps: Seq<SnapshotView>,
    later_rules: Rules,
    later: Moment,
)
    requires
        forall|i: int|
            0 <= i < all_due(later_snaps, later_rules, later).len() ==> due_keys(
                all_due(snaps, r, now),
            ).contains((#[trigger] all_due(later_snaps, later_rules, later)[i]).key),
    ensures
        shown(
            all_due(later_snaps, later_rules, later),
            poll_state(s, snaps, r, now, clean).notified,
        ) == Seq::<NoticeView>::empty(),
{
    let first = all_due(snaps, r, now);
    let second = all_due(later_snaps, later_rules, later);
    let after = poll_state(s, snaps, r, now, clean).notified;
    law_poll_remembers_reminders(s, snaps, r, now, clean);
    lemma_due_keys(first);
    assert forall|i: int| 0 <= i < second.len() implies after.contains_key(
        (#[trigger] second[i]).key,
    ) by {
        let j = choose|j: int| 0 <= j < first.len() && (#[trigger] first[j]).key == second[i].key;
        assert(after.contains_key(first[j].key));
    }
    law_remembered_reminders_stay_silent(second, after);
}

/// A reminder that is not remembered, and that none of its key comes before, is
/// shown.
pub proof fn law_new_reminder_is_shown(
    due: Seq<ReminderView>,
    notified: Map<Seq<char>, Instant>,
    k: int,
)
    requires
        0 <= k < due.len(),
        !notified.contains_key(due[k].key),
        forall|i: int| 0 <= i < k ==> (#[trigger] due[i]).key != due[k].key,
    ensures
        shown(due, notified).contains(due[k].notice),
    decreases due.len(),
{
    let front = due.drop_last();
    let all = shown(due, notified);
    let rest = shown(front, notified);
    if k == due.len() - 1 {
        lemma_unseen_key(front, notified, due[k].key);
        assert(all[rest.len() as int] == due[k].notice);
    } else {
        law_new_reminder_is_shown(front, notified, k);
        let i = choose|i: int| 0 <= i < rest.len() && rest[i] == due[k].notice;
        assert(all[i] == rest[i]);
    }
}

/// A key that was not remembered and that no reminder has stays so.
pub proof fn lemma_unseen_key(
    due: Seq<ReminderView>,
    notified: Map<Seq<char>, Instant>,
    key: Seq<char>,
)
    requires
        !notified.contains_key(key),
        forall|i: int| 0 <= i < due.len() ==> (#[trigger] due[i]).key != key,
    ensures
        !remembered(due, notified).contains_key(key),
    decreases due.len(),
{
    if due.len() > 0 {
        lemma_unseen_key(due.drop_last(), notified, key);
        assert(due[due.len() - 1].key != key);
    }
}

proof fn lemma_ids_seen(tasks: Seq<DueTaskView>, seen: Set<Seq<char>>)
    ensures
        forall|id: Seq<char>| #[trigger]
            seen.contains(id) ==> ids_seen(tasks, seen).contains(id),
        forall|i: int|
            0 <= i < tasks.len() ==> ids_seen(tasks, seen).contains((#[trigger] tasks[i]).id),
    decreases tasks.len(),
{
    if tasks.len() > 0 {
        let front = tasks.drop_last();
        lemma_ids_seen(front, seen);
        assert forall|i: int| 0 <= i < tasks.len() implies ids_seen(tasks, seen).contains(
            (#[trigger] tasks[i]).id,
        ) by {
            if i < front.len() {
                assert(front[i] == tasks[i]);
            }
        }
    }
}

/// The ids that have been seen only grow, and those of this poll are among them.
pub proof fn law_seen_tasks_only_grow(
    s: StateView,
    snaps: Seq<SnapshotView>,
    r: Rules,
    now: Moment,
    clean: bool,
)
    ensures
        s.seen_tasks.subset_of(poll_state(s, snaps, r, now, clean).seen_tasks),
        forall|i: int|
            0 <= i < all_tasks(snaps).len() ==> poll_state(
                s,
                snaps,
                r,
                now,
                clean,
            ).seen_tasks.contains((#[trigger] all_tasks(snaps)[i]).id),
{
    lemma_ids_seen(all_tasks(snaps), s.seen_tasks);
}

/// No heads-up is given about tasks whose ids have been seen.
pub proof fn law_seen_tasks_are_not_announced(
    tasks: Seq<DueTaskView>,
    seen: Set<Seq<char>>,
    today: Date,
)
    requires
        forall|i: int| 0 <= i < tasks.len() ==> seen.contains((#[trigger] tasks[i]).id),
    ensures
        live_notices(tasks, seen, today) == Seq::<NoticeView>::empty(),
    decreases tasks.len(),
{
    if tasks.len() > 0 {
        let front = tasks.drop_last();
        assert forall|i: int| 0 <= i < front.len() implies seen.contains((#[trigger] front[i]).id) by {
            assert(front[i] == tasks[i]);
        }
        law_seen_tasks_are_not_announced(front, seen, today);
        lemma_ids_seen(front, seen);
        assert(seen.contains(tasks[tasks.len() - 1].id));
    }
}

/// A task that shows up new, open and to be done today is announced.
pub proof fn law_new_due_task_is_announced(
    tasks: Seq<DueTaskView>,
    seen: Set<Seq<char>>,
    today: Date,
    k: int,
)
    requires
        0 <= k < tasks.len(),
        !seen.contains(tasks[k].id),
        forall|i: int| 0 <= i < k ==> (#[trigger] tasks[i]).id != tasks[k].id,
        !tasks[k].completed,
        due_today(tasks[k], today),
    ensures
        live_notices(tasks, seen, today).contains(live_notice(tasks[k], today)),
    decreases tasks.len(),
{
    let front = tasks.drop_last();
    let all = live_notices(tasks, seen, today);
    let rest = live_notices(front, seen, today);
    if k == tasks.len() - 1 {
        lemma_id_unseen(front, seen, tasks[k].id);
        assert(all[rest.len() as int] == live_notice(tasks[k], today));
    } else {
        law_new_due_task_is_announced(front, seen, today, k);
        let i = choose|i: int| 0 <= i < rest.len() && rest[i] == live_notice(tasks[k], today);
        assert(all[i] == rest[i]);
    }
}

/// An id that was not seen and is none of the tasks' stays unseen.
proof fn lemma_id_unseen(tasks: Seq<DueTaskView>, seen: Set<Seq<char>>, id: Seq<char>)
    requires
        !seen.contains(id),
        forall|i: int| 0 <= i < tasks.len() ==> (#[trigger] tasks[i]).id != id,
    ensures
        !ids_seen(tasks, seen).contains(id),
    decreases tasks.len(),
{
    if tasks.len() > 0 {
        lemma_id_unseen(tasks.drop_last(), seen, id);
        assert(tasks[tasks.len() - 1].id != id);
    }
}

/// Until the tasks that were there before are known, no heads-up is given: the
/// poll shows what it shows without any.
pub proof fn law_seeding_is_silent(
    s: StateView,
    snaps: Seq<SnapshotView>,
    r: Rules,
    now: Moment,
)
    requires
        !s.tasks_seeded,
    ensures
        poll_notices(s, snaps, r, now) == poll_notices(
            s,
            snaps,
            Rules { fallback: r.fallback, digest_time: r.digest_time, live: false },
            now,
        ),
{
}

/// Seeding ends with the first poll without errors, and with no other; once it
/// has ended it stays so.
pub proof fn law_seeding_ends_on_a_clean_poll(
    s: StateView,
    snaps: Seq<SnapshotView>,
    r: Rules,
    now: Moment,
    clean: bool,
)
    ensures
        poll_state(s, snaps, r, now, clean).tasks_seeded == (s.tasks_seeded || clean),
{
}

/// The digest comes once a day: after a poll that found it due, a poll on the
/// same day does not.
pub proof fn law_digest_comes_once_a_day(
    s: StateView,
    snaps: Seq<SnapshotView>,
    r: Rules,
    now: Moment,
    later: Moment,
    clean: bool,
)
    requires
        digest_is_due(r.digest_time, s.digest_date, now.local_date(), now),
        later.local_date() == now.local_date(),
    ensures
        !digest_is_due(
            r.digest_time,
            poll_state(s, snaps, r, now, clean).digest_date,
            later.local_date(),
            later,
        ),
{
}

proof fn lemma_put_task_keeps(tasks: Seq<DueTaskView>, t: DueTaskView)
    ensures
        put_task(tasks, t).len() == tasks.len() + 1,
        forall|i: int|
            0 <= i < put_task(tasks, t).len() ==> #[trigger] put_task(tasks, t)[i] == t
                || tasks.contains(put_task(tasks, t)[i]),
    decreases tasks.len(),
{
    let r = put_task(tasks, t);
    if tasks.len() == 0 || !digest_before(t, tasks.last()) {
        assert forall|i: int| 0 <= i < r.len() implies #[trigger] r[i] == t || tasks.contains(r[i]) by {
            if i < tasks.len() {
                assert(r[i] == tasks[i]);
            }
        }
    } else {
        let front = tasks.drop_last();
        lemma_put_task_keeps(front, t);
        let f = put_task(front, t);
        assert forall|i: int| 0 <= i < r.len() implies #[trigger] r[i] == t || tasks.contains(r[i]) by {
            if i < f.len() {
                assert(r[i] == f[i]);
                if f[i] != t {
                    let k = choose|k: int| 0 <= k < front.len() && front[k] == f[i];
                    assert(tasks[k] == f[i]);
                }
            } else {
                assert(tasks[tasks.len() - 1] == r[i]);
            }
        }
    }
}

/// The digest lists tasks that are open and to be done today, and no others.
pub proof fn law_digest_lists_open_tasks_of_today(tasks: Seq<DueTaskView>, today: Date)
    ensures
        forall|i: int|
            0 <= i < digest_tasks(tasks, today).len() ==> {
                let t = #[trigger] digest_tasks(tasks, today)[i];
                !t.completed && due_today(t, today) && tasks.contains(t)
            },
    decreases tasks.len(),
{
    if tasks.len() > 0 {
        let front = tasks.drop_last();
        let t = tasks.last();
        law_digest_lists_open_tasks_of_today(front, today);
        let rest = digest_tasks(front, today);
        lemma_put_task_keeps(rest, t);
        let all = digest_tasks(tasks, today);
        assert forall|i: int| 0 <= i < all.len() implies {
            let x = #[trigger] all[i];
            !x.completed && due_today(x, today) && tasks.contains(x)
        } by {
            let x = all[i];
            if x == t && !t.completed && due_today(t, today) {
                assert(tasks[tasks.len() - 1] == t);
            } else {
                assert(rest.contains(x));
                let k = choose|k: int| 0 <= k < rest.len() && rest[k] == x;
                assert(rest[k] == x);
                assert(front.contains(x));
                let m = choose|m: int| 0 <= m < front.len() && front[m] == x;
                assert(tasks[m] == x);
            }
        }
    }
}

proof fn lemma_upcoming_ids(events: Seq<(EventView, Seq<CalendarView>)>, now: Moment, i: int)
    requires
        0 <= i < events.len(),
        upcoming(events[i].0, now),
    ensures
        upcoming_ids(events, now).contains(events[i].0.id),
    decreases events.len(),
{
    if i < events.len() - 1 {
        assert(events.drop_last()[i] == events[i]);
        lemma_upcoming_ids(events.drop_last(), now, i);
    }
}

/// An event that accounts share is announced once: where one of its id came
/// before it, it adds no reminder.
pub proof fn law_shared_event_is_announced_once(
    events: Seq<(EventView, Seq<CalendarView>)>,
    fallback: i64,
    now: Moment,
    i: int,
)
    requires
        0 <= i < events.len() - 1,
        upcoming(events[i].0, now),
        events[i].0.id == events.last().0.id,
    ensures
        reminders(events, fallback, now) == reminders(events.drop_last(), fallback, now),
{
    assert(events.drop_last()[i] == events[i]);
    lemma_upcoming_ids(events.drop_last(), now, i);
    let r = reminders(events.drop_last(), fallback, now);
    assert(r + Seq::<ReminderView>::empty() == r);
}

/// An event that has begun is not announced.
pub proof fn law_past_event_is_not_announced(
    events: Seq<(EventView, Seq<CalendarView>)>,
    fallback: i64,
    now: Moment,
)
    requires
        events.len() > 0,
        !upcoming(events.last().0, now),
    ensures
        reminders(events, fallback, now) == reminders(events.drop_last(), fallback, now),
{
    let r = reminders(events.drop_last(), fallback, now);
    assert(r + Seq::<ReminderView>::empty() == r);
}

/// Whether no task comes before one that stands in front of it.
pub open spec fn in_digest_order(tasks: Seq<DueTaskView>) -> bool {
    forall|i: int, j: int|
        0 <= i < j < tasks.len() ==> !digest_before(#[trigger] tasks[j], #[trigger] tasks[i])
}

proof fn lemma_digest_chain(t: DueTaskView, x: DueTaskView, last: DueTaskView)
    requires
        digest_before(t, x),
        !digest_before(last, x),
    ensures
        digest_before(t, last),
{
    text::lemma_text_lt_total(x.title, last.title);
    if text::text_lt(t.title, x.title) && text::text_lt(x.title, last.title) {
        text::lemma_text_lt_transitive(t.title, x.title, last.title);
    }
}

proof fn lemma_digest_asymmetric(a: DueTaskView, b: DueTaskView)
    requires
        digest_before(a, b),
    ensures
        !digest_before(b, a),
{
    if text::text_lt(a.title, b.title) && text::text_lt(b.title, a.title) {
        text::lemma_text_lt_transitive(a.title, b.title, a.title);
        text::lemma_text_lt_irreflexive(a.title);
    }
}

proof fn lemma_put_task_orders(tasks: Seq<DueTaskView>, t: DueTaskView)
    requires
        in_digest_order(tasks),
    ensures
        in_digest_order(put_task(tasks, t)),
    decreases tasks.len(),
{
    let r = put_task(tasks, t);
    if tasks.len() == 0 || !digest_before(t, tasks.last()) {
        assert forall|i: int, j: int| 0 <= i < j < r.len() implies !digest_before(
            #[trigger] r[j],
            #[trigger] r[i],
        ) by {
            if j == tasks.len() && digest_before(t, tasks[i]) {
                if i < tasks.len() - 1 {
                    assert(!digest_before(tasks[tasks.len() - 1], tasks[i]));
                    lemma_digest_chain(t, tasks[i], tasks.last());
                }
            }
        }
    } else {
        let front = tasks.drop_last();
        let last = tasks.last();
        assert forall|i: int, j: int| 0 <= i < j < front.len() implies !digest_before(
            #[trigger] front[j],
            #[trigger] front[i],
        ) by {
            assert(!digest_before(tasks[j], tasks[i]));
        }
        lemma_put_task_orders(front, t);
        lemma_put_task_keeps(front, t);
        let f = put_task(front, t);
        assert forall|i: int, j: int| 0 <= i < j < r.len() implies !digest_before(
            #[trigger] r[j],
            #[trigger] r[i],
        ) by {
            if j == f.len() {
                assert(r[i] == f[i]);
                if f[i] == t {
                    lemma_digest_asymmetric(t, last);
                } else {
                    let k = choose|k: int| 0 <= k < front.len() && front[k] == f[i];
                    assert(!digest_before(tasks[tasks.len() - 1], tasks[k]));
                }
            } else {
                assert(r[i] == f[i] && r[j] == f[j]);
            }
        }
    }
}

/// The digest lists its tasks by due day and then by title.
pub proof fn law_digest_is_in_order(tasks: Seq<DueTaskView>, today: Date)
    ensures
        in_digest_order(digest_tasks(tasks, today)),
    decreases tasks.len(),
{
    if tasks.len() > 0 {
        law_digest_is_in_order(tasks.drop_last(), today);
        lemma_put_task_orders(digest_tasks(tasks.drop_last(), today), tasks.last());
    }
}

} // verus!
