//! What every provider shares: the data of an account and the drafts of events
//! and tasks.

use vstd::prelude::*;

use crate::caldav::NextcloudBackend;
use crate::config::{Account, Provider};
use crate::gws::GoogleBackend;
use crate::model::{Calendar, CalendarView, Event, EventView, Task, TaskList, TaskListView, TaskView};
use crate::time;
use crate::time::{Date, Moment};

verus! {

/// Everything shown for one account.
#[derive(Clone, Debug)]
pub struct AccountData {
    pub calendars: Vec<Calendar>,
    pub events: Vec<Event>,
    pub tasklists: Vec<TaskList>,
    pub tasks: Vec<Task>,
}

/// Event fields for create and edit.
#[derive(Debug)]
pub struct EventDraft {
    pub summary: String,
    pub location: String,
    pub description: String,
    pub all_day: bool,
    pub start_date: Date,
    /// Inclusive, as in an event.
    pub end_date: Date,
    pub start_time: Option<Moment>,
    pub end_time: Option<Moment>,
    /// Guest addresses. On edit they replace the whole guest list (none clears
    /// it); on create they apply only where there are any.
    pub attendees: Vec<String>,
    pub add_meet: bool,
}

/// Task fields for create and edit.
#[derive(Debug)]
pub struct TaskDraft {
    pub title: String,
    /// Empty means no notes.
    pub notes: String,
    pub due: Option<Date>,
}

/// The model of an [`AccountData`].
#[verifier::ext_equal]
pub struct AccountDataView {
    pub calendars: Seq<CalendarView>,
    pub events: Seq<EventView>,
    pub tasklists: Seq<TaskListView>,
    pub tasks: Seq<TaskView>,
}

/// The model of an [`EventDraft`].
#[verifier::ext_equal]
pub struct EventDraftView {
    pub summary: Seq<char>,
    pub location: Seq<char>,
    pub description: Seq<char>,
    pub all_day: bool,
    pub start_date: Date,
    pub end_date: Date,
    pub start_time: Option<Moment>,
    pub end_time: Option<Moment>,
    pub attendees: Seq<Seq<char>>,
    pub add_meet: bool,
}

/// The model of a [`TaskDraft`].
#[verifier::ext_equal]
pub struct TaskDraftView {
    pub title: Seq<char>,
    pub notes: Seq<char>,
    pub due: Option<Date>,
}

impl DeepView for AccountData {
    type V = AccountDataView;

    open spec fn deep_view(&self) -> AccountDataView {
        AccountDataView {
            calendars: self.calendars.deep_view(),
            events: self.events.deep_view(),
            tasklists: self.tasklists.deep_view(),
            tasks: self.tasks.deep_view(),
        }
    }
}

impl DeepView for EventDraft {
    type V = EventDraftView;

    open spec fn deep_view(&self) -> EventDraftView {
        EventDraftView {
            summary: self.summary@,
            location: self.location@,
            description: self.description@,
            all_day: self.all_day,
            start_date: self.start_date,
            end_date: self.end_date,
            start_time: self.start_time,
            end_time: self.end_time,
            attendees: self.attendees.deep_view(),
            add_meet: self.add_meet,
        }
    }
}

impl DeepView for TaskDraft {
    type V = TaskDraftView;

    open spec fn deep_view(&self) -> TaskDraftView {
        TaskDraftView { title: self.title@, notes: self.notes@, due: self.due }
    }
}

impl EventDraftView {
    /// Whether the draft can be written: an all-day draft has a day behind its
    /// last one, a timed draft has a start and an end.
    pub open spec fn ready(self) -> bool {
        if self.all_day {
            self.start_date.valid() && self.end_date.valid() && self.end_date.days < time::MAX_DAYS
        } else {
            &&& self.start_time matches Some(m) && m.valid()
            &&& self.end_time matches Some(m) && m.valid()
        }
    }
}

impl TaskDraftView {
    /// Whether the draft can be written.
    pub open spec fn ready(self) -> bool {
        self.due matches Some(d) ==> d.valid()
    }
}

/// Whether chrono represents the moment.
pub fn is_valid_moment(m: Moment) -> (r: bool)
    ensures
        r == m.valid(),
{
    time::MIN_SECS <= m.secs && m.secs <= time::MAX_SECS && m.nanos < 2_000_000_000 && -86_400
        < m.offset && m.offset < 86_400
}

/// Whether chrono represents the day.
pub fn is_valid_date(d: Date) -> (r: bool)
    ensures
        r == d.valid(),
{
    time::MIN_DAYS <= d.days && d.days <= time::MAX_DAYS
}

impl EventDraft {
    /// Whether the draft can be written.
    pub fn is_ready(&self) -> (r: bool)
        ensures
            r == self.deep_view().ready(),
    {
        if self.all_day {
            is_valid_date(self.start_date) && is_valid_date(self.end_date) && self.end_date.days
                < time::MAX_DAYS
        } else {
            match (self.start_time, self.end_time) {
                (Some(s), Some(e)) => is_valid_moment(s) && is_valid_moment(e),
                _ => false,
            }
        }
    }
}

impl TaskDraft {
    /// Whether the draft can be written.
    pub fn is_ready(&self) -> (r: bool)
        ensures
            r == self.deep_view().ready(),
    {
        match self.due {
            Some(d) => is_valid_date(d),
            None => true,
        }
    }
}

/// Whether all events are well-formed.
pub open spec fn events_wf(events: Seq<EventView>) -> bool {
    forall|i: int| 0 <= i < events.len() ==> (#[trigger] events[i]).wf()
}

/// The values among options, in order.
pub open spec fn present(results: Seq<Option<EventView>>) -> Seq<EventView> {
    results.filter_map(|r: Option<EventView>| r)
}

/// The events of lists, one list after the other.
pub open spec fn all_of(parts: Seq<Seq<EventView>>) -> Seq<EventView>
    decreases parts.len(),
{
    if parts.len() == 0 {
        Seq::empty()
    } else {
        all_of(parts.drop_last()) + parts.last()
    }
}

/// No data.
pub open spec fn no_data() -> AccountDataView {
    AccountDataView {
        calendars: Seq::empty(),
        events: Seq::empty(),
        tasklists: Seq::empty(),
        tasks: Seq::empty(),
    }
}

impl Default for AccountData {
    fn default() -> (r: Self)
        ensures
            r.deep_view() == no_data(),
    {
        let r = AccountData {
            calendars: Vec::new(),
            events: Vec::new(),
            tasklists: Vec::new(),
            tasks: Vec::new(),
        };
        assert(r.deep_view() =~= no_data());
        r
    }
}

/// The backend of an account.
#[derive(Debug)]
pub enum AnyBackend {
    Google(GoogleBackend),
    Nextcloud(NextcloudBackend),
}

/// Picks the backend for an account.
pub fn for_account(account: &Account) -> (r: AnyBackend)
    ensures
        r == match account.provider {
            Provider::Google => AnyBackend::Google(GoogleBackend),
            Provider::Nextcloud => AnyBackend::Nextcloud(NextcloudBackend),
        },
{
    match account.provider {
        Provider::Google => AnyBackend::Google(GoogleBackend),
        Provider::Nextcloud => AnyBackend::Nextcloud(NextcloudBackend),
    }
}

// ---------------------------------------------------------------------
// Events in order
// ---------------------------------------------------------------------

/// Whether a start time comes before another; no time comes before any.
pub open spec fn time_before(a: Option<Moment>, b: Option<Moment>) -> bool {
    match (a, b) {
        (Some(x), Some(y)) => x.at().before(y.at()),
        (None, Some(_)) => true,
        _ => false,
    }
}

/// Whether an event starts before another: on an earlier day, or on the same day
/// at an earlier time.
pub open spec fn starts_before(a: EventView, b: EventView) -> bool {
    a.start_date.days < b.start_date.days || (a.start_date.days == b.start_date.days
        && time_before(a.start_time, b.start_time))
}

/// An event put behind those that do not start after it.
pub open spec fn put_event(events: Seq<EventView>, e: EventView) -> Seq<EventView>
    decreases events.len(),
{
    if events.len() == 0 || !starts_before(e, events.last()) {
        events.push(e)
    } else {
        put_event(events.drop_last(), e).push(events.last())
    }
}

/// Events by start, those that start together in the order they came in.
pub open spec fn by_start(events: Seq<EventView>) -> Seq<EventView>
    decreases events.len(),
{
    if events.len() == 0 {
        Seq::empty()
    } else {
        put_event(by_start(events.drop_last()), events.last())
    }
}

/// Decides [`starts_before`].
fn is_before(a: &Event, b: &Event) -> (r: bool)
    ensures
        r == starts_before(a.deep_view(), b.deep_view()),
{
    if a.start_date.days != b.start_date.days {
        return a.start_date.days < b.start_date.days;
    }
    match (a.start_time, b.start_time) {
        (Some(x), Some(y)) => x.instant().is_before(y.instant()),
        (None, Some(_)) => true,
        _ => false,
    }
}

proof fn lemma_put_event(events: Seq<EventView>, e: EventView, k: int)
    requires
        0 <= k <= events.len(),
        forall|j: int| k <= j < events.len() ==> starts_before(e, #[trigger] events[j]),
        k > 0 ==> !starts_before(e, events[k - 1]),
    ensures
        put_event(events, e) == events.insert(k, e),
    decreases events.len(),
{
    if k < events.len() {
        assert(starts_before(e, events[events.len() - 1]));
        lemma_put_event(events.drop_last(), e, k);
        assert(events.drop_last().insert(k, e).push(events.last()) == events.insert(k, e));
    } else {
        assert(events.insert(k, e) == events.push(e));
    }
}

/// Sorts events by start; those that start together keep their order.
pub fn sort_events(events: Vec<Event>) -> (r: Vec<Event>)
    ensures
        r.deep_view() == by_start(events.deep_view()),
        forall|i: int| 0 <= i < r@.len() ==> events@.contains(#[trigger] r@[i]),
{
    let ghost given = events@;
    let ghost all = events.deep_view();
    let mut events = events;
    let n = events.len();
    let mut out: Vec<Event> = Vec::new();
    let mut i: usize = 0;
    while i < n
        invariant
            i <= n == all.len(),
            n == given.len(),
            events@ == given.skip(i as int),
            all == Seq::new(given.len(), |j: int| given[j].deep_view()),
            out.deep_view() == by_start(all.take(i as int)),
            forall|j: int| 0 <= j < out@.len() ==> given.contains(#[trigger] out@[j]),
        decreases n - i,
    {
        let e = events.remove(0);
        assert(events@ == given.skip(i + 1));
        assert(e == given[i as int]);
        assert(e.deep_view() == all[i as int]);
        let ghost before = out.deep_view();
        let mut k: usize = out.len();
        while k > 0 && is_before(&e, &out[k - 1])
            invariant
                k <= out@.len(),
                before == out.deep_view(),
                forall|j: int|
                    k <= j < before.len() ==> starts_before(e.deep_view(), #[trigger] before[j]),
            decreases k,
        {
            assert(before[k - 1] == out@[k - 1].deep_view());
            k -= 1;
        }
        proof {
            if k > 0 {
                assert(before[k - 1] == out@[k - 1].deep_view());
            }
            lemma_put_event(before, e.deep_view(), k as int);
            assert(all.take(i + 1).drop_last() == all.take(i as int));
            assert(all.take(i + 1).last() == e.deep_view());
        }
        let ghost old_out = out@;
        out.insert(k, e);
        assert(out@ == old_out.insert(k as int, e));
        assert(out.deep_view() == before.insert(k as int, e.deep_view())) by {
            assert forall|j: int| 0 <= j < out@.len() implies out.deep_view()[j] == before.insert(
                k as int,
                e.deep_view(),
            )[j] by {
                if j < k {
                    assert(out@[j] == old_out[j]);
                    assert(before[j] == old_out[j].deep_view());
                } else if j > k {
                    assert(out@[j] == old_out[j - 1]);
                    assert(before[j - 1] == old_out[j - 1].deep_view());
                }
            }
        }
        assert forall|j: int| 0 <= j < out@.len() implies given.contains(#[trigger] out@[j]) by {
            if j < k {
                assert(out@[j] == old_out[j]);
            } else if j > k {
                assert(out@[j] == old_out[j - 1]);
            } else {
                assert(given[i as int] == e);
            }
        }
        i += 1;
    }
    assert(all.take(i as int) == all);
    out
}

/// Whether no event starts before one that stands in front of it.
pub open spec fn in_order(events: Seq<EventView>) -> bool {
    forall|i: int, j: int|
        0 <= i < j < events.len() ==> !starts_before(#[trigger] events[j], #[trigger] events[i])
}

proof fn lemma_put_event_sorts(events: Seq<EventView>, e: EventView)
    requires
        in_order(events),
    ensures
        in_order(put_event(events, e)),
        put_event(events, e).to_multiset() == events.to_multiset().insert(e),
        forall|i: int|
            0 <= i < put_event(events, e).len() ==> #[trigger] put_event(events, e)[i] == e
                || events.contains(put_event(events, e)[i]),
    decreases events.len(),
{
    broadcast use vstd::seq_lib::group_to_multiset_ensures;

    let r = put_event(events, e);
    if events.len() == 0 || !starts_before(e, events.last()) {
        assert forall|i: int, j: int| 0 <= i < j < r.len() implies !starts_before(
            #[trigger] r[j],
            #[trigger] r[i],
        ) by {
            if j == events.len() {
                assert(!starts_before(events.last(), events[i]) || i == events.len() - 1);
            }
        }
        assert forall|i: int| 0 <= i < r.len() implies #[trigger] r[i] == e || events.contains(
            r[i],
        ) by {
            if i < events.len() {
                assert(r[i] == events[i]);
            }
        }
    } else {
        let front = events.drop_last();
        let last = events.last();
        lemma_put_event_sorts(front, e);
        let f = put_event(front, e);
        assert forall|i: int, j: int| 0 <= i < j < r.len() implies !starts_before(
            #[trigger] r[j],
            #[trigger] r[i],
        ) by {
            if j == f.len() {
                if f[i] != e {
                    let k = choose|k: int| 0 <= k < front.len() && front[k] == f[i];
                    assert(events[k] == f[i]);
                }
            }
        }
        assert(events == front.push(last));
        assert forall|i: int| 0 <= i < r.len() implies #[trigger] r[i] == e || events.contains(
            r[i],
        ) by {
            if i < f.len() {
                assert(r[i] == f[i]);
                if f[i] != e {
                    let k = choose|k: int| 0 <= k < front.len() && front[k] == f[i];
                    assert(events[k] == f[i]);
                }
            } else {
                assert(events[events.len() - 1] == r[i]);
            }
        }
    }
}

/// Sorting puts the events in order and neither loses nor invents one.
pub proof fn law_events_are_sorted(events: Seq<EventView>)
    ensures
        in_order(by_start(events)),
        by_start(events).to_multiset() == events.to_multiset(),
    decreases events.len(),
{
    broadcast use vstd::seq_lib::group_to_multiset_ensures;

    if events.len() > 0 {
        law_events_are_sorted(events.drop_last());
        lemma_put_event_sorts(by_start(events.drop_last()), events.last());
        assert(events == events.drop_last().push(events.last()));
    } else {
        assert(events == Seq::<EventView>::empty());
    }
}

/// Data with its events sorted by start.
pub open spec fn sorted_data(data: AccountDataView) -> AccountDataView {
    AccountDataView {
        calendars: data.calendars,
        events: by_start(data.events),
        tasklists: data.tasklists,
        tasks: data.tasks,
    }
}

/// Sorts the events of the data by start.
pub fn sort_data(data: &mut AccountData)
    ensures
        final(data).deep_view() == sorted_data(old(data).deep_view()),
        events_wf(old(data).deep_view().events) ==> events_wf(final(data).deep_view().events),
{
    let ghost before = data.deep_view();
    let mut events: Vec<Event> = Vec::new();
    std::mem::swap(&mut events, &mut data.events);
    let ghost given = events;
    let sorted = sort_events(events);
    proof {
        if events_wf(given.deep_view()) {
            assert forall|i: int| 0 <= i < sorted@.len() implies (#[trigger] sorted.deep_view()[i]).wf() by {
                assert(given@.contains(sorted@[i]));
                let k = choose|k: int| 0 <= k < given@.len() && given@[k] == sorted@[i];
                assert(given.deep_view()[k].wf());
            }
        }
    }
    data.events = sorted;
    assert(data.deep_view() =~= sorted_data(before));
}

} // verus!
