//! Calendars, events and tasks, and how they are read from JSON and iCalendar.

use vstd::prelude::*;

use crate::ical;
use crate::ical::{IcalEvent, IcalTodo, PropertyV, When};
use crate::json::{Json, JsonV};
use crate::json;
use crate::text;
use crate::time;
use crate::time::{Date, Moment};

verus! {

/// A calendar of an account.
#[derive(Clone, Debug)]
pub struct Calendar {
    pub account: String,
    pub id: String,
    pub summary: String,
    pub access_role: String,
    /// Minutes-before values of the calendar's default popup reminders.
    pub default_reminder_mins: Vec<i64>,
    pub primary: bool,
}

/// A guest of an event.
#[derive(Clone, Debug)]
pub struct Attendee {
    pub email: String,
    pub name: Option<String>,
    /// accepted | declined | tentative | needsAction
    pub status: String,
    pub organizer: bool,
    pub is_self: bool,
}

/// An event of a calendar.
#[derive(Clone, Debug)]
pub struct Event {
    pub account: String,
    pub calendar_id: String,
    pub calendar_name: String,
    pub id: String,
    pub summary: String,
    pub all_day: bool,
    /// First day the event is shown on (local).
    pub start_date: Date,
    /// Last day the event is shown on, inclusive.
    pub end_date: Date,
    pub start_time: Option<Moment>,
    pub end_time: Option<Moment>,
    pub location: Option<String>,
    pub description: Option<String>,
    pub meet_url: Option<String>,
    pub html_link: Option<String>,
    /// Explicit popup reminder overrides; `None` means "use calendar defaults".
    pub reminder_overrides: Option<Vec<i64>>,
    /// Guests, organizer first.
    pub attendees: Vec<Attendee>,
}

/// A list of tasks of an account.
#[derive(Clone, Debug)]
pub struct TaskList {
    pub account: String,
    pub id: String,
    pub title: String,
}

/// A task of a task list.
#[derive(Clone, Debug)]
pub struct Task {
    pub account: String,
    pub tasklist_id: String,
    pub tasklist_title: String,
    pub id: String,
    pub title: String,
    pub notes: Option<String>,
    pub due: Option<Date>,
    pub completed: bool,
}

/// The model of a [`Calendar`].
#[verifier::ext_equal]
pub struct CalendarView {
    pub account: Seq<char>,
    pub id: Seq<char>,
    pub summary: Seq<char>,
    pub access_role: Seq<char>,
    pub default_reminder_mins: Seq<i64>,
    pub primary: bool,
}

/// The model of an [`Attendee`].
#[verifier::ext_equal]
pub struct AttendeeView {
    pub email: Seq<char>,
    pub name: Option<Seq<char>>,
    pub status: Seq<char>,
    pub organizer: bool,
    pub is_self: bool,
}

/// The model of an [`Event`].
#[verifier::ext_equal]
pub struct EventView {
    pub account: Seq<char>,
    pub calendar_id: Seq<char>,
    pub calendar_name: Seq<char>,
    pub id: Seq<char>,
    pub summary: Seq<char>,
    pub all_day: bool,
    pub start_date: Date,
    pub end_date: Date,
    pub start_time: Option<Moment>,
    pub end_time: Option<Moment>,
    pub location: Option<Seq<char>>,
    pub description: Option<Seq<char>>,
    pub meet_url: Option<Seq<char>>,
    pub html_link: Option<Seq<char>>,
    pub reminder_overrides: Option<Seq<i64>>,
    pub attendees: Seq<AttendeeView>,
}

/// The model of a [`TaskList`].
#[verifier::ext_equal]
pub struct TaskListView {
    pub account: Seq<char>,
    pub id: Seq<char>,
    pub title: Seq<char>,
}

/// The model of a [`Task`].
#[verifier::ext_equal]
pub struct TaskView {
    pub account: Seq<char>,
    pub tasklist_id: Seq<char>,
    pub tasklist_title: Seq<char>,
    pub id: Seq<char>,
    pub title: Seq<char>,
    pub notes: Option<Seq<char>>,
    pub due: Option<Date>,
    pub completed: bool,
}

impl DeepView for Calendar {
    type V = CalendarView;

    open spec fn deep_view(&self) -> CalendarView {
        CalendarView {
            account: self.account@,
            id: self.id@,
            summary: self.summary@,
            access_role: self.access_role@,
            default_reminder_mins: self.default_reminder_mins@,
            primary: self.primary,
        }
    }
}

impl DeepView for Attendee {
    type V = AttendeeView;

    open spec fn deep_view(&self) -> AttendeeView {
        AttendeeView {
            email: self.email@,
            name: self.name.deep_view(),
            status: self.status@,
            organizer: self.organizer,
            is_self: self.is_self,
        }
    }
}

impl DeepView for Event {
    type V = EventView;

    open spec fn deep_view(&self) -> EventView {
        EventView {
            account: self.account@,
            calendar_id: self.calendar_id@,
            calendar_name: self.calendar_name@,
            id: self.id@,
            summary: self.summary@,
            all_day: self.all_day,
            start_date: self.start_date,
            end_date: self.end_date,
            start_time: self.start_time,
            end_time: self.end_time,
            location: self.location.deep_view(),
            description: self.description.deep_view(),
            meet_url: self.meet_url.deep_view(),
            html_link: self.html_link.deep_view(),
            reminder_overrides: match self.reminder_overrides {
                Some(mins) => Some(mins@),
                None => None,
            },
            attendees: self.attendees.deep_view(),
        }
    }
}

impl DeepView for TaskList {
    type V = TaskListView;

    open spec fn deep_view(&self) -> TaskListView {
        TaskListView { account: self.account@, id: self.id@, title: self.title@ }
    }
}

impl DeepView for Task {
    type V = TaskView;

    open spec fn deep_view(&self) -> TaskView {
        TaskView {
            account: self.account@,
            tasklist_id: self.tasklist_id@,
            tasklist_title: self.tasklist_title@,
            id: self.id@,
            title: self.title@,
            notes: self.notes.deep_view(),
            due: self.due,
            completed: self.completed,
        }
    }
}

impl EventView {
    /// Whether its times are ones that chrono represents.
    pub open spec fn wf(self) -> bool {
        &&& self.start_time matches Some(m) ==> m.valid()
        &&& self.end_time matches Some(m) ==> m.valid()
        &&& self.all_day == (self.start_time is None)
    }
}

// ---------------------------------------------------------------------
// Calendars
// ---------------------------------------------------------------------

/// The minutes of a popup reminder.
pub open spec fn popup_minute(r: JsonV) -> Option<i64> {
    if r.text_at("method"@) == Some("popup"@) {
        r.integer_at("minutes"@)
    } else {
        None
    }
}

/// The minutes of the popup reminders among reminders.
pub open spec fn popup_minutes(items: Seq<JsonV>) -> Seq<i64> {
    items.filter_map(|r: JsonV| popup_minute(r))
}

/// Reads the minutes of popup reminders.
fn read_popup_minutes(v: &Json, key: &str) -> (r: Vec<i64>)
    ensures
        r@ == popup_minutes(v.deep_view().items_at(key@)),
{
    let mut out: Vec<i64> = Vec::new();
    let ghost all = v.deep_view().items_at(key@);
    match v.array_at(key) {
        Some(items) => {
            proof {
                json::lemma_items_view(items@);
            }
            let mut i: usize = 0;
            while i < items.len()
                invariant
                    i <= items@.len() == all.len(),
                    forall|j: int|
                        0 <= j < items@.len() ==> #[trigger] all[j] == items@[j].deep_view(),
                    out@ == popup_minutes(all.take(i as int)),
                decreases items.len() - i,
            {
                assert(all.take(i + 1).drop_last() == all.take(i as int));
                assert(all.take(i + 1).last() == items@[i as int].deep_view());
                if items[i].is_at("method", "popup") {
                    if let Some(n) = items[i].i64_at("minutes") {
                        out.push(n);
                    }
                }
                i += 1;
            }
            assert(all.take(i as int) == all);
        },
        None => {},
    }
    out
}

/// The text of an optional text, or another.
pub open spec fn or_text(o: Option<Seq<char>>, other: Seq<char>) -> Seq<char> {
    match o {
        Some(s) => s,
        None => other,
    }
}

/// The calendar that an entry of a calendar list describes; none without an id.
pub open spec fn calendar_from(account: Seq<char>, v: JsonV) -> Option<CalendarView> {
    match v.text_at("id"@) {
        None => None,
        Some(id) => Some(
            CalendarView {
                account,
                id,
                summary: or_text(v.text_at("summary"@), ""@),
                access_role: or_text(v.text_at("accessRole"@), "reader"@),
                default_reminder_mins: popup_minutes(v.items_at("defaultReminders"@)),
                primary: v.truth_at("primary"@) == Some(true),
            },
        ),
    }
}

impl Calendar {
    /// Whether the account may change the calendar.
    pub fn writable(&self) -> (r: bool)
        ensures
            r == (self.access_role@ == "owner"@ || self.access_role@ == "writer"@),
    {
        text::same(self.access_role.as_str(), "owner") || text::same(
            self.access_role.as_str(),
            "writer",
        )
    }

    /// Reads an entry of a calendar list.
    pub fn from_json(account: &str, v: &Json) -> (r: Option<Self>)
        ensures
            r.deep_view() == calendar_from(account@, v.deep_view()),
    {
        match v.str_at("id") {
            None => None,
            Some(id) => Some(
                Calendar {
                    account: account.to_owned(),
                    id: id.to_owned(),
                    summary: v.str_or("summary", ""),
                    access_role: v.str_or("accessRole", "reader"),
                    default_reminder_mins: read_popup_minutes(v, "defaultReminders"),
                    primary: v.bool_at("primary") == Some(true),
                },
            ),
        }
    }
}

impl Attendee {
    /// The name, or the address where there is none.
    pub fn label(&self) -> (r: &str)
        ensures
            r@ == or_text(self.name.deep_view(), self.email@),
    {
        match &self.name {
            Some(name) => name.as_str(),
            None => self.email.as_str(),
        }
    }
}

// ---------------------------------------------------------------------
// Events
// ---------------------------------------------------------------------

/// The last day an event is shown on: all-day ends are exclusive, and an event
/// never ends before it starts.
pub open spec fn last_day(all_day: bool, start: Date, end: Date) -> Date {
    if all_day {
        end.day_before().latest(start)
    } else {
        end
    }
}

/// The last day an event is shown on.
fn shown_until(all_day: bool, start: Date, end: Date) -> (r: Date)
    ensures
        r == last_day(all_day, start, end),
{
    if all_day {
        end.pred().max(start)
    } else {
        end
    }
}

/// What the start or end of an event says: a time under `dateTime`, else a day
/// under `date`.
pub open spec fn boundary_meaning(v: JsonV) -> When {
    match v.text_at("dateTime"@) {
        Some(dt) => match time::instant_of(time::rfc3339_instant(dt)) {
            Some(t) => When::At(t),
            None => When::Unreadable,
        },
        None => match v.text_at("date"@) {
            Some(d) => match time::date_of(time::parsed_date(d, "%Y-%m-%d"@)) {
                Some(d) => When::Day(d),
                None => When::Unreadable,
            },
            None => When::Unreadable,
        },
    }
}

/// What the boundary under a key says; nothing where there is none.
pub open spec fn boundary_at(v: JsonV, key: Seq<char>) -> When {
    match v.member(key) {
        Some(b) => boundary_meaning(b),
        None => When::Unreadable,
    }
}

/// A day, or a time, under a key is read as the one that was written.
pub open spec fn boundary_read_faithfully(v: JsonV, key: Seq<char>) -> bool {
    v.member(key) matches Some(b) ==> match b.text_at("dateTime"@) {
        Some(dt) => time::rfc3339_reads_back(dt, time::instant_of(time::rfc3339_instant(dt))),
        None => b.text_at("date"@) matches Some(d) ==> time::date_reads_back(
            d,
            "%Y-%m-%d"@,
            time::date_of(time::parsed_date(d, "%Y-%m-%d"@)),
        ),
    }
}

/// Reads what the boundary of an event under a key says.
pub fn parse_event_boundary(v: &Json, key: &str) -> (r: When)
    ensures
        r == boundary_at(v.deep_view(), key@),
        boundary_read_faithfully(v.deep_view(), key@),
        ical::when_valid(r),
{
    match v.get(key) {
        None => When::Unreadable,
        Some(b) => match b.str_at("dateTime") {
            Some(dt) => match time::parse_rfc3339(dt) {
                Some(t) => When::At(t),
                None => When::Unreadable,
            },
            None => match b.str_at("date") {
                Some(d) => match time::parse_date(d, "%Y-%m-%d") {
                    Some(d) => When::Day(d),
                    None => When::Unreadable,
                },
                None => When::Unreadable,
            },
        },
    }
}

/// The first entry point of the type `video`.
pub open spec fn video_entry(items: Seq<JsonV>) -> Option<JsonV>
    decreases items.len(),
{
    if items.len() == 0 {
        None
    } else if items[0].text_at("entryPointType"@) == Some("video"@) {
        Some(items[0])
    } else {
        video_entry(items.drop_first())
    }
}

/// The address of the video call: `hangoutLink`, else that of the first video
/// entry point of the conference.
pub open spec fn meet_url_of(v: JsonV) -> Option<Seq<char>> {
    match v.text_at("hangoutLink"@) {
        Some(url) => Some(url),
        None => match v.member("conferenceData"@) {
            Some(conference) => match video_entry(conference.items_at("entryPoints"@)) {
                Some(entry) => entry.text_at("uri"@),
                None => None,
            },
            None => None,
        },
    }
}

/// Reads the address of the video call.
fn read_meet_url(v: &Json) -> (r: Option<String>)
    ensures
        r.deep_view() == meet_url_of(v.deep_view()),
{
    if let Some(url) = v.str_at("hangoutLink") {
        return Some(url.to_owned());
    }
    match v.get("conferenceData") {
        None => None,
        Some(conference) => {
            let ghost all = conference.deep_view().items_at("entryPoints"@);
            match conference.array_at("entryPoints") {
                None => {
                    assert(video_entry(all) is None);
                    None
                },
                Some(items) => {
                    proof {
                        json::lemma_items_view(items@);
                    }
                    let mut i: usize = 0;
                    assert(all.skip(0) == all);
                    while i < items.len()
                        invariant
                            i <= items@.len() == all.len(),
                            forall|j: int|
                                0 <= j < items@.len() ==> #[trigger] all[j]
                                    == items@[j].deep_view(),
                            meet_url_of(v.deep_view()) == match video_entry(all) {
                                Some(entry) => entry.text_at("uri"@),
                                None => None,
                            },
                            video_entry(all) == video_entry(all.skip(i as int)),
                        decreases items.len() - i,
                    {
                        assert(all.skip(i as int)[0] == all[i as int]);
                        assert(all.skip(i as int).drop_first() == all.skip(i + 1));
                        if items[i].is_at("entryPointType", "video") {
                            return match items[i].str_at("uri") {
                                Some(uri) => Some(uri.to_owned()),
                                None => None,
                            };
                        }
                        i += 1;
                    }
                    None
                },
            }
        },
    }
}

/// The popup reminders of an event that does not use the calendar's defaults.
pub open spec fn overrides_of(v: JsonV) -> Option<Seq<i64>> {
    match v.member("reminders"@) {
        Some(r) => if r.truth_at("useDefault"@) == Some(false) {
            Some(popup_minutes(r.items_at("overrides"@)))
        } else {
            None
        },
        None => None,
    }
}

/// The guest that an entry of a guest list describes; none for a room or
/// another resource, and none without an address.
pub open spec fn guest_from(g: JsonV) -> Option<AttendeeView> {
    if g.truth_at("resource"@) == Some(true) {
        None
    } else {
        match g.text_at("email"@) {
            None => None,
            Some(email) => Some(
                AttendeeView {
                    email,
                    name: g.text_at("displayName"@),
                    status: or_text(g.text_at("responseStatus"@), "needsAction"@),
                    organizer: g.truth_at("organizer"@) == Some(true),
                    is_self: g.truth_at("self"@) == Some(true),
                },
            ),
        }
    }
}

/// The guests of a guest list, in its order.
pub open spec fn guests_from(items: Seq<JsonV>) -> Seq<AttendeeView> {
    items.filter_map(|g: JsonV| guest_from(g))
}

/// The guests that are organizers or not, the account itself or not.
pub open spec fn guests_that(
    guests: Seq<AttendeeView>,
    organizer: bool,
    is_self: bool,
) -> Seq<AttendeeView> {
    guests.filter(|g: AttendeeView| g.organizer == organizer && g.is_self == is_self)
}

/// Guests in order: organizers first, and the account itself before others;
/// equals keep their order.
pub open spec fn ranked(guests: Seq<AttendeeView>) -> Seq<AttendeeView> {
    guests_that(guests, true, true) + guests_that(guests, true, false) + guests_that(
        guests,
        false,
        true,
    ) + guests_that(guests, false, false)
}

/// A further guest comes behind the others of its kind.
pub proof fn lemma_guests_push(guests: Seq<AttendeeView>, g: AttendeeView, organizer: bool, is_self: bool)
    ensures
        guests_that(guests.push(g), organizer, is_self) == if g.organizer == organizer && g.is_self
            == is_self {
            guests_that(guests, organizer, is_self).push(g)
        } else {
            guests_that(guests, organizer, is_self)
        },
{
    reveal(Seq::filter);
    assert(guests.push(g).drop_last() == guests);
}

/// Reads one guest.
fn read_guest(g: &Json) -> (r: Option<Attendee>)
    ensures
        r.deep_view() == guest_from(g.deep_view()),
{
    if g.bool_at("resource") == Some(true) {
        return None;
    }
    match g.str_at("email") {
        None => None,
        Some(email) => Some(
            Attendee {
                email: email.to_owned(),
                name: match g.str_at("displayName") {
                    Some(name) => Some(name.to_owned()),
                    None => None,
                },
                status: g.str_or("responseStatus", "needsAction"),
                organizer: g.bool_at("organizer") == Some(true),
                is_self: g.bool_at("self") == Some(true),
            },
        ),
    }
}

/// Guests in order: organizers first, and the account itself before others.
fn rank(guests: Vec<Attendee>) -> (r: Vec<Attendee>)
    ensures
        r.deep_view() == ranked(guests.deep_view()),
{
    let ghost all = guests.deep_view();
    let mut guests = guests;
    let mut a: Vec<Attendee> = Vec::new();
    let mut b: Vec<Attendee> = Vec::new();
    let mut c: Vec<Attendee> = Vec::new();
    let mut d: Vec<Attendee> = Vec::new();
    let n = guests.len();
    let mut i: usize = 0;
    proof {
        reveal(Seq::filter);
    }
    while i < n
        invariant
            i <= n == all.len(),
            guests@.len() == n - i,
            guests.deep_view() == all.skip(i as int),
            a.deep_view() == guests_that(all.take(i as int), true, true),
            b.deep_view() == guests_that(all.take(i as int), true, false),
            c.deep_view() == guests_that(all.take(i as int), false, true),
            d.deep_view() == guests_that(all.take(i as int), false, false),
        decreases n - i,
    {
        let ghost before = all.take(i as int);
        let ghost g = all[i as int];
        assert(guests.deep_view()[0] == g);
        let ghost rest = guests@;
        let guest = guests.remove(0);
        assert(guests@ == rest.remove(0));
        assert(guests.deep_view() == all.skip(i + 1)) by {
            assert forall|j: int| 0 <= j < guests@.len() implies guests.deep_view()[j] == all.skip(i + 1)[j] by {
                assert(guests@[j] == rest[j + 1]);
                assert(all.skip(i as int)[j + 1] == rest[j + 1].deep_view());
            }
        }
        assert(all.take(i + 1) == before.push(g));
        proof {
            lemma_guests_push(before, g, true, true);
            lemma_guests_push(before, g, true, false);
            lemma_guests_push(before, g, false, true);
            lemma_guests_push(before, g, false, false);
        }
        let ghost (a0, b0, c0, d0) = (a.deep_view(), b.deep_view(), c.deep_view(), d.deep_view());
        if guest.organizer {
            if guest.is_self {
                a.push(guest);
                assert(a.deep_view() == a0.push(g));
            } else {
                b.push(guest);
                assert(b.deep_view() == b0.push(g));
            }
        } else if guest.is_self {
            c.push(guest);
            assert(c.deep_view() == c0.push(g));
        } else {
            d.push(guest);
            assert(d.deep_view() == d0.push(g));
        }
        i += 1;
    }
    assert(all.take(i as int) == all);
    let ghost (va, vb, vc, vd) = (a.deep_view(), b.deep_view(), c.deep_view(), d.deep_view());
    a.append(&mut b);
    assert(a.deep_view() == va + vb);
    a.append(&mut c);
    assert(a.deep_view() == va + vb + vc);
    a.append(&mut d);
    assert(a.deep_view() == va + vb + vc + vd);
    a
}

/// Reads the guests of an event, organizers first.
fn read_guests(v: &Json) -> (r: Vec<Attendee>)
    ensures
        r.deep_view() == ranked(guests_from(v.deep_view().items_at("attendees"@))),
{
    let ghost all = v.deep_view().items_at("attendees"@);
    let mut out: Vec<Attendee> = Vec::new();
    match v.array_at("attendees") {
        Some(items) => {
            proof {
                json::lemma_items_view(items@);
            }
            let mut i: usize = 0;
            while i < items.len()
                invariant
                    i <= items@.len() == all.len(),
                    forall|j: int|
                        0 <= j < items@.len() ==> #[trigger] all[j] == items@[j].deep_view(),
                    out.deep_view() == guests_from(all.take(i as int)),
                decreases items.len() - i,
            {
                let ghost before = out.deep_view();
                assert(all.take(i + 1).drop_last() == all.take(i as int));
                assert(all.take(i + 1).last() == items@[i as int].deep_view());
                if let Some(guest) = read_guest(&items[i]) {
                    out.push(guest);
                    assert(out.deep_view() == before + seq![guest.deep_view()]);
                }
                i += 1;
            }
            assert(all.take(i as int) == all);
        },
        None => {
            assert(all == Seq::<JsonV>::empty());
        },
    }
    rank(out)
}

/// The event that an entry of an event list describes, given where its start
/// and its end lie: none for a cancelled one, one without an id, or one whose
/// start or end cannot be read.
pub open spec fn event_from(
    account: Seq<char>,
    calendar_id: Seq<char>,
    calendar_name: Seq<char>,
    v: JsonV,
    start: Option<(Date, Option<Moment>)>,
    end: Option<(Date, Option<Moment>)>,
) -> Option<EventView> {
    if v.text_at("status"@) == Some("cancelled"@) || start is None || end is None || v.text_at(
        "id"@,
    ) is None {
        None
    } else {
        let (start_date, start_time) = start->0;
        let (end_date, end_time) = end->0;
        Some(
            EventView {
                account,
                calendar_id,
                calendar_name,
                id: v.text_at("id"@)->0,
                summary: or_text(v.text_at("summary"@), "(no title)"@),
                all_day: start_time is None,
                start_date,
                end_date: last_day(start_time is None, start_date, end_date),
                start_time,
                end_time,
                location: v.non_blank_at("location"@),
                description: v.non_blank_at("description"@),
                meet_url: meet_url_of(v),
                html_link: v.non_blank_at("htmlLink"@),
                reminder_overrides: overrides_of(v),
                attendees: ranked(guests_from(v.items_at("attendees"@))),
            },
        )
    }
}

/// Whether `r` is what [`event_from`] can make of an entry, whatever the local
/// zone.
pub open spec fn event_read(
    account: Seq<char>,
    calendar_id: Seq<char>,
    calendar_name: Seq<char>,
    v: JsonV,
    r: Option<EventView>,
) -> bool {
    exists|start: Option<Moment>, end: Option<Moment>| #[trigger]
        ical::local_answer(boundary_at(v, "start"@), start) && #[trigger] ical::local_answer(
            boundary_at(v, "end"@),
            end,
        ) && r == event_from(
            account,
            calendar_id,
            calendar_name,
            v,
            ical::placed(boundary_at(v, "start"@), start),
            ical::placed(boundary_at(v, "end"@), end),
        )
}

/// The properties of a name, each with a value, as guests.
pub open spec fn ical_guest(p: PropertyV, organizer: Option<Seq<char>>) -> Option<AttendeeView> {
    if p.name != "ATTENDEE"@ {
        None
    } else {
        match p.value {
            None => None,
            Some(v) => Some(
                AttendeeView {
                    email: ical::without_mailto(v),
                    name: ical::param_of(p, "CN"@),
                    status: ical::response_status(ical::param_of(p, "PARTSTAT"@)),
                    organizer: organizer matches Some(o) && text::same_ignoring_ascii_case(
                        o,
                        ical::without_mailto(v),
                    ),
                    is_self: false,
                },
            ),
        }
    }
}

/// The guests of an event.
pub open spec fn ical_guests(
    props: Seq<PropertyV>,
    organizer: Option<Seq<char>>,
) -> Seq<AttendeeView> {
    props.filter_map(|p: PropertyV| ical_guest(p, organizer))
}

/// The address of the organizer.
pub open spec fn organizer_of(props: Seq<PropertyV>) -> Option<Seq<char>> {
    match ical::value_of(props, "ORGANIZER"@) {
        Some(v) => Some(ical::without_mailto(v)),
        None => None,
    }
}

/// The text of a property, unescaped.
pub open spec fn ical_text(props: Seq<PropertyV>, name: Seq<char>) -> Option<Seq<char>> {
    match ical::value_of(props, name) {
        Some(v) => Some(crate::ics::unescaped(v)),
        None => None,
    }
}

/// The text of a property, unescaped and trimmed, where anything is left of it.
pub open spec fn ical_non_blank(props: Seq<PropertyV>, name: Seq<char>) -> Option<Seq<char>> {
    match ical_text(props, name) {
        Some(s) => text::non_blank(s),
        None => None,
    }
}

/// The minutes of the alarms that are shown as popups.
pub open spec fn alarm_mins(alarms: Seq<Seq<PropertyV>>) -> Seq<i64> {
    alarms.filter_map(|a: Seq<PropertyV>| ical::exact(ical::alarm_meaning(a)))
}

/// What a date property of a name says; nothing where there is none.
pub open spec fn moment_at(props: Seq<PropertyV>, name: Seq<char>) -> When {
    match ical::first_named(props, name) {
        Some(p) => ical::moment_meaning(p),
        None => When::Unreadable,
    }
}

/// Where the end of an event lies: where DTEND says, and at the start where
/// there is no DTEND.
pub open spec fn ical_end(
    props: Seq<PropertyV>,
    start: Option<(Date, Option<Moment>)>,
    end: Option<(Date, Option<Moment>)>,
) -> Option<(Date, Option<Moment>)> {
    if ical::first_named(props, "DTEND"@) is Some {
        end
    } else {
        start
    }
}

/// The event that a VEVENT describes, given where its start and its end lie.
pub open spec fn event_from_ical(
    account: Seq<char>,
    calendar_id: Seq<char>,
    calendar_name: Seq<char>,
    href: Seq<char>,
    ev: ical::EventV,
    start: Option<(Date, Option<Moment>)>,
    end: Option<(Date, Option<Moment>)>,
) -> Option<EventView> {
    if start is None || end is None {
        None
    } else {
        let props = ev.properties;
        let (start_date, start_time) = start->0;
        let (end_date, end_time) = end->0;
        let mins = alarm_mins(ev.alarms);
        Some(
            EventView {
                account,
                calendar_id,
                calendar_name,
                id: href,
                summary: or_text(ical_text(props, "SUMMARY"@), "(no title)"@),
                all_day: start_time is None,
                start_date,
                end_date: last_day(start_time is None, start_date, end_date),
                start_time,
                end_time,
                location: ical_non_blank(props, "LOCATION"@),
                description: ical_non_blank(props, "DESCRIPTION"@),
                meet_url: None,
                html_link: None,
                reminder_overrides: if mins.len() == 0 {
                    None
                } else {
                    Some(mins)
                },
                attendees: ranked(ical_guests(props, organizer_of(props))),
            },
        )
    }
}

/// Whether `r` is what [`event_from_ical`] can make of a VEVENT, whatever the
/// local zone.
pub open spec fn ical_event_read(
    account: Seq<char>,
    calendar_id: Seq<char>,
    calendar_name: Seq<char>,
    href: Seq<char>,
    ev: ical::EventV,
    r: Option<EventView>,
) -> bool {
    exists|start: Option<Moment>, end: Option<Moment>| #[trigger]
        ical::local_answer(moment_at(ev.properties, "DTSTART"@), start)
            && #[trigger] ical::local_answer(moment_at(ev.properties, "DTEND"@), end) && r
            == event_from_ical(
            account,
            calendar_id,
            calendar_name,
            href,
            ev,
            ical::placed(moment_at(ev.properties, "DTSTART"@), start),
            ical_end(
                ev.properties,
                ical::placed(moment_at(ev.properties, "DTSTART"@), start),
                ical::placed(moment_at(ev.properties, "DTEND"@), end),
            ),
        )
}

/// Whether no alarm is so far from the event that 64 bits do not hold the
/// minutes.
pub open spec fn alarms_fit(alarms: Seq<Seq<PropertyV>>) -> bool {
    forall|i: int|
        0 <= i < alarms.len() ==> ical::alarm_meaning(#[trigger] alarms[i]) != ical::Minutes::TooLong
}

/// Decides [`alarms_fit`].
pub fn alarms_are_countable(ev: &IcalEvent) -> (r: bool)
    ensures
        r == alarms_fit(ev.deep_view().alarms),
{
    let ghost all = ev.deep_view().alarms;
    let mut i: usize = 0;
    while i < ev.alarms.len()
        invariant
            i <= ev.alarms@.len(),
            all == ev.alarms.deep_view(),
            forall|j: int|
                0 <= j < i ==> ical::alarm_meaning(#[trigger] all[j]) != ical::Minutes::TooLong,
        decreases ev.alarms.len() - i,
    {
        assert(all[i as int] == ev.alarms@[i as int].deep_view());
        if ical::read_alarm(&ev.alarms[i]) == ical::Minutes::TooLong {
            return false;
        }
        i += 1;
    }
    true
}

/// Reads the text of a property, unescaped.
fn read_ical_text(props: &Vec<ical::Property>, name: &str) -> (r: Option<String>)
    ensures
        r.deep_view() == ical_text(props.deep_view(), name@),
{
    match ical::ical_value(props, name) {
        Some(v) => Some(crate::ics::ical_unescape(v)),
        None => None,
    }
}

/// Reads the text of a property, unescaped and trimmed.
fn read_ical_non_blank(props: &Vec<ical::Property>, name: &str) -> (r: Option<String>)
    ensures
        r.deep_view() == ical_non_blank(props.deep_view(), name@),
{
    match read_ical_text(props, name) {
        Some(s) => text::non_blank_text(s.as_str()),
        None => None,
    }
}

/// Reads the guests of a VEVENT, the organizer first.
fn read_ical_guests(props: &Vec<ical::Property>) -> (r: Vec<Attendee>)
    ensures
        r.deep_view() == ranked(
            ical_guests(props.deep_view(), organizer_of(props.deep_view())),
        ),
{
    let ghost all = props.deep_view();
    let organizer: Option<String> = match ical::ical_value(props, "ORGANIZER") {
        Some(v) => Some(ical::strip_mailto(v)),
        None => None,
    };
    let ghost org = organizer_of(all);
    let mut out: Vec<Attendee> = Vec::new();
    let mut i: usize = 0;
    while i < props.len()
        invariant
            i <= props@.len(),
            all == props.deep_view(),
            org == organizer.deep_view(),
            out.deep_view() == ical_guests(all.take(i as int), org),
        decreases props.len() - i,
    {
        let ghost before = out.deep_view();
        assert(all.take(i + 1).drop_last() == all.take(i as int));
        assert(all.take(i + 1).last() == props@[i as int].deep_view());
        let p = &props[i];
        if text::same(p.name.as_str(), "ATTENDEE") {
            if let Some(v) = &p.value {
                let email = ical::strip_mailto(v.as_str());
                let is_organizer = match &organizer {
                    Some(o) => text::eq_ignore_ascii_case(o.as_str(), email.as_str()),
                    None => false,
                };
                let guest = Attendee {
                    email,
                    name: match ical::ical_param(p, "CN") {
                        Some(name) => Some(name.to_owned()),
                        None => None,
                    },
                    status: ical::partstat_to_google(ical::ical_param(p, "PARTSTAT")),
                    organizer: is_organizer,
                    is_self: false,
                };
                assert(ical_guest(p.deep_view(), org) == Some(guest.deep_view()));
                out.push(guest);
                assert(out.deep_view() == before.push(guest.deep_view()));
                assert(before + seq![guest.deep_view()] == before.push(guest.deep_view()));
            }
        }
        i += 1;
    }
    assert(all.take(i as int) == all);
    rank(out)
}

/// Reads the minutes of the alarms that are shown as popups.
fn read_alarm_mins(alarms: &Vec<ical::IcalAlarm>) -> (r: Vec<i64>)
    requires
        alarms_fit(alarms.deep_view()),
    ensures
        r@ == alarm_mins(alarms.deep_view()),
{
    let ghost all = alarms.deep_view();
    let mut out: Vec<i64> = Vec::new();
    let mut i: usize = 0;
    while i < alarms.len()
        invariant
            i <= alarms@.len(),
            all == alarms.deep_view(),
            alarms_fit(all),
            out@ == alarm_mins(all.take(i as int)),
        decreases alarms.len() - i,
    {
        assert(all.take(i + 1).drop_last() == all.take(i as int));
        assert(all.take(i + 1).last() == all[i as int]);
        assert(all[i as int] == alarms@[i as int].deep_view());
        if let Some(n) = ical::alarm_minutes(&alarms[i]) {
            out.push(n);
        }
        i += 1;
    }
    assert(all.take(i as int) == all);
    out
}

impl Event {
    /// Whether its times are ones that chrono represents, and whether it lasts
    /// all day exactly when it has no start time.
    pub open spec fn wf(&self) -> bool {
        self.deep_view().wf()
    }

    /// Reads an entry of an event list, given where its start and its end lie.
    pub fn from_json_at(
        account: &str,
        calendar_id: &str,
        calendar_name: &str,
        v: &Json,
        start: Option<(Date, Option<Moment>)>,
        end: Option<(Date, Option<Moment>)>,
    ) -> (r: Option<Self>)
        ensures
            r.deep_view() == event_from(
                account@,
                calendar_id@,
                calendar_name@,
                v.deep_view(),
                start,
                end,
            ),
    {
        if v.is_at("status", "cancelled") {
            return None;
        }
        let (start_date, start_time) = match start {
            Some(s) => s,
            None => return None,
        };
        let (end_date, end_time) = match end {
            Some(e) => e,
            None => return None,
        };
        let id = match v.str_at("id") {
            Some(id) => id.to_owned(),
            None => return None,
        };
        let all_day = start_time.is_none();
        let reminder_overrides = match v.get("reminders") {
            Some(r) => if r.bool_at("useDefault") == Some(false) {
                Some(read_popup_minutes(r, "overrides"))
            } else {
                None
            },
            None => None,
        };
        Some(
            Event {
                account: account.to_owned(),
                calendar_id: calendar_id.to_owned(),
                calendar_name: calendar_name.to_owned(),
                id,
                summary: v.str_or("summary", "(no title)"),
                all_day,
                start_date,
                end_date: shown_until(all_day, start_date, end_date),
                start_time,
                end_time,
                location: v.non_blank_at("location"),
                description: v.non_blank_at("description"),
                meet_url: read_meet_url(v),
                html_link: v.non_blank_at("htmlLink"),
                reminder_overrides,
                attendees: read_guests(v),
            },
        )
    }

    /// Reads an entry of an event list.
    pub fn from_json(
        account: &str,
        calendar_id: &str,
        calendar_name: &str,
        v: &Json,
    ) -> (r: Option<Self>)
        ensures
            event_read(account@, calendar_id@, calendar_name@, v.deep_view(), r.deep_view()),
            boundary_read_faithfully(v.deep_view(), "start"@),
            boundary_read_faithfully(v.deep_view(), "end"@),
            r matches Some(ev) ==> ev.wf(),
    {
        let ws = parse_event_boundary(v, "start");
        let we = parse_event_boundary(v, "end");
        let ls = ical::ask_local(ws);
        let le = ical::ask_local(we);
        Self::from_json_at(
            account,
            calendar_id,
            calendar_name,
            v,
            ical::place(ws, ls),
            ical::place(we, le),
        )
    }

    /// Whether the event is shown on a day.
    pub fn covers(&self, day: Date) -> (r: bool)
        ensures
            r == (self.start_date.days <= day.days <= self.end_date.days),
    {
        self.start_date.days <= day.days && day.days <= self.end_date.days
    }

    /// The times of the event as shown: both, the start alone, or `all day`.
    pub fn time_label(&self) -> (r: String)
        requires
            self.wf(),
        ensures
            r@ == match (self.start_time, self.end_time) {
                (Some(s), Some(e)) => time::clock_text(s.second_of_day()) + "–"@
                    + time::clock_text(e.second_of_day()),
                (Some(s), None) => time::clock_text(s.second_of_day()),
                _ => "all day"@,
            },
    {
        match (self.start_time, self.end_time) {
            (Some(s), Some(e)) => text::concat3(
                time::format_clock(s).as_str(),
                "–",
                time::format_clock(e).as_str(),
            ),
            (Some(s), None) => time::format_clock(s),
            _ => "all day".to_owned(),
        }
    }

    /// Builds an event from a VEVENT, given where its start and its end lie.
    pub fn from_ical_at(
        account: &str,
        calendar_id: &str,
        calendar_name: &str,
        href: &str,
        ev: &IcalEvent,
        start: Option<(Date, Option<Moment>)>,
        end: Option<(Date, Option<Moment>)>,
    ) -> (r: Option<Self>)
        requires
            alarms_fit(ev.deep_view().alarms),
        ensures
            r.deep_view() == event_from_ical(
                account@,
                calendar_id@,
                calendar_name@,
                href@,
                ev.deep_view(),
                start,
                end,
            ),
    {
        let (start_date, start_time) = match start {
            Some(s) => s,
            None => return None,
        };
        let (end_date, end_time) = match end {
            Some(e) => e,
            None => return None,
        };
        let all_day = start_time.is_none();
        let mins = read_alarm_mins(&ev.alarms);
        let reminder_overrides = if mins.len() == 0 {
            None
        } else {
            Some(mins)
        };
        let summary = match read_ical_text(&ev.properties, "SUMMARY") {
            Some(s) => s,
            None => "(no title)".to_owned(),
        };
        Some(
            Event {
                account: account.to_owned(),
                calendar_id: calendar_id.to_owned(),
                calendar_name: calendar_name.to_owned(),
                id: href.to_owned(),
                summary,
                all_day,
                start_date,
                end_date: shown_until(all_day, start_date, end_date),
                start_time,
                end_time,
                location: read_ical_non_blank(&ev.properties, "LOCATION"),
                description: read_ical_non_blank(&ev.properties, "DESCRIPTION"),
                meet_url: None,
                html_link: None,
                reminder_overrides,
                attendees: read_ical_guests(&ev.properties),
            },
        )
    }

    /// Builds an event from a VEVENT. `href`, the item's path on the server,
    /// becomes its id.
    pub fn from_ical(
        account: &str,
        calendar_id: &str,
        calendar_name: &str,
        href: &str,
        ev: &IcalEvent,
    ) -> (r: Option<Self>)
        requires
            alarms_fit(ev.deep_view().alarms),
        ensures
            ical_event_read(
                account@,
                calendar_id@,
                calendar_name@,
                href@,
                ev.deep_view(),
                r.deep_view(),
            ),
            faithful_at(ev.deep_view().properties, "DTSTART"@),
            faithful_at(ev.deep_view().properties, "DTEND"@),
            r matches Some(ev) ==> ev.wf(),
    {
        let ws = read_moment_at(&ev.properties, "DTSTART");
        let we = read_moment_at(&ev.properties, "DTEND");
        let ls = ical::ask_local(ws);
        let le = ical::ask_local(we);
        let start = ical::place(ws, ls);
        let end = match ical::ical_prop(&ev.properties, "DTEND") {
            Some(_) => ical::place(we, le),
            None => start,
        };
        Self::from_ical_at(account, calendar_id, calendar_name, href, ev, start, end)
    }
}

/// Whether the date property of a name, if there is one, is read faithfully.
pub open spec fn faithful_at(props: Seq<PropertyV>, name: Seq<char>) -> bool {
    ical::first_named(props, name) matches Some(p) ==> ical::read_faithfully(p)
}

/// Reads what a date property of a name says.
pub fn read_moment_at(props: &Vec<ical::Property>, name: &str) -> (r: When)
    ensures
        r == moment_at(props.deep_view(), name@),
        ical::when_valid(r),
        faithful_at(props.deep_view(), name@),
{
    match ical::ical_prop(props, name) {
        Some(p) => ical::ical_when(p),
        None => When::Unreadable,
    }
}

// ---------------------------------------------------------------------
// Tasks
// ---------------------------------------------------------------------

/// The task list that an entry describes; none without an id.
pub open spec fn tasklist_from(account: Seq<char>, v: JsonV) -> Option<TaskListView> {
    match v.text_at("id"@) {
        None => None,
        Some(id) => Some(
            TaskListView { account, id, title: or_text(v.text_at("title"@), ""@) },
        ),
    }
}

impl TaskList {
    /// Reads an entry of a list of task lists.
    pub fn from_json(account: &str, v: &Json) -> (r: Option<Self>)
        ensures
            r.deep_view() == tasklist_from(account@, v.deep_view()),
    {
        match v.str_at("id") {
            None => None,
            Some(id) => Some(
                TaskList {
                    account: account.to_owned(),
                    id: id.to_owned(),
                    title: v.str_or("title", ""),
                },
            ),
        }
    }
}

/// The octets of a due time that hold the day.
pub const DUE_OCTETS: usize = 10;

/// The day of a due time: its first ten octets.
pub open spec fn due_prefix(s: Seq<char>) -> Seq<char> {
    s.take(text::fitting(s, DUE_OCTETS as int) as int)
}

/// Whether a text can be cut behind its tenth octet: it is no longer, or a
/// character ends there.
pub open spec fn cuttable(s: Seq<char>) -> bool {
    text::octets(s) <= DUE_OCTETS || text::octets(due_prefix(s)) == DUE_OCTETS
}

/// Whether the due time of a task, if it has one, can be cut.
pub open spec fn due_cuttable(v: JsonV) -> bool {
    v.text_at("due"@) matches Some(due) ==> cuttable(due)
}

/// The day a task is due.
pub open spec fn due_of(v: JsonV) -> Option<Date> {
    match v.text_at("due"@) {
        Some(due) => time::date_of(time::parsed_date(due_prefix(due), "%Y-%m-%d"@)),
        None => None,
    }
}

/// A day with a four-digit year is read as the one that was written.
pub open spec fn due_read_faithfully(v: JsonV) -> bool {
    v.text_at("due"@) matches Some(due) ==> time::date_reads_back(
        due_prefix(due),
        "%Y-%m-%d"@,
        time::date_of(time::parsed_date(due_prefix(due), "%Y-%m-%d"@)),
    )
}

/// The task that an entry of a task list describes; none without an id.
pub open spec fn task_from(
    account: Seq<char>,
    tasklist_id: Seq<char>,
    tasklist_title: Seq<char>,
    v: JsonV,
) -> Option<TaskView> {
    match v.text_at("id"@) {
        None => None,
        Some(id) => Some(
            TaskView {
                account,
                tasklist_id,
                tasklist_title,
                id,
                title: or_text(v.non_blank_at("title"@), "(untitled)"@),
                notes: v.non_blank_at("notes"@),
                due: due_of(v),
                completed: v.text_at("status"@) == Some("completed"@),
            },
        ),
    }
}

/// The task that a VTODO describes, given where DUE lies.
pub open spec fn task_from_ical(
    account: Seq<char>,
    tasklist_id: Seq<char>,
    tasklist_title: Seq<char>,
    href: Seq<char>,
    props: Seq<PropertyV>,
    due: Option<(Date, Option<Moment>)>,
) -> TaskView {
    TaskView {
        account,
        tasklist_id,
        tasklist_title,
        id: href,
        title: or_text(ical_non_blank(props, "SUMMARY"@), "(untitled)"@),
        notes: ical_non_blank(props, "DESCRIPTION"@),
        due: match due {
            Some((day, _)) => Some(day),
            None => None,
        },
        completed: ical::value_of(props, "STATUS"@) == Some("COMPLETED"@) || ical::first_named(
            props,
            "COMPLETED"@,
        ) is Some,
    }
}

/// Whether `r` is what [`task_from_ical`] can make of a VTODO, whatever the
/// local zone.
pub open spec fn ical_task_read(
    account: Seq<char>,
    tasklist_id: Seq<char>,
    tasklist_title: Seq<char>,
    href: Seq<char>,
    props: Seq<PropertyV>,
    r: TaskView,
) -> bool {
    exists|due: Option<Moment>| #[trigger]
        ical::local_answer(moment_at(props, "DUE"@), due) && r == task_from_ical(
            account,
            tasklist_id,
            tasklist_title,
            href,
            props,
            ical::placed(moment_at(props, "DUE"@), due),
        )
}

/// Cuts a text behind its tenth octet; the flag says whether a character ends
/// there.
fn cut(s: &str) -> (r: (String, bool))
    ensures
        r.0@ == due_prefix(s@),
        r.1 == cuttable(s@),
{
    let cs = text::chars_of(s);
    let mut end: usize = 0;
    let mut left: usize = DUE_OCTETS;
    assert(s@.skip(0) == s@);
    assert(s@.take(0) == Seq::<char>::empty());
    while end < cs.len() && text::width(cs[end]) <= left
        invariant
            cs@ == s@,
            end <= cs@.len(),
            left <= DUE_OCTETS,
            text::octets(s@.take(end as int)) == DUE_OCTETS - left,
            text::fitting(s@, DUE_OCTETS as int) == end + text::fitting(
                s@.skip(end as int),
                left as int,
            ),
        decreases cs.len() - end,
    {
        assert(s@.skip(end as int).drop_first() == s@.skip(end + 1));
        assert(s@.take(end + 1) == s@.take(end as int) + seq![s@[end as int]]);
        proof {
            text::lemma_octets_add(s@.take(end as int), seq![s@[end as int]]);
        }
        left -= text::width(cs[end]);
        end += 1;
    }
    proof {
        text::lemma_fitting(s@, DUE_OCTETS as int);
    }
    (text::string_of(&cs, 0, end), end == cs.len() || left == 0)
}

impl Task {
    /// Whether the due time of an entry can be cut behind the day.
    pub fn due_is_cuttable(v: &Json) -> (r: bool)
        ensures
            r == due_cuttable(v.deep_view()),
    {
        match v.str_at("due") {
            Some(due) => cut(due).1,
            None => true,
        }
    }

    /// Reads an entry of a task list.
    pub fn from_json(
        account: &str,
        tasklist_id: &str,
        tasklist_title: &str,
        v: &Json,
    ) -> (r: Option<Self>)
        requires
            due_cuttable(v.deep_view()),
        ensures
            r.deep_view() == task_from(account@, tasklist_id@, tasklist_title@, v.deep_view()),
            due_read_faithfully(v.deep_view()),
    {
        let due = match v.str_at("due") {
            Some(due) => time::parse_date(cut(due).0.as_str(), "%Y-%m-%d"),
            None => None,
        };
        match v.str_at("id") {
            None => None,
            Some(id) => Some(
                Task {
                    account: account.to_owned(),
                    tasklist_id: tasklist_id.to_owned(),
                    tasklist_title: tasklist_title.to_owned(),
                    id: id.to_owned(),
                    title: match v.non_blank_at("title") {
                        Some(title) => title,
                        None => "(untitled)".to_owned(),
                    },
                    notes: v.non_blank_at("notes"),
                    due,
                    completed: v.is_at("status", "completed"),
                },
            ),
        }
    }

    /// Builds a task from a VTODO, given where DUE lies.
    pub fn from_ical_at(
        account: &str,
        tasklist_id: &str,
        tasklist_title: &str,
        href: &str,
        todo: &IcalTodo,
        due: Option<(Date, Option<Moment>)>,
    ) -> (r: Self)
        ensures
            r.deep_view() == task_from_ical(
                account@,
                tasklist_id@,
                tasklist_title@,
                href@,
                todo.deep_view().properties,
                due,
            ),
    {
        let title = match read_ical_non_blank(&todo.properties, "SUMMARY") {
            Some(title) => title,
            None => "(untitled)".to_owned(),
        };
        let completed = text::is_text(
            ical::ical_value(&todo.properties, "STATUS"),
            "COMPLETED",
        ) || ical::ical_prop(&todo.properties, "COMPLETED").is_some();
        Task {
            account: account.to_owned(),
            tasklist_id: tasklist_id.to_owned(),
            tasklist_title: tasklist_title.to_owned(),
            id: href.to_owned(),
            title,
            notes: read_ical_non_blank(&todo.properties, "DESCRIPTION"),
            due: match due {
                Some((day, _)) => Some(day),
                None => None,
            },
            completed,
        }
    }

    /// Builds a task from a VTODO; `href` becomes its id. There always is one.
    pub fn from_ical(
        account: &str,
        tasklist_id: &str,
        tasklist_title: &str,
        href: &str,
        todo: &IcalTodo,
    ) -> (r: Option<Self>)
        ensures
            r matches Some(task) && ical_task_read(
                account@,
                tasklist_id@,
                tasklist_title@,
                href@,
                todo.deep_view().properties,
                task.deep_view(),
            ),
            faithful_at(todo.deep_view().properties, "DUE"@),
    {
        let w = read_moment_at(&todo.properties, "DUE");
        let local = ical::ask_local(w);
        let due = ical::place(w, local);
        Some(Self::from_ical_at(account, tasklist_id, tasklist_title, href, todo, due))
    }
}

// ---------------------------------------------------------------------
// Laws
// ---------------------------------------------------------------------

/// An all-day event ends no earlier than it starts, so it is shown on its first
/// day; and a one-day event, whose end is given as the next day, is shown on
/// that day alone.
pub proof fn law_all_day_is_shown_on_its_first_day(start: Date, end: Date)
    requires
        start.valid(),
        end.valid(),
    ensures
        start.days <= last_day(true, start, end).days,
        end.days == start.days + 1 ==> last_day(true, start, end) == start,
        end.days > start.days ==> last_day(true, start, end).days == end.days - 1,
{
}

/// A cancelled event is never shown.
pub proof fn law_cancelled_is_dropped(
    account: Seq<char>,
    calendar_id: Seq<char>,
    calendar_name: Seq<char>,
    v: JsonV,
    r: Option<EventView>,
)
    requires
        v.text_at("status"@) == Some("cancelled"@),
        event_read(account, calendar_id, calendar_name, v, r),
    ensures
        r is None,
{
}

pub proof fn lemma_guests_that(guests: Seq<AttendeeView>, organizer: bool, is_self: bool)
    ensures
        forall|i: int|
            0 <= i < guests_that(guests, organizer, is_self).len() ==> (#[trigger] guests_that(
                guests,
                organizer,
                is_self,
            )[i]).organizer == organizer && guests_that(guests, organizer, is_self)[i].is_self
                == is_self,
    decreases guests.len(),
{
    reveal(Seq::filter);
    if guests.len() > 0 {
        lemma_guests_that(guests.drop_last(), organizer, is_self);
        assert(guests == guests.drop_last().push(guests.last()));
        lemma_guests_push(guests.drop_last(), guests.last(), organizer, is_self);
    }
}

/// Organizers come first: nobody who is no organizer stands before one.
pub proof fn law_organizer_first(guests: Seq<AttendeeView>, i: int, j: int)
    requires
        0 <= i < j < ranked(guests).len(),
        ranked(guests)[j].organizer,
    ensures
        ranked(guests)[i].organizer,
{
    lemma_guests_that(guests, true, true);
    lemma_guests_that(guests, true, false);
    lemma_guests_that(guests, false, true);
    lemma_guests_that(guests, false, false);
    let a = guests_that(guests, true, true);
    let b = guests_that(guests, true, false);
    let c = guests_that(guests, false, true);
    let d = guests_that(guests, false, false);
    let n = a.len() + b.len();
    if j >= n {
        if j < n + c.len() {
            assert(ranked(guests)[j] == c[j - n]);
        } else {
            assert(ranked(guests)[j] == d[j - n - c.len()]);
        }
    }
    if i < a.len() {
        assert(ranked(guests)[i] == a[i]);
    } else {
        assert(ranked(guests)[i] == b[i - a.len()]);
    }
}

/// Ranking guests neither loses nor invents one.
pub proof fn law_ranking_keeps_every_guest(guests: Seq<AttendeeView>)
    ensures
        ranked(guests).to_multiset() == guests.to_multiset(),
    decreases guests.len(),
{
    broadcast use vstd::seq_lib::group_to_multiset_ensures;

    reveal(Seq::filter);
    let e = Seq::<AttendeeView>::empty();
    if guests.len() == 0 {
        assert(guests == e);
        assert(ranked(guests) == e);
    } else {
        let g = guests.last();
        let front = guests.drop_last();
        law_ranking_keeps_every_guest(front);
        assert(guests == front.push(g));
        lemma_guests_push(front, g, true, true);
        lemma_guests_push(front, g, true, false);
        lemma_guests_push(front, g, false, true);
        lemma_guests_push(front, g, false, false);
        let (a, b) = (guests_that(front, true, true), guests_that(front, true, false));
        let (c, d) = (guests_that(front, false, true), guests_that(front, false, false));
        let at = if g.organizer && g.is_self {
            a.len() as int
        } else if g.organizer {
            (a.len() + b.len()) as int
        } else if g.is_self {
            (a.len() + b.len() + c.len()) as int
        } else {
            (a.len() + b.len() + c.len() + d.len()) as int
        };
        assert(ranked(guests) == ranked(front).insert(at, g));
    }
}

} // verus!
