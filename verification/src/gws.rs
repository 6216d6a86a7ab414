//! The Google backend: invocations of the `gws` command, and what is made of its
//! answers.

use vstd::prelude::*;

use crate::backend;
use crate::backend::{AccountData, AccountDataView, EventDraft, EventDraftView, TaskDraft, TaskDraftView};
use crate::config::{Account, AccountView};
use crate::daemon;
use crate::ical;
use crate::ical::When;
use crate::json;
use crate::json::{Json, JsonV};
use crate::model;
use crate::model::{AttendeeView, Calendar, CalendarView, Event, EventView, Task, TaskList, TaskListView, TaskView};
use crate::roundtrip;
use crate::text;
use crate::time;
use crate::time::{Date, Moment};

verus! {

// ---------------------------------------------------------------------
// JSON objects
// ---------------------------------------------------------------------

/// The orders of the keys that stand side by side.
proof fn lemma_key_order()
    ensures
        text::text_lt("attendees"@, "conferenceData"@),
        text::text_lt("attendees"@, "description"@),
        text::text_lt("conferenceData"@, "description"@),
        text::text_lt("description"@, "end"@),
        text::text_lt("end"@, "location"@),
        text::text_lt("location"@, "start"@),
        text::text_lt("start"@, "summary"@),
        text::text_lt("conferenceSolutionKey"@, "requestId"@),
        text::text_lt("calendarId"@, "maxResults"@),
        text::text_lt("maxResults"@, "orderBy"@),
        text::text_lt("orderBy"@, "singleEvents"@),
        text::text_lt("singleEvents"@, "timeMax"@),
        text::text_lt("timeMax"@, "timeMin"@),
        text::text_lt("calendarId"@, "conferenceDataVersion"@),
        text::text_lt("conferenceDataVersion"@, "sendUpdates"@),
        text::text_lt("conferenceDataVersion"@, "eventId"@),
        text::text_lt("eventId"@, "sendUpdates"@),
        text::text_lt("calendarId"@, "eventId"@),
        text::text_lt("task"@, "tasklist"@),
        text::text_lt("maxResults"@, "showCompleted"@),
        text::text_lt("showCompleted"@, "tasklist"@),
        text::text_lt("due"@, "id"@),
        text::text_lt("due"@, "notes"@),
        text::text_lt("due"@, "title"@),
        text::text_lt("id"@, "notes"@),
        text::text_lt("id"@, "status"@),
        text::text_lt("notes"@, "status"@),
        text::text_lt("notes"@, "title"@),
        text::text_lt("status"@, "title"@),
{
    reveal_strlit("attendees");
    reveal_strlit("conferenceData");
    reveal_strlit("description");
    reveal_strlit("end");
    reveal_strlit("location");
    reveal_strlit("start");
    reveal_strlit("summary");
    reveal_strlit("conferenceSolutionKey");
    reveal_strlit("requestId");
    reveal_strlit("calendarId");
    reveal_strlit("maxResults");
    reveal_strlit("orderBy");
    reveal_strlit("singleEvents");
    reveal_strlit("timeMax");
    reveal_strlit("timeMin");
    reveal_strlit("conferenceDataVersion");
    reveal_strlit("sendUpdates");
    reveal_strlit("eventId");
    reveal_strlit("task");
    reveal_strlit("tasklist");
    reveal_strlit("showCompleted");
    reveal_strlit("due");
    reveal_strlit("id");
    reveal_strlit("notes");
    reveal_strlit("title");
    reveal_strlit("status");
    reveal_with_fuel(text::text_lt, 7);
}

/// Members of an object: once each, in the order of their keys, canonical.
pub open spec fn proper(members: Seq<(Seq<char>, JsonV)>) -> bool {
    json::canonical(JsonV::Object(members))
}

proof fn lemma_proper_push(members: Seq<(Seq<char>, JsonV)>, key: Seq<char>, value: JsonV)
    requires
        proper(members),
        json::canonical(value),
        members.len() > 0 ==> text::text_lt(members.last().0, key),
    ensures
        proper(members.push((key, value))),
{
    let all = members.push((key, value));
    assert forall|i: int, j: int| 0 <= i < j < all.len() implies text::text_lt(
        #[trigger] all[i].0,
        #[trigger] all[j].0,
    ) by {
        if j == members.len() {
            if i < members.len() - 1 {
                assert(text::text_lt(members[i].0, members[members.len() - 1].0));
                text::lemma_text_lt_transitive(members[i].0, members.last().0, key);
            }
        } else {
            assert(text::text_lt(members[i].0, members[j].0));
        }
    }
    assert forall|i: int| 0 <= i < all.len() implies json::canonical((#[trigger] all[i]).1) by {
        if i < members.len() {
            assert(all[i] == members[i]);
        }
    }
}

/// Adds a member behind the others.
fn put(members: &mut Vec<(String, Json)>, key: &str, value: Json)
    requires
        proper(json::members_view(old(members)@)),
        json::canonical(value.deep_view()),
        old(members)@.len() > 0 ==> text::text_lt(
            json::members_view(old(members)@).last().0,
            key@,
        ),
    ensures
        json::members_view(final(members)@) == json::members_view(old(members)@).push(
            (key@, value.deep_view()),
        ),
        proper(json::members_view(final(members)@)),
        final(members)@.len() == old(members)@.len() + 1,
{
    let ghost before = members@;
    proof {
        json::lemma_members_view(before);
        lemma_proper_push(json::members_view(before), key@, value.deep_view());
    }
    members.push((key.to_owned(), value));
    assert(members@.drop_last() == before);
}

/// A text.
pub open spec fn str_of(s: Seq<char>) -> JsonV {
    JsonV::Str(s)
}

/// An object of one member.
pub open spec fn single(key: Seq<char>, value: JsonV) -> JsonV {
    JsonV::Object(seq![(key, value)])
}

/// An object of one member.
fn one(key: &str, value: Json) -> (r: Json)
    requires
        json::canonical(value.deep_view()),
    ensures
        r.deep_view() == single(key@, value.deep_view()),
        json::canonical(r.deep_view()),
{
    let mut members: Vec<(String, Json)> = Vec::new();
    assert(json::members_view(members@) == Seq::<(Seq<char>, JsonV)>::empty());
    put(&mut members, key, value);
    assert(json::members_view(members@) == seq![(key@, value.deep_view())]);
    Json::Object(members)
}

/// A text.
fn string(s: &str) -> (r: Json)
    ensures
        r.deep_view() == str_of(s@),
{
    Json::Str(s.to_owned())
}

// ---------------------------------------------------------------------
// Invocations
// ---------------------------------------------------------------------

/// One run of the command: where it finds its configuration, and its arguments.
#[derive(Debug)]
pub struct Invocation {
    pub config_dir: String,
    pub credentials_file: String,
    pub args: Vec<String>,
}

/// The model of an [`Invocation`].
#[verifier::ext_equal]
pub struct InvocationView {
    pub config_dir: Seq<char>,
    pub credentials_file: Seq<char>,
    pub args: Seq<Seq<char>>,
}

impl View for Invocation {
    type V = InvocationView;

    open spec fn view(&self) -> InvocationView {
        InvocationView {
            config_dir: self.config_dir@,
            credentials_file: self.credentials_file@,
            args: self.args.deep_view(),
        }
    }
}

/// An option and its JSON text, where there is one.
pub open spec fn json_arg(option: Seq<char>, v: Option<JsonV>) -> Seq<Seq<char>> {
    match v {
        Some(v) => seq![option, json::json_text(v)],
        None => Seq::empty(),
    }
}

/// One run of the command for an account, or what the account lacks.
pub open spec fn invocation(
    a: AccountView,
    words: Seq<Seq<char>>,
    params: Option<JsonV>,
    body: Option<JsonV>,
) -> Result<InvocationView, Seq<char>> {
    match (a.config_dir, a.credentials_file) {
        (None, _) => Err("["@ + a.name + "] missing config_dir"@),
        (Some(_), None) => Err("["@ + a.name + "] missing credentials_file"@),
        (Some(config_dir), Some(credentials_file)) => Ok(
            InvocationView {
                config_dir,
                credentials_file,
                args: words + json_arg("--params"@, params) + json_arg("--json"@, body),
            },
        ),
    }
}

/// The model of an optional value.
pub open spec fn option_view(v: Option<Json>) -> Option<JsonV> {
    match v {
        Some(v) => Some(v.deep_view()),
        None => None,
    }
}

/// The model of a planned run.
pub open spec fn plan_view(r: Result<Invocation, String>) -> Result<InvocationView, Seq<char>> {
    match r {
        Ok(i) => Ok(i@),
        Err(e) => Err(e@),
    }
}

/// Whether an optional value is canonical.
pub open spec fn proper_option(v: Option<Json>) -> bool {
    v matches Some(v) ==> json::canonical(v.deep_view())
}

/// Plans one run of the command for an account.
pub fn run(account: &Account, words: Vec<String>, params: Option<Json>, body: Option<Json>) -> (r:
    Result<Invocation, String>)
    requires
        proper_option(params),
        proper_option(body),
    ensures
        plan_view(r) == invocation(
            account.deep_view(),
            words.deep_view(),
            option_view(params),
            option_view(body),
        ),
{
    let config_dir = match &account.config_dir {
        Some(s) => s.clone(),
        None => return Err(text::concat3("[", account.name.as_str(), "] missing config_dir")),
    };
    let credentials_file = match &account.credentials_file {
        Some(s) => s.clone(),
        None => return Err(
            text::concat3("[", account.name.as_str(), "] missing credentials_file"),
        ),
    };
    let ghost w = words.deep_view();
    let mut args = words;
    if let Some(p) = &params {
        args.push("--params".to_owned());
        args.push(json::write_json(p));
    }
    assert(args.deep_view() == w + json_arg("--params"@, option_view(params)));
    let ghost w2 = args.deep_view();
    if let Some(b) = &body {
        args.push("--json".to_owned());
        args.push(json::write_json(b));
    }
    assert(args.deep_view() == w2 + json_arg("--json"@, option_view(body)));
    Ok(Invocation { config_dir, credentials_file, args })
}

/// What came of a run.
#[derive(Debug)]
pub enum Outcome {
    /// The command could not be run, and why.
    NotRun(String),
    /// The command ended: whether with success, what it wrote, and what it wrote
    /// of errors.
    Ended(bool, String, String),
}

/// Behind the last line feed; all of `s` where there is none.
pub open spec fn behind_last_feed(s: Seq<char>) -> Seq<char>
    decreases s.len(),
{
    if s.len() == 0 || s.last() == '\n' {
        Seq::empty()
    } else {
        behind_last_feed(s.drop_last()).push(s.last())
    }
}

/// The last line of a text, trimmed, a line feed at the very end not counted;
/// none of an empty text.
pub open spec fn last_line(s: Seq<char>) -> Option<Seq<char>> {
    if s.len() == 0 {
        None
    } else if s.last() == '\n' {
        Some(text::trimmed(behind_last_feed(s.drop_last())))
    } else {
        Some(text::trimmed(behind_last_feed(s)))
    }
}

/// What a run says: a value, nothing where the command wrote nothing, or what
/// went wrong.
pub open spec fn answer(account: Seq<char>, words: Seq<Seq<char>>, outcome: Outcome) -> Result<
    JsonV,
    Seq<char>,
> {
    match outcome {
        Outcome::NotRun(e) => Err("["@ + account + "] cannot run gws: "@ + e@),
        Outcome::Ended(succeeded, out, err) => if !succeeded {
            Err(
                "["@ + account + "] gws "@ + text::joined(words, " "@) + " failed: "@
                    + model::or_text(last_line(err@), "unknown error"@),
            )
        } else if text::trimmed(out@).len() == 0 {
            Ok(JsonV::Null)
        } else {
            match json::json_reading(text::trimmed(out@)) {
                Ok(v) => Ok(v),
                Err(e) => Err("["@ + account + "] bad JSON from gws: "@ + e),
            }
        },
    }
}

/// Reads the last line of a text.
fn read_last_line(s: &str) -> (r: Option<String>)
    ensures
        r.deep_view() == last_line(s@),
{
    let cs = text::chars_of(s);
    if cs.len() == 0 {
        return None;
    }
    let end: usize = if cs[cs.len() - 1] == '\n' {
        cs.len() - 1
    } else {
        cs.len()
    };
    let ghost part = cs@.take(end as int);
    assert(part == if s@.last() == '\n' {
        s@.drop_last()
    } else {
        s@
    });
    let mut start: usize = end;
    let ghost empty = Seq::<char>::empty();
    assert(part.take(end as int) == part);
    assert(part.subrange(end as int, end as int) == empty);
    assert(behind_last_feed(part) + empty == behind_last_feed(part));
    while start > 0 && cs[start - 1] != '\n'
        invariant
            start <= end <= cs@.len(),
            part == cs@.take(end as int),
            behind_last_feed(part) == behind_last_feed(part.take(start as int)) + part.subrange(
                start as int,
                end as int,
            ),
        decreases start,
    {
        let ghost t = part.take(start as int);
        assert(t.drop_last() == part.take(start - 1));
        assert(t.last() == part[start - 1]);
        assert(behind_last_feed(t.drop_last()).push(t.last()) + part.subrange(
            start as int,
            end as int,
        ) == behind_last_feed(t.drop_last()) + part.subrange(start - 1, end as int));
        start -= 1;
    }
    let ghost t = part.take(start as int);
    assert(behind_last_feed(t) == empty) by {
        if start > 0 {
            assert(t.last() == part[start - 1]);
        }
    }
    let line = text::string_of(&cs, start, end);
    assert(line@ == part.subrange(start as int, end as int));
    assert(empty + line@ == line@);
    Some(text::trim(line.as_str()))
}

/// Reads what a run says.
pub fn run_answer(account: &Account, words: &Vec<String>, outcome: Outcome) -> (r: Result<
    Json,
    String,
>)
    ensures
        (match r {
            Ok(v) => Ok(v.deep_view()),
            Err(e) => Err(e@),
        }) == answer(account.name@, words.deep_view(), outcome),
{
    match outcome {
        Outcome::NotRun(e) => {
            let mut out = text::concat3("[", account.name.as_str(), "] cannot run gws: ");
            out.push_str(e.as_str());
            Err(out)
        },
        Outcome::Ended(succeeded, out, err) => {
            if !succeeded {
                let mut message = text::concat3("[", account.name.as_str(), "] gws ");
                message.push_str(text::join(words, " ").as_str());
                message.push_str(" failed: ");
                match read_last_line(err.as_str()) {
                    Some(line) => {
                        message.push_str(line.as_str());
                    },
                    None => {
                        message.push_str("unknown error");
                    },
                }
                return Err(message);
            }
            let trimmed = text::trim(out.as_str());
            if trimmed.as_str().is_empty() {
                return Ok(Json::Null);
            }
            match json::read_json(trimmed.as_str()) {
                Ok(v) => Ok(v),
                Err(e) => {
                    let mut message = text::concat3(
                        "[",
                        account.name.as_str(),
                        "] bad JSON from gws: ",
                    );
                    message.push_str(e.as_str());
                    Err(message)
                },
            }
        },
    }
}

/// The words of a command.
fn words3(a: &str, b: &str, c: &str) -> (r: Vec<String>)
    ensures
        r.deep_view() == seq![a@, b@, c@],
{
    let mut out: Vec<String> = Vec::new();
    out.push(a.to_owned());
    out.push(b.to_owned());
    out.push(c.to_owned());
    assert(out.deep_view() == seq![a@, b@, c@]);
    out
}

// ---------------------------------------------------------------------
// Listing
// ---------------------------------------------------------------------

/// The calendar of an entry that the user shows.
pub open spec fn listed_calendar(account: Seq<char>, c: JsonV) -> Option<CalendarView> {
    if c.truth_at("selected"@) == Some(true) {
        model::calendar_from(account, c)
    } else {
        None
    }
}

/// The calendars of a list: those that the user shows.
pub open spec fn calendars_listed(account: Seq<char>, v: JsonV) -> Seq<CalendarView> {
    v.items_at("items"@).filter_map(|c: JsonV| listed_calendar(account, c))
}

/// The type of an event.
pub open spec fn event_type(e: JsonV) -> Seq<char> {
    model::or_text(e.text_at("eventType"@), "default"@)
}

/// Whether each result is what can be made of the entry at its position; nothing
/// of an entry whose type is hidden.
pub open spec fn event_results(
    account: Seq<char>,
    cal: CalendarView,
    items: Seq<JsonV>,
    hidden: Seq<Seq<char>>,
    results: Seq<Option<EventView>>,
) -> bool {
    &&& results.len() == items.len()
    &&& forall|i: int| #![trigger results[i]]
        0 <= i < items.len() ==> if hidden.contains(event_type(items[i])) {
            results[i] is None
        } else {
            model::event_read(account, cal.id, cal.summary, items[i], results[i])
        } && (results[i] matches Some(e) ==> e.wf())
}

/// Whether these are the events that a list holds, in order, those of hidden
/// types left out.
pub open spec fn events_listed(
    account: Seq<char>,
    cal: CalendarView,
    v: JsonV,
    hidden: Seq<Seq<char>>,
    made: Seq<EventView>,
) -> bool {
    exists|results: Seq<Option<EventView>>| #[trigger]
        event_results(account, cal, v.items_at("items"@), hidden, results) && made
            == backend::present(results)
}

/// The task lists of a list.
pub open spec fn tasklists_listed(account: Seq<char>, v: JsonV) -> Seq<TaskListView> {
    v.items_at("items"@).filter_map(|t: JsonV| model::tasklist_from(account, t))
}

/// The tasks of a list.
pub open spec fn tasks_listed(account: Seq<char>, list: TaskListView, v: JsonV) -> Seq<TaskView> {
    v.items_at("items"@).filter_map(|t: JsonV| model::task_from(account, list.id, list.title, t))
}

/// Whether the due time of every task of a list can be cut behind the day.
pub open spec fn tasks_cuttable(v: JsonV) -> bool {
    forall|i: int|
        0 <= i < v.items_at("items"@).len() ==> model::due_cuttable(
            #[trigger] v.items_at("items"@)[i],
        )
}

/// Decides [`tasks_cuttable`].
pub fn tasks_are_cuttable(v: &Json) -> (r: bool)
    ensures
        r == tasks_cuttable(v.deep_view()),
{
    let ghost all = v.deep_view().items_at("items"@);
    match v.array_at("items") {
        None => true,
        Some(items) => {
            proof {
                json::lemma_items_view(items@);
            }
            let mut i: usize = 0;
            while i < items.len()
                invariant
                    i <= items@.len() == all.len(),
                    all == v.deep_view().items_at("items"@),
                    forall|j: int|
                        0 <= j < items@.len() ==> #[trigger] all[j] == items@[j].deep_view(),
                    forall|j: int| 0 <= j < i ==> model::due_cuttable(#[trigger] all[j]),
                decreases items.len() - i,
            {
                if !Task::due_is_cuttable(&items[i]) {
                    assert(!model::due_cuttable(all[i as int]));
                    return false;
                }
                i += 1;
            }
            true
        },
    }
}

/// Reads the calendars of a list.
pub fn list_calendars(account: &Account, v: &Json) -> (r: Vec<Calendar>)
    ensures
        r.deep_view() == calendars_listed(account.name@, v.deep_view()),
{
    let ghost all = v.deep_view().items_at("items"@);
    let mut out: Vec<Calendar> = Vec::new();
    match v.array_at("items") {
        None => {
            assert(all == Seq::<JsonV>::empty());
        },
        Some(items) => {
            proof {
                json::lemma_items_view(items@);
            }
            let mut i: usize = 0;
            while i < items.len()
                invariant
                    i <= items@.len() == all.len(),
                    forall|j: int|
                        0 <= j < items@.len() ==> #[trigger] all[j] == items@[j].deep_view(),
                    out.deep_view() == all.take(i as int).filter_map(
                        |c: JsonV| listed_calendar(account.name@, c),
                    ),
                decreases items.len() - i,
            {
                let ghost before = out.deep_view();
                assert(all.take(i + 1).drop_last() == all.take(i as int));
                assert(all.take(i + 1).last() == items@[i as int].deep_view());
                if items[i].bool_at("selected") == Some(true) {
                    if let Some(c) = Calendar::from_json(account.name.as_str(), &items[i]) {
                        out.push(c);
                        assert(out.deep_view() == before + seq![c.deep_view()]);
                    }
                }
                i += 1;
            }
            assert(all.take(i as int) == all);
        },
    }
    out
}

/// Reads the events of a list, those of hidden types left out.
pub fn list_events(account: &Account, cal: &Calendar, v: &Json, hide_types: &Vec<String>) -> (r: Vec<
    Event,
>)
    ensures
        events_listed(
            account.name@,
            cal.deep_view(),
            v.deep_view(),
            hide_types.deep_view(),
            r.deep_view(),
        ),
        backend::events_wf(r.deep_view()),
{
    let ghost all = v.deep_view().items_at("items"@);
    let ghost hidden = hide_types.deep_view();
    let ghost mut results: Seq<Option<EventView>> = Seq::empty();
    let mut out: Vec<Event> = Vec::new();
    assert(out.deep_view() == backend::present(results));
    match v.array_at("items") {
        None => {},
        Some(items) => {
            proof {
                json::lemma_items_view(items@);
            }
            let mut i: usize = 0;
            while i < items.len()
                invariant
                    i <= items@.len() == all.len(),
                    hidden == hide_types.deep_view(),
                    forall|j: int|
                        0 <= j < items@.len() ==> #[trigger] all[j] == items@[j].deep_view(),
                    results.len() == i,
                    forall|j: int| #![trigger results[j]]
                        0 <= j < i ==> if hidden.contains(event_type(all[j])) {
                            results[j] is None
                        } else {
                            model::event_read(
                                account.name@,
                                cal.deep_view().id,
                                cal.deep_view().summary,
                                all[j],
                                results[j],
                            )
                        } && (results[j] matches Some(e) ==> e.wf()),
                    out.deep_view() == backend::present(results),
                    backend::events_wf(out.deep_view()),
                decreases items.len() - i,
            {
                let ghost before = out.deep_view();
                assert(all[i as int] == items@[i as int].deep_view());
                let kind = items[i].str_or("eventType", "default");
                let made = if text::holds(hide_types, kind.as_str()) {
                    None
                } else {
                    Event::from_json(
                        account.name.as_str(),
                        cal.id.as_str(),
                        cal.summary.as_str(),
                        &items[i],
                    )
                };
                let ghost next = results.push(made.deep_view());
                assert(next.drop_last() == results);
                assert(forall|j: int| 0 <= j < i ==> next[j] == results[j]);
                if let Some(ev) = made {
                    out.push(ev);
                    assert(out.deep_view() == before + seq![ev.deep_view()]);
                }
                proof {
                    results = next;
                }
                i += 1;
            }
        },
    }
    assert(event_results(account.name@, cal.deep_view(), all, hidden, results));
    out
}

/// Reads the task lists of a list.
pub fn list_tasklists(account: &Account, v: &Json) -> (r: Vec<TaskList>)
    ensures
        r.deep_view() == tasklists_listed(account.name@, v.deep_view()),
{
    let ghost all = v.deep_view().items_at("items"@);
    let mut out: Vec<TaskList> = Vec::new();
    match v.array_at("items") {
        None => {
            assert(all == Seq::<JsonV>::empty());
        },
        Some(items) => {
            proof {
                json::lemma_items_view(items@);
            }
            let mut i: usize = 0;
            while i < items.len()
                invariant
                    i <= items@.len() == all.len(),
                    forall|j: int|
                        0 <= j < items@.len() ==> #[trigger] all[j] == items@[j].deep_view(),
                    out.deep_view() == all.take(i as int).filter_map(
                        |t: JsonV| model::tasklist_from(account.name@, t),
                    ),
                decreases items.len() - i,
            {
                let ghost before = out.deep_view();
                assert(all.take(i + 1).drop_last() == all.take(i as int));
                assert(all.take(i + 1).last() == items@[i as int].deep_view());
                if let Some(t) = TaskList::from_json(account.name.as_str(), &items[i]) {
                    out.push(t);
                    assert(out.deep_view() == before + seq![t.deep_view()]);
                }
                i += 1;
            }
            assert(all.take(i as int) == all);
        },
    }
    out
}

/// Reads the tasks of a list.
pub fn list_tasks(account: &Account, list: &TaskList, v: &Json) -> (r: Vec<Task>)
    requires
        tasks_cuttable(v.deep_view()),
    ensures
        r.deep_view() == tasks_listed(account.name@, list.deep_view(), v.deep_view()),
{
    let ghost all = v.deep_view().items_at("items"@);
    let mut out: Vec<Task> = Vec::new();
    match v.array_at("items") {
        None => {
            assert(all == Seq::<JsonV>::empty());
        },
        Some(items) => {
            proof {
                json::lemma_items_view(items@);
            }
            let mut i: usize = 0;
            while i < items.len()
                invariant
                    i <= items@.len() == all.len(),
                    forall|j: int|
                        0 <= j < items@.len() ==> #[trigger] all[j] == items@[j].deep_view(),
                    forall|j: int| 0 <= j < all.len() ==> model::due_cuttable(#[trigger] all[j]),
                    out.deep_view() == all.take(i as int).filter_map(
                        |t: JsonV|
                            model::task_from(
                                account.name@,
                                list.deep_view().id,
                                list.deep_view().title,
                                t,
                            ),
                    ),
                decreases items.len() - i,
            {
                let ghost before = out.deep_view();
                assert(all.take(i + 1).drop_last() == all.take(i as int));
                assert(all.take(i + 1).last() == items@[i as int].deep_view());
                assert(model::due_cuttable(all[i as int]));
                if let Some(t) = Task::from_json(
                    account.name.as_str(),
                    list.id.as_str(),
                    list.title.as_str(),
                    &items[i],
                ) {
                    out.push(t);
                    assert(out.deep_view() == before + seq![t.deep_view()]);
                }
                i += 1;
            }
            assert(all.take(i as int) == all);
        },
    }
    out
}

// ---------------------------------------------------------------------
// Bodies
// ---------------------------------------------------------------------

/// The start or end of an event: a day, or a time.
pub open spec fn boundary(all_day: bool, day: Date, m: Option<Moment>) -> JsonV {
    if all_day {
        single("date"@, str_of(time::date_text(day.days, "%Y-%m-%d"@)))
    } else {
        single("dateTime"@, str_of(time::rfc3339_text(m->0.secs, m->0.nanos, m->0.offset)))
    }
}

/// The day behind the last one: all-day ends are exclusive.
pub open spec fn exclusive_end(d: EventDraftView) -> Date {
    Date { days: (d.end_date.days + 1) as i32 }
}

/// The guests of an event.
pub open spec fn guest_list(emails: Seq<Seq<char>>) -> JsonV {
    JsonV::Array(emails.map_values(|email: Seq<char>| single("email"@, str_of(email))))
}

/// Milliseconds since the epoch.
pub open spec fn millis(now: Moment) -> int {
    now.secs * 1000 + now.nanos as int / 1_000_000
}

/// The request for a video call, under an id made of the time.
pub open spec fn meet_request(now: Moment) -> JsonV {
    single(
        "createRequest"@,
        JsonV::Object(
            seq![
                ("conferenceSolutionKey"@, single("type"@, str_of("hangoutsMeet"@))),
                ("requestId"@, str_of("waycal-"@ + text::signed_numeral(millis(now)))),
            ],
        ),
    )
}

/// A member, where a condition holds.
pub open spec fn member_if(condition: bool, key: Seq<char>, value: JsonV) -> Seq<
    (Seq<char>, JsonV),
> {
    if condition {
        seq![(key, value)]
    } else {
        Seq::empty()
    }
}

/// The body of an event: guests where they are forced in or there are any, the
/// request for a video call where it is wanted, and the fields of the draft.
pub open spec fn event_json(d: EventDraftView, include_attendees: bool, now: Moment) -> JsonV {
    JsonV::Object(
        member_if(
            include_attendees || d.attendees.len() > 0,
            "attendees"@,
            guest_list(d.attendees),
        ) + member_if(d.add_meet, "conferenceData"@, meet_request(now)) + seq![
            ("description"@, str_of(d.description)),
            ("end"@, boundary(d.all_day, exclusive_end(d), d.end_time)),
            ("location"@, str_of(d.location)),
            ("start"@, boundary(d.all_day, d.start_date, d.start_time)),
            ("summary"@, str_of(d.summary)),
        ],
    )
}

/// A day as a boundary.
fn day_boundary(day: Date) -> (r: Json)
    requires
        day.valid(),
    ensures
        r.deep_view() == single("date"@, str_of(time::date_text(day.days, "%Y-%m-%d"@))),
        json::canonical(r.deep_view()),
{
    one("date", Json::Str(time::format_date(day, "%Y-%m-%d")))
}

/// A time as a boundary.
fn time_boundary(m: Moment) -> (r: Json)
    requires
        m.valid(),
    ensures
        r.deep_view() == single(
            "dateTime"@,
            str_of(time::rfc3339_text(m.secs, m.nanos, m.offset)),
        ),
        json::canonical(r.deep_view()),
{
    one("dateTime", Json::Str(time::to_rfc3339(m)))
}

/// The guests of an event.
fn guests_json(emails: &Vec<String>) -> (r: Json)
    ensures
        r.deep_view() == guest_list(emails.deep_view()),
        json::canonical(r.deep_view()),
{
    let ghost all = emails.deep_view();
    let ghost f = |email: Seq<char>| single("email"@, str_of(email));
    let mut items: Vec<Json> = Vec::new();
    let mut i: usize = 0;
    while i < emails.len()
        invariant
            i <= emails@.len(),
            all == emails.deep_view(),
            f == (|email: Seq<char>| single("email"@, str_of(email))),
            items@.len() == i,
            json::items_view(items@) == all.take(i as int).map_values(f),
            forall|j: int|
                0 <= j < i ==> json::canonical(#[trigger] json::items_view(items@)[j]),
        decreases emails.len() - i,
    {
        let ghost before = items@;
        let guest = one("email", Json::Str(emails[i].clone()));
        items.push(guest);
        assert(items@.drop_last() == before);
        assert(items@.last() == guest);
        assert(all[i as int] == emails@[i as int]@);
        assert(all.take(i + 1).map_values(f) == all.take(i as int).map_values(f).push(
            f(all[i as int]),
        ));
        i += 1;
    }
    assert(all.take(i as int) == all);
    Json::Array(items)
}

/// The request for a video call.
fn meet_json(now: Moment) -> (r: Json)
    requires
        now.valid(),
    ensures
        r.deep_view() == meet_request(now),
        json::canonical(r.deep_view()),
{
    let id: i64 = now.secs * 1000 + (now.nanos / 1_000_000) as i64;
    proof {
        lemma_key_order();
    }
    let mut members: Vec<(String, Json)> = Vec::new();
    assert(json::members_view(members@) == Seq::<(Seq<char>, JsonV)>::empty());
    put(&mut members, "conferenceSolutionKey", one("type", string("hangoutsMeet")));
    put(
        &mut members,
        "requestId",
        Json::Str(text::concat("waycal-", text::signed_decimal(id).as_str())),
    );
    assert(json::members_view(members@) == seq![
        ("conferenceSolutionKey"@, single("type"@, str_of("hangoutsMeet"@))),
        ("requestId"@, str_of("waycal-"@ + text::signed_numeral(millis(now)))),
    ]);
    one("createRequest", Json::Object(members))
}

/// The body of an event, its request for a video call made at a given time.
/// `include_attendees` forces the guest list in, so that an edit can clear it.
pub fn event_body_at(draft: &EventDraft, include_attendees: bool, now: Moment) -> (r: Json)
    requires
        draft.deep_view().ready(),
        now.valid(),
    ensures
        r.deep_view() == event_json(draft.deep_view(), include_attendees, now),
        json::canonical(r.deep_view()),
{
    let ghost d = draft.deep_view();
    proof {
        lemma_key_order();
    }
    let (start, end) = if draft.all_day {
        (day_boundary(draft.start_date), day_boundary(draft.end_date.plus(1)))
    } else {
        match (draft.start_time, draft.end_time) {
            (Some(s), Some(e)) => (time_boundary(s), time_boundary(e)),
            _ => (time_boundary(now), time_boundary(now)),
        }
    };
    let mut members: Vec<(String, Json)> = Vec::new();
    let ghost empty = Seq::<(Seq<char>, JsonV)>::empty();
    assert(json::members_view(members@) == empty);
    if include_attendees || draft.attendees.len() > 0 {
        put(&mut members, "attendees", guests_json(&draft.attendees));
    }
    let ghost guests = member_if(
        include_attendees || d.attendees.len() > 0,
        "attendees"@,
        guest_list(d.attendees),
    );
    assert(json::members_view(members@) == guests);
    if draft.add_meet {
        put(&mut members, "conferenceData", meet_json(now));
    }
    let ghost front = guests + member_if(d.add_meet, "conferenceData"@, meet_request(now));
    assert(json::members_view(members@) == front);
    put(&mut members, "description", Json::Str(draft.description.clone()));
    put(&mut members, "end", end);
    put(&mut members, "location", Json::Str(draft.location.clone()));
    put(&mut members, "start", start);
    put(&mut members, "summary", Json::Str(draft.summary.clone()));
    assert(json::members_view(members@) == front + seq![
        ("description"@, str_of(d.description)),
        ("end"@, boundary(d.all_day, exclusive_end(d), d.end_time)),
        ("location"@, str_of(d.location)),
        ("start"@, boundary(d.all_day, d.start_date, d.start_time)),
        ("summary"@, str_of(d.summary)),
    ]);
    Json::Object(members)
}

/// The body of an event.
pub fn event_body(draft: &EventDraft, include_attendees: bool) -> (r: Json)
    requires
        draft.deep_view().ready(),
    ensures
        exists|now: Moment|
            now.valid() && r.deep_view() == #[trigger] event_json(
                draft.deep_view(),
                include_attendees,
                now,
            ),
        json::canonical(r.deep_view()),
{
    let now = time::local_now();
    event_body_at(draft, include_attendees, now)
}

/// The due time of a task: midnight UTC of its day.
pub open spec fn due_member(due: Option<Date>) -> Seq<(Seq<char>, JsonV)> {
    match due {
        Some(day) => seq![
            ("due"@, str_of(time::date_text(day.days, "%Y-%m-%d"@) + "T00:00:00.000Z"@)),
        ],
        None => Seq::empty(),
    }
}

/// The body of a task; a task that stands as a whole carries its id and that it
/// is still to do.
pub open spec fn task_json(d: TaskDraftView, whole: Option<Seq<char>>) -> JsonV {
    JsonV::Object(
        due_member(d.due) + (match whole {
            Some(id) => seq![("id"@, str_of(id))],
            None => Seq::empty(),
        }) + member_if(d.notes.len() > 0, "notes"@, str_of(d.notes)) + member_if(
            whole is Some,
            "status"@,
            str_of("needsAction"@),
        ) + seq![("title"@, str_of(d.title))],
    )
}

/// The due day of a task, where it has a four-digit year, is written in ten octets.
pub open spec fn due_fits(d: TaskDraftView) -> bool {
    d.due matches Some(day) ==> (time::four_digit_day(day.days as int) ==> {
        &&& time::date_text(day.days, "%Y-%m-%d"@).len() == 10
        &&& text::octets(time::date_text(day.days, "%Y-%m-%d"@)) == 10
    })
}

/// The body of a task.
pub fn task_body(draft: &TaskDraft, whole: Option<&str>) -> (r: Json)
    requires
        draft.deep_view().ready(),
    ensures
        r.deep_view() == task_json(draft.deep_view(), whole.deep_view()),
        json::canonical(r.deep_view()),
        due_fits(draft.deep_view()),
{
    let ghost d = draft.deep_view();
    proof {
        lemma_key_order();
    }
    let mut members: Vec<(String, Json)> = Vec::new();
    assert(json::members_view(members@) == Seq::<(Seq<char>, JsonV)>::empty());
    if let Some(day) = draft.due {
        let due = text::concat(time::format_date(day, "%Y-%m-%d").as_str(), "T00:00:00.000Z");
        put(&mut members, "due", Json::Str(due));
    }
    let ghost a = due_member(d.due);
    assert(json::members_view(members@) == a);
    if let Some(id) = whole {
        put(&mut members, "id", string(id));
    }
    let ghost b = a + (match whole {
        Some(id) => seq![("id"@, str_of(id@))],
        None => Seq::empty(),
    });
    assert(json::members_view(members@) == b);
    if !draft.notes.as_str().is_empty() {
        put(&mut members, "notes", Json::Str(draft.notes.clone()));
    }
    let ghost c = b + member_if(d.notes.len() > 0, "notes"@, str_of(d.notes));
    assert(json::members_view(members@) == c);
    if whole.is_some() {
        put(&mut members, "status", string("needsAction"));
    }
    let ghost e = c + member_if(whole is Some, "status"@, str_of("needsAction"@));
    assert(json::members_view(members@) == e);
    put(&mut members, "title", Json::Str(draft.title.clone()));
    assert(json::members_view(members@) == e + seq![("title"@, str_of(d.title))]);
    Json::Object(members)
}

// ---------------------------------------------------------------------
// Commands
// ---------------------------------------------------------------------

/// An object of two members.
pub open spec fn pair(k: Seq<char>, v: JsonV, l: Seq<char>, w: JsonV) -> JsonV {
    JsonV::Object(seq![(k, v), (l, w)])
}

/// The words and parameters of the command that lists calendars.
pub open spec fn calendars_command(a: AccountView) -> Result<InvocationView, Seq<char>> {
    invocation(
        a,
        seq!["calendar"@, "calendarList"@, "list"@],
        Some(single("maxResults"@, JsonV::Int(250))),
        None,
    )
}

/// The words and parameters of the command that lists the events of a calendar
/// between two moments.
pub open spec fn events_command(
    a: AccountView,
    calendar_id: Seq<char>,
    from: Moment,
    to: Moment,
) -> Result<InvocationView, Seq<char>> {
    invocation(
        a,
        seq!["calendar"@, "events"@, "list"@],
        Some(
            JsonV::Object(
                seq![
                    ("calendarId"@, str_of(calendar_id)),
                    ("maxResults"@, JsonV::Int(250)),
                    ("orderBy"@, str_of("startTime"@)),
                    ("singleEvents"@, JsonV::Bool(true)),
                    ("timeMax"@, str_of(time::rfc3339_text(to.secs, to.nanos, to.offset))),
                    ("timeMin"@, str_of(time::rfc3339_text(from.secs, from.nanos, from.offset))),
                ],
            ),
        ),
        None,
    )
}

/// The words and parameters of the command that lists task lists.
pub open spec fn tasklists_command(a: AccountView) -> Result<InvocationView, Seq<char>> {
    invocation(
        a,
        seq!["tasks"@, "tasklists"@, "list"@],
        Some(single("maxResults"@, JsonV::Int(100))),
        None,
    )
}

/// The words and parameters of the command that lists the tasks of a list that
/// are still to do.
pub open spec fn tasks_command(a: AccountView, list_id: Seq<char>) -> Result<
    InvocationView,
    Seq<char>,
> {
    invocation(
        a,
        seq!["tasks"@, "tasks"@, "list"@],
        Some(
            JsonV::Object(
                seq![
                    ("maxResults"@, JsonV::Int(100)),
                    ("showCompleted"@, JsonV::Bool(false)),
                    ("tasklist"@, str_of(list_id)),
                ],
            ),
        ),
        None,
    )
}

/// Whom an invitation goes to.
pub open spec fn send_updates(notify: bool) -> JsonV {
    if notify {
        str_of("all"@)
    } else {
        str_of("none"@)
    }
}

/// The parameters of the command that creates an event.
pub open spec fn insert_params(calendar_id: Seq<char>, notify: bool) -> JsonV {
    JsonV::Object(
        seq![
            ("calendarId"@, str_of(calendar_id)),
            ("conferenceDataVersion"@, JsonV::Int(1)),
            ("sendUpdates"@, send_updates(notify)),
        ],
    )
}

/// The parameters of the command that edits an event.
pub open spec fn patch_params(
    calendar_id: Seq<char>,
    event_id: Seq<char>,
    notify: bool,
) -> JsonV {
    JsonV::Object(
        seq![
            ("calendarId"@, str_of(calendar_id)),
            ("conferenceDataVersion"@, JsonV::Int(1)),
            ("eventId"@, str_of(event_id)),
            ("sendUpdates"@, send_updates(notify)),
        ],
    )
}

/// The parameters of the commands on one task.
pub open spec fn task_params(tasklist_id: Seq<char>, task_id: Seq<char>) -> JsonV {
    pair("task"@, str_of(task_id), "tasklist"@, str_of(tasklist_id))
}

/// Plans the command that lists calendars.
pub fn list_calendars_command(account: &Account) -> (r: Result<Invocation, String>)
    ensures
        plan_view(r) == calendars_command(account.deep_view()),
{
    run(
        account,
        words3("calendar", "calendarList", "list"),
        Some(one("maxResults", Json::Int(250))),
        None,
    )
}

/// Plans the command that lists the events of a calendar between two moments.
pub fn list_events_command(account: &Account, cal: &Calendar, from: Moment, to: Moment) -> (r: Result<
    Invocation,
    String,
>)
    requires
        from.valid(),
        to.valid(),
    ensures
        plan_view(r) == events_command(account.deep_view(), cal.id@, from, to),
{
    proof {
        lemma_key_order();
    }
    let mut members: Vec<(String, Json)> = Vec::new();
    assert(json::members_view(members@) == Seq::<(Seq<char>, JsonV)>::empty());
    put(&mut members, "calendarId", Json::Str(cal.id.clone()));
    put(&mut members, "maxResults", Json::Int(250));
    put(&mut members, "orderBy", string("startTime"));
    put(&mut members, "singleEvents", Json::Bool(true));
    put(&mut members, "timeMax", Json::Str(time::to_rfc3339(to)));
    put(&mut members, "timeMin", Json::Str(time::to_rfc3339(from)));
    assert(json::members_view(members@) == seq![
        ("calendarId"@, str_of(cal.id@)),
        ("maxResults"@, JsonV::Int(250)),
        ("orderBy"@, str_of("startTime"@)),
        ("singleEvents"@, JsonV::Bool(true)),
        ("timeMax"@, str_of(time::rfc3339_text(to.secs, to.nanos, to.offset))),
        ("timeMin"@, str_of(time::rfc3339_text(from.secs, from.nanos, from.offset))),
    ]);
    run(account, words3("calendar", "events", "list"), Some(Json::Object(members)), None)
}

/// Plans the command that lists task lists.
pub fn list_tasklists_command(account: &Account) -> (r: Result<Invocation, String>)
    ensures
        plan_view(r) == tasklists_command(account.deep_view()),
{
    run(
        account,
        words3("tasks", "tasklists", "list"),
        Some(one("maxResults", Json::Int(100))),
        None,
    )
}

/// Plans the command that lists the tasks of a list.
pub fn list_tasks_command(account: &Account, list: &TaskList) -> (r: Result<Invocation, String>)
    ensures
        plan_view(r) == tasks_command(account.deep_view(), list.id@),
{
    proof {
        lemma_key_order();
    }
    let mut members: Vec<(String, Json)> = Vec::new();
    assert(json::members_view(members@) == Seq::<(Seq<char>, JsonV)>::empty());
    put(&mut members, "maxResults", Json::Int(100));
    put(&mut members, "showCompleted", Json::Bool(false));
    put(&mut members, "tasklist", Json::Str(list.id.clone()));
    assert(json::members_view(members@) == seq![
        ("maxResults"@, JsonV::Int(100)),
        ("showCompleted"@, JsonV::Bool(false)),
        ("tasklist"@, str_of(list.id@)),
    ]);
    run(account, words3("tasks", "tasks", "list"), Some(Json::Object(members)), None)
}

/// An object of two members.
fn two(k: &str, v: &str, l: &str, w: &str) -> (r: Json)
    requires
        text::text_lt(k@, l@),
    ensures
        r.deep_view() == pair(k@, str_of(v@), l@, str_of(w@)),
        json::canonical(r.deep_view()),
{
    let mut members: Vec<(String, Json)> = Vec::new();
    assert(json::members_view(members@) == Seq::<(Seq<char>, JsonV)>::empty());
    put(&mut members, k, string(v));
    put(&mut members, l, string(w));
    assert(json::members_view(members@) == seq![(k@, str_of(v@)), (l@, str_of(w@))]);
    Json::Object(members)
}

/// Whom an invitation goes to.
fn updates(notify: bool) -> (r: Json)
    ensures
        r.deep_view() == send_updates(notify),
        json::canonical(r.deep_view()),
{
    if notify {
        string("all")
    } else {
        string("none")
    }
}

/// What a change came to: nothing but whether it succeeded.
pub fn changed(answer: Result<Json, String>) -> (r: Result<(), String>)
    ensures
        r == match answer {
            Ok(_) => Ok(()),
            Err(e) => Err(e),
        },
{
    match answer {
        Ok(_) => Ok(()),
        Err(e) => Err(e),
    }
}

// ---------------------------------------------------------------------
// Fetching
// ---------------------------------------------------------------------

/// The model of an answer.
pub open spec fn answer_view(a: Result<Json, String>) -> Result<JsonV, Seq<char>> {
    match a {
        Ok(v) => Ok(v.deep_view()),
        Err(e) => Err(e@),
    }
}

/// The models of answers.
pub open spec fn answers_view(answers: Seq<Result<Json, String>>) -> Seq<
    Result<JsonV, Seq<char>>,
> {
    answers.map_values(|a: Result<Json, String>| answer_view(a))
}

/// What went wrong among answers, in order.
pub open spec fn failures(answers: Seq<Result<JsonV, Seq<char>>>) -> Seq<Seq<char>> {
    answers.filter_map(
        |a: Result<JsonV, Seq<char>>|
            match a {
                Ok(_) => None,
                Err(e) => Some(e),
            },
    )
}

/// Whether `parts` are the events of calendars: those that the answer of each
/// lists, and none where there is none.
pub open spec fn event_parts(
    account: Seq<char>,
    cals: Seq<CalendarView>,
    answers: Seq<Result<JsonV, Seq<char>>>,
    hidden: Seq<Seq<char>>,
    parts: Seq<Seq<EventView>>,
) -> bool {
    &&& parts.len() == cals.len()
    &&& forall|i: int| #![trigger parts[i]]
        0 <= i < cals.len() ==> match answers[i] {
            Ok(v) => events_listed(account, cals[i], v, hidden, parts[i]),
            Err(_) => parts[i].len() == 0,
        }
}

/// The tasks of task lists: those that the answer of each lists.
pub open spec fn tasks_gathered(
    account: Seq<char>,
    lists: Seq<TaskListView>,
    answers: Seq<Result<JsonV, Seq<char>>>,
) -> Seq<TaskView>
    decreases lists.len(),
{
    if lists.len() == 0 || answers.len() != lists.len() {
        Seq::empty()
    } else {
        tasks_gathered(account, lists.drop_last(), answers.drop_last()) + match answers.last() {
            Ok(v) => tasks_listed(account, lists.last(), v),
            Err(_) => Seq::empty(),
        }
    }
}

/// A list, or why there is none.
pub open spec fn list_or_none<T>(r: Result<Seq<T>, Seq<char>>) -> Seq<T> {
    match r {
        Ok(list) => list,
        Err(_) => Seq::empty(),
    }
}

/// Why there is no list.
pub open spec fn list_error<T>(r: Result<Seq<T>, Seq<char>>) -> Seq<Seq<char>> {
    match r {
        Ok(_) => Seq::empty(),
        Err(e) => seq![e],
    }
}

/// The model of a list of calendars.
pub open spec fn calendars_view(r: Result<Vec<Calendar>, String>) -> Result<
    Seq<CalendarView>,
    Seq<char>,
> {
    match r {
        Ok(cals) => Ok(cals.deep_view()),
        Err(e) => Err(e@),
    }
}

/// The model of a list of task lists.
pub open spec fn tasklists_view(r: Result<Vec<TaskList>, String>) -> Result<
    Seq<TaskListView>,
    Seq<char>,
> {
    match r {
        Ok(lists) => Ok(lists.deep_view()),
        Err(e) => Err(e@),
    }
}

/// Gathers the events of calendars.
fn gather_events(
    account: &Account,
    cals: &Vec<Calendar>,
    answers: &Vec<Result<Json, String>>,
    hide_types: &Vec<String>,
    errors: &mut Vec<String>,
) -> (r: Vec<Event>)
    requires
        answers@.len() == cals@.len(),
    ensures
        exists|parts: Seq<Seq<EventView>>| #[trigger]
            event_parts(
                account.name@,
                cals.deep_view(),
                answers_view(answers@),
                hide_types.deep_view(),
                parts,
            ) && r.deep_view() == backend::all_of(parts),
        final(errors).deep_view() == old(errors).deep_view() + failures(answers_view(answers@)),
        backend::events_wf(r.deep_view()),
{
    let ghost views = answers_view(answers@);
    let ghost infos = cals.deep_view();
    let ghost e0 = errors.deep_view();
    let ghost mut parts: Seq<Seq<EventView>> = Seq::empty();
    let mut out: Vec<Event> = Vec::new();
    let mut i: usize = 0;
    assert(out.deep_view() == backend::all_of(parts));
    assert(e0 + failures(views.take(0)) == e0);
    while i < cals.len()
        invariant
            i <= cals@.len() == answers@.len(),
            views == answers_view(answers@),
            infos == cals.deep_view(),
            errors.deep_view() == e0 + failures(views.take(i as int)),
            parts.len() == i,
            forall|j: int| #![trigger parts[j]]
                0 <= j < i ==> match views[j] {
                    Ok(v) => events_listed(
                        account.name@,
                        infos[j],
                        v,
                        hide_types.deep_view(),
                        parts[j],
                    ),
                    Err(_) => parts[j].len() == 0,
                },
            out.deep_view() == backend::all_of(parts),
            backend::events_wf(out.deep_view()),
        decreases cals.len() - i,
    {
        let ghost before = out.deep_view();
        let ghost errors_before = errors.deep_view();
        assert(views[i as int] == answer_view(answers@[i as int]));
        assert(infos[i as int] == cals@[i as int].deep_view());
        assert(views.take(i + 1).drop_last() == views.take(i as int));
        assert(views.take(i + 1).last() == views[i as int]);
        match &answers[i] {
            Ok(v) => {
                let mut made = list_events(account, &cals[i], v, hide_types);
                let ghost part = made.deep_view();
                out.append(&mut made);
                assert(out.deep_view() == before + part);
                let ghost next = parts.push(part);
                assert(next.drop_last() == parts);
                assert(forall|j: int| 0 <= j < i ==> next[j] == parts[j]);
                assert(failures(views.take(i + 1)) == failures(views.take(i as int)));
                proof {
                    parts = next;
                }
            },
            Err(e) => {
                errors.push(e.clone());
                let ghost part = Seq::<EventView>::empty();
                let ghost next = parts.push(part);
                assert(next.drop_last() == parts);
                assert(before + part == before);
                assert(forall|j: int| 0 <= j < i ==> next[j] == parts[j]);
                assert(failures(views.take(i + 1)) == failures(views.take(i as int)) + seq![e@]);
                assert(errors.deep_view() == errors_before.push(e@));
                assert(errors_before.push(e@) == e0 + (failures(views.take(i as int)) + seq![e@]));
                proof {
                    parts = next;
                }
            },
        }
        i += 1;
    }
    assert(views.take(i as int) == views);
    assert(event_parts(account.name@, infos, views, hide_types.deep_view(), parts));
    out
}

/// Gathers the tasks of task lists.
fn gather_tasks(
    account: &Account,
    lists: &Vec<TaskList>,
    answers: &Vec<Result<Json, String>>,
    errors: &mut Vec<String>,
) -> (r: Vec<Task>)
    requires
        answers@.len() == lists@.len(),
        answers_cuttable(answers_view(answers@)),
    ensures
        r.deep_view() == tasks_gathered(
            account.name@,
            lists.deep_view(),
            answers_view(answers@),
        ),
        final(errors).deep_view() == old(errors).deep_view() + failures(answers_view(answers@)),
{
    let ghost views = answers_view(answers@);
    let ghost infos = lists.deep_view();
    let ghost e0 = errors.deep_view();
    let mut out: Vec<Task> = Vec::new();
    let mut i: usize = 0;
    assert(e0 + failures(views.take(0)) == e0);
    while i < lists.len()
        invariant
            i <= lists@.len() == answers@.len(),
            views == answers_view(answers@),
            infos == lists.deep_view(),
            answers_cuttable(views),
            errors.deep_view() == e0 + failures(views.take(i as int)),
            out.deep_view() == tasks_gathered(
                account.name@,
                infos.take(i as int),
                views.take(i as int),
            ),
        decreases lists.len() - i,
    {
        let ghost before = out.deep_view();
        let ghost errors_before = errors.deep_view();
        assert(views[i as int] == answer_view(answers@[i as int]));
        assert(infos[i as int] == lists@[i as int].deep_view());
        assert(views.take(i + 1).drop_last() == views.take(i as int));
        assert(views.take(i + 1).last() == views[i as int]);
        assert(infos.take(i + 1).drop_last() == infos.take(i as int));
        assert(infos.take(i + 1).last() == infos[i as int]);
        match &answers[i] {
            Ok(v) => {
                let mut made = list_tasks(account, &lists[i], v);
                let ghost part = made.deep_view();
                out.append(&mut made);
                assert(out.deep_view() == before + part);
                assert(failures(views.take(i + 1)) == failures(views.take(i as int)));
            },
            Err(e) => {
                errors.push(e.clone());
                assert(before + Seq::<TaskView>::empty() == before);
                assert(failures(views.take(i + 1)) == failures(views.take(i as int)) + seq![e@]);
                assert(errors.deep_view() == errors_before.push(e@));
                assert(errors_before.push(e@) == e0 + (failures(views.take(i as int)) + seq![e@]));
            },
        }
        i += 1;
    }
    assert(views.take(i as int) == views);
    assert(infos.take(i as int) == infos);
    out
}

/// Whether the due time of every task that answers list can be cut behind the
/// day.
pub open spec fn answers_cuttable(answers: Seq<Result<JsonV, Seq<char>>>) -> bool {
    forall|i: int|
        0 <= i < answers.len() ==> ((#[trigger] answers[i]) matches Ok(v) ==> tasks_cuttable(v))
}

/// Whether this is everything shown for an account: the calendars and task lists
/// that could be listed, the events by start and the tasks that the answers
/// list, and every error in the order of the commands.
pub open spec fn gathered(
    account: Seq<char>,
    cals: Result<Seq<CalendarView>, Seq<char>>,
    event_answers: Seq<Result<JsonV, Seq<char>>>,
    lists: Result<Seq<TaskListView>, Seq<char>>,
    task_answers: Seq<Result<JsonV, Seq<char>>>,
    hidden: Seq<Seq<char>>,
    data: AccountDataView,
    errors: Seq<Seq<char>>,
) -> bool {
    &&& data.calendars == list_or_none(cals)
    &&& exists|parts: Seq<Seq<EventView>>| #[trigger]
        event_parts(account, list_or_none(cals), event_answers, hidden, parts) && data.events
            == backend::by_start(backend::all_of(parts))
    &&& data.tasklists == list_or_none(lists)
    &&& data.tasks == tasks_gathered(account, list_or_none(lists), task_answers)
    &&& errors == list_error(cals) + failures(event_answers) + list_error(lists) + failures(
        task_answers,
    )
}

/// Whether a listing of an account was answered: its calendars or its task lists.
/// Events and tasks are asked for only where they were.
pub open spec fn answered(
    cals: Result<Seq<CalendarView>, Seq<char>>,
    lists: Result<Seq<TaskListView>, Seq<char>>,
) -> bool {
    cals is Ok || lists is Ok
}

/// Decides [`answered`].
pub fn is_answered(cals: &Result<Vec<Calendar>, String>, lists: &Result<Vec<TaskList>, String>) -> (r:
    bool)
    ensures
        r == answered(calendars_view(*cals), tasklists_view(*lists)),
{
    cals.is_ok() || lists.is_ok()
}

/// The Google backend.
#[derive(Clone, Copy, Debug, PartialEq, Eq, Structural)]
pub struct GoogleBackend;

impl GoogleBackend {
    /// Everything shown for an account, from the calendars and task lists that
    /// could be listed and from the answers about each of them. What failed
    /// leaves what could be fetched, and its error is noted.
    pub fn fetch_account(
        &self,
        account: &Account,
        cals: Result<Vec<Calendar>, String>,
        event_answers: &Vec<Result<Json, String>>,
        lists: Result<Vec<TaskList>, String>,
        task_answers: &Vec<Result<Json, String>>,
        hide_types: &Vec<String>,
    ) -> (r: (AccountData, Vec<String>))
        requires
            event_answers@.len() == list_or_none(calendars_view(cals)).len(),
            task_answers@.len() == list_or_none(tasklists_view(lists)).len(),
            answers_cuttable(answers_view(task_answers@)),
        ensures
            gathered(
                account.name@,
                calendars_view(cals),
                answers_view(event_answers@),
                tasklists_view(lists),
                answers_view(task_answers@),
                hide_types.deep_view(),
                r.0.deep_view(),
                r.1.deep_view(),
            ),
            backend::events_wf(r.0.deep_view().events),
    {
        let ghost cv = calendars_view(cals);
        let ghost lv = tasklists_view(lists);
        let mut errors: Vec<String> = Vec::new();
        let calendars = match cals {
            Ok(cals) => cals,
            Err(e) => {
                errors.push(e);
                Vec::new()
            },
        };
        assert(calendars.deep_view() == list_or_none(cv));
        assert(errors.deep_view() == list_error(cv));
        let events = gather_events(account, &calendars, event_answers, hide_types, &mut errors);
        let ghost e2 = errors.deep_view();
        let tasklists = match lists {
            Ok(lists) => lists,
            Err(e) => {
                errors.push(e);
                Vec::new()
            },
        };
        assert(tasklists.deep_view() == list_or_none(lv));
        assert(errors.deep_view() == e2 + list_error(lv));
        let tasks = gather_tasks(account, &tasklists, task_answers, &mut errors);
        let mut data = AccountData { calendars, events, tasklists, tasks };
        backend::sort_data(&mut data);
        (data, errors)
    }

    /// Plans the command that creates an event. On create, guests go in only
    /// where there are any.
    pub fn insert_event(
        &self,
        account: &Account,
        calendar_id: &str,
        draft: &EventDraft,
        notify: bool,
    ) -> (r: Result<Invocation, String>)
        requires
            draft.deep_view().ready(),
        ensures
            exists|now: Moment|
                now.valid() && plan_view(r) == invocation(
                    account.deep_view(),
                    seq!["calendar"@, "events"@, "insert"@],
                    Some(insert_params(calendar_id@, notify)),
                    Some(#[trigger] event_json(draft.deep_view(), false, now)),
                ),
    {
        let body = event_body(draft, false);
        proof {
            lemma_key_order();
        }
        let mut members: Vec<(String, Json)> = Vec::new();
        assert(json::members_view(members@) == Seq::<(Seq<char>, JsonV)>::empty());
        put(&mut members, "calendarId", string(calendar_id));
        put(&mut members, "conferenceDataVersion", Json::Int(1));
        put(&mut members, "sendUpdates", updates(notify));
        assert(json::members_view(members@) == seq![
            ("calendarId"@, str_of(calendar_id@)),
            ("conferenceDataVersion"@, JsonV::Int(1)),
            ("sendUpdates"@, send_updates(notify)),
        ]);
        run(
            account,
            words3("calendar", "events", "insert"),
            Some(Json::Object(members)),
            Some(body),
        )
    }

    /// Plans the command that edits an event. On edit, the guests replace the
    /// whole list, so that none clears it.
    pub fn patch_event(
        &self,
        account: &Account,
        calendar_id: &str,
        event_id: &str,
        draft: &EventDraft,
        notify: bool,
    ) -> (r: Result<Invocation, String>)
        requires
            draft.deep_view().ready(),
        ensures
            exists|now: Moment|
                now.valid() && plan_view(r) == invocation(
                    account.deep_view(),
                    seq!["calendar"@, "events"@, "patch"@],
                    Some(patch_params(calendar_id@, event_id@, notify)),
                    Some(#[trigger] event_json(draft.deep_view(), true, now)),
                ),
    {
        let body = event_body(draft, true);
        proof {
            lemma_key_order();
        }
        let mut members: Vec<(String, Json)> = Vec::new();
        assert(json::members_view(members@) == Seq::<(Seq<char>, JsonV)>::empty());
        put(&mut members, "calendarId", string(calendar_id));
        put(&mut members, "conferenceDataVersion", Json::Int(1));
        put(&mut members, "eventId", string(event_id));
        put(&mut members, "sendUpdates", updates(notify));
        assert(json::members_view(members@) == seq![
            ("calendarId"@, str_of(calendar_id@)),
            ("conferenceDataVersion"@, JsonV::Int(1)),
            ("eventId"@, str_of(event_id@)),
            ("sendUpdates"@, send_updates(notify)),
        ]);
        run(
            account,
            words3("calendar", "events", "patch"),
            Some(Json::Object(members)),
            Some(body),
        )
    }

    /// Plans the command that deletes an event.
    pub fn delete_event(&self, account: &Account, calendar_id: &str, event_id: &str) -> (r: Result<
        Invocation,
        String,
    >)
        ensures
            plan_view(r) == invocation(
                account.deep_view(),
                seq!["calendar"@, "events"@, "delete"@],
                Some(pair("calendarId"@, str_of(calendar_id@), "eventId"@, str_of(event_id@))),
                None,
            ),
    {
        proof {
            lemma_key_order();
        }
        let params = two("calendarId", calendar_id, "eventId", event_id);
        run(account, words3("calendar", "events", "delete"), Some(params), None)
    }

    /// Plans the command that creates a task.
    pub fn insert_task(&self, account: &Account, tasklist_id: &str, draft: &TaskDraft) -> (r: Result<
        Invocation,
        String,
    >)
        requires
            draft.deep_view().ready(),
        ensures
            plan_view(r) == invocation(
                account.deep_view(),
                seq!["tasks"@, "tasks"@, "insert"@],
                Some(single("tasklist"@, str_of(tasklist_id@))),
                Some(task_json(draft.deep_view(), None)),
            ),
    {
        let body = task_body(draft, None);
        run(
            account,
            words3("tasks", "tasks", "insert"),
            Some(one("tasklist", string(tasklist_id))),
            Some(body),
        )
    }

    /// Plans the command that replaces a task as a whole: what the draft leaves
    /// out is cleared, and the task is still to do.
    pub fn update_task(
        &self,
        account: &Account,
        tasklist_id: &str,
        task_id: &str,
        draft: &TaskDraft,
    ) -> (r: Result<Invocation, String>)
        requires
            draft.deep_view().ready(),
        ensures
            plan_view(r) == invocation(
                account.deep_view(),
                seq!["tasks"@, "tasks"@, "update"@],
                Some(task_params(tasklist_id@, task_id@)),
                Some(task_json(draft.deep_view(), Some(task_id@))),
            ),
    {
        proof {
            lemma_key_order();
        }
        let body = task_body(draft, Some(task_id));
        let params = two("task", task_id, "tasklist", tasklist_id);
        run(account, words3("tasks", "tasks", "update"), Some(params), Some(body))
    }

    /// Plans the command that completes a task.
    pub fn complete_task(&self, account: &Account, tasklist_id: &str, task_id: &str) -> (r: Result<
        Invocation,
        String,
    >)
        ensures
            plan_view(r) == invocation(
                account.deep_view(),
                seq!["tasks"@, "tasks"@, "patch"@],
                Some(task_params(tasklist_id@, task_id@)),
                Some(single("status"@, str_of("completed"@))),
            ),
    {
        patch_task(account, tasklist_id, task_id, one("status", string("completed")))
    }

    /// Plans the command that deletes a task.
    pub fn delete_task(&self, account: &Account, tasklist_id: &str, task_id: &str) -> (r: Result<
        Invocation,
        String,
    >)
        ensures
            plan_view(r) == invocation(
                account.deep_view(),
                seq!["tasks"@, "tasks"@, "delete"@],
                Some(task_params(tasklist_id@, task_id@)),
                None,
            ),
    {
        proof {
            lemma_key_order();
        }
        let params = two("task", task_id, "tasklist", tasklist_id);
        run(account, words3("tasks", "tasks", "delete"), Some(params), None)
    }
}

/// Plans the command that changes fields of a task.
fn patch_task(account: &Account, tasklist_id: &str, task_id: &str, body: Json) -> (r: Result<
    Invocation,
    String,
>)
    requires
        json::canonical(body.deep_view()),
    ensures
        plan_view(r) == invocation(
            account.deep_view(),
            seq!["tasks"@, "tasks"@, "patch"@],
            Some(task_params(tasklist_id@, task_id@)),
            Some(body.deep_view()),
        ),
{
    proof {
        lemma_key_order();
    }
    let params = two("task", task_id, "tasklist", tasklist_id);
    run(account, words3("tasks", "tasks", "patch"), Some(params), Some(body))
}

// ---------------------------------------------------------------------
// Laws
// ---------------------------------------------------------------------

/// An edit always says who the guests are, so that an empty list clears them; a
/// new event says so only where there are any.
pub proof fn law_guests_are_said_when_they_count(d: EventDraftView, now: Moment)
    ensures
        event_json(d, true, now).member("attendees"@) == Some(guest_list(d.attendees)),
        d.attendees.len() > 0 ==> event_json(d, false, now).member("attendees"@) == Some(
            guest_list(d.attendees),
        ),
        d.attendees.len() == 0 ==> event_json(d, false, now).member("attendees"@) is None,
{
    reveal_strlit("attendees");
    reveal_strlit("conferenceData");
    reveal_strlit("description");
    reveal_strlit("end");
    reveal_strlit("location");
    reveal_strlit("start");
    reveal_strlit("summary");
    let key = "attendees"@;
    let rest = seq![
        ("description"@, str_of(d.description)),
        ("end"@, boundary(d.all_day, exclusive_end(d), d.end_time)),
        ("location"@, str_of(d.location)),
        ("start"@, boundary(d.all_day, d.start_date, d.start_time)),
        ("summary"@, str_of(d.summary)),
    ];
    let meet = member_if(d.add_meet, "conferenceData"@, meet_request(now));
    let tail = meet + rest;
    assert(key.len() == 9 && "conferenceData"@.len() == 14);
    assert forall|i: int| 0 <= i < rest.len() implies (#[trigger] rest[i]).0 != key by {
        assert("description"@.len() == 11 && "end"@.len() == 3 && "location"@.len() == 8
            && "start"@.len() == 5 && "summary"@.len() == 7);
    }
    assert forall|i: int| 0 <= i < tail.len() implies (#[trigger] tail[i]).0 != key by {
        if i < meet.len() {
            assert(tail[i] == meet[i]);
        } else {
            assert(tail[i] == rest[i - meet.len()]);
        }
    }
    lemma_member_absent(tail, key);
    let with = member_if(true, key, guest_list(d.attendees)) + meet + rest;
    assert(with[0] == (key, guest_list(d.attendees)));
    let without = member_if(false, key, guest_list(d.attendees)) + meet + rest;
    assert(without == meet + rest);
}

pub proof fn lemma_member_absent(members: Seq<(Seq<char>, JsonV)>, key: Seq<char>)
    requires
        forall|i: int| 0 <= i < members.len() ==> (#[trigger] members[i]).0 != key,
    ensures
        json::first_member(members, key) is None,
    decreases members.len(),
{
    if members.len() > 0 {
        assert(members[0].0 != key);
        let rest = members.drop_first();
        assert forall|i: int| 0 <= i < rest.len() implies (#[trigger] rest[i]).0 != key by {
            assert(rest[i] == members[i + 1]);
        }
        lemma_member_absent(rest, key);
    }
}

/// An entry of a hidden type never becomes an event: every event that is shown
/// was read from an entry of a type that is not hidden.
pub proof fn law_hidden_types_are_not_shown(
    account: Seq<char>,
    cal: CalendarView,
    v: JsonV,
    hidden: Seq<Seq<char>>,
    made: Seq<EventView>,
    k: int,
)
    requires
        events_listed(account, cal, v, hidden, made),
        0 <= k < made.len(),
    ensures
        exists|i: int|
            {
                &&& 0 <= i < v.items_at("items"@).len()
                &&& !hidden.contains(event_type(#[trigger] v.items_at("items"@)[i]))
                &&& model::event_read(
                    account,
                    cal.id,
                    cal.summary,
                    v.items_at("items"@)[i],
                    Some(made[k]),
                )
            },
{
    let items = v.items_at("items"@);
    let results = choose|results: Seq<Option<EventView>>| #[trigger]
        event_results(account, cal, items, hidden, results) && made == backend::present(results);
    lemma_present_source(results, k);
    let i = choose|i: int| 0 <= i < results.len() && #[trigger] results[i] == Some(made[k]);
    assert(!hidden.contains(event_type(items[i])));
}

proof fn lemma_present_source(results: Seq<Option<EventView>>, k: int)
    requires
        0 <= k < backend::present(results).len(),
    ensures
        exists|i: int|
            0 <= i < results.len() && #[trigger] results[i] == Some(backend::present(results)[k]),
    decreases results.len(),
{
    if results.len() > 0 {
        let front = results.drop_last();
        let last = results[results.len() - 1];
        if k < backend::present(front).len() {
            lemma_present_source(front, k);
            let i = choose|i: int|
                0 <= i < front.len() && #[trigger] front[i] == Some(backend::present(front)[k]);
            assert(results[i] == front[i]);
        } else {
            assert(last == Some(backend::present(results)[k]));
        }
    }
}

/// Two lists of members have the first of them, else the second.
pub proof fn lemma_member_add(
    a: Seq<(Seq<char>, JsonV)>,
    b: Seq<(Seq<char>, JsonV)>,
    key: Seq<char>,
)
    ensures
        json::first_member(a + b, key) == match json::first_member(a, key) {
            Some(v) => Some(v),
            None => json::first_member(b, key),
        },
    decreases a.len(),
{
    if a.len() == 0 {
        assert(a + b == b);
    } else {
        assert((a + b).drop_first() == a.drop_first() + b);
        lemma_member_add(a.drop_first(), b, key);
    }
}

/// A list of one member has that member.
pub proof fn lemma_member_one(name: Seq<char>, value: JsonV, key: Seq<char>)
    ensures
        json::first_member(seq![(name, value)], key) == if name == key {
            Some(value)
        } else {
            None
        },
        json::first_member(Seq::empty(), key) is None,
{
    assert(seq![(name, value)].drop_first() == Seq::<(Seq<char>, JsonV)>::empty());
}

/// The members of the body of a task.
pub proof fn lemma_task_members(d: TaskDraftView, whole: Option<Seq<char>>, key: Seq<char>)
    ensures
        task_json(d, whole).member(key) == if key == "due"@ && d.due is Some {
            Some(due_member(d.due)[0].1)
        } else if key == "id"@ && whole is Some {
            Some(str_of(whole->0))
        } else if key == "notes"@ && d.notes.len() > 0 {
            Some(str_of(d.notes))
        } else if key == "status"@ && whole is Some {
            Some(str_of("needsAction"@))
        } else if key == "title"@ {
            Some(str_of(d.title))
        } else {
            None
        },
{
    reveal_strlit("due");
    reveal_strlit("id");
    reveal_strlit("notes");
    reveal_strlit("status");
    reveal_strlit("title");
    assert("due"@.len() == 3 && "id"@.len() == 2 && "notes"@.len() == 5 && "status"@.len() == 6
        && "title"@.len() == 5 && "notes"@[0] == 'n' && "title"@[0] == 't');
    let a = due_member(d.due);
    let b = match whole {
        Some(id) => seq![("id"@, str_of(id))],
        None => Seq::<(Seq<char>, JsonV)>::empty(),
    };
    let c = member_if(d.notes.len() > 0, "notes"@, str_of(d.notes));
    let e = member_if(whole is Some, "status"@, str_of("needsAction"@));
    let t = seq![("title"@, str_of(d.title))];
    if d.due is Some {
        assert(a == seq![("due"@, a[0].1)]);
        lemma_member_one("due"@, a[0].1, key);
    }
    if whole is Some {
        lemma_member_one("id"@, str_of(whole->0), key);
    }
    lemma_member_one("notes"@, str_of(d.notes), key);
    lemma_member_one("status"@, str_of("needsAction"@), key);
    lemma_member_one("title"@, str_of(d.title), key);
    lemma_member_add(a, b, key);
    lemma_member_add(a + b, c, key);
    lemma_member_add(a + b + c, e, key);
    lemma_member_add(a + b + c + e, t, key);
}

/// A text of ten octets in front of another is what is cut behind the tenth octet.
pub proof fn lemma_due_prefix(day: Seq<char>, tail: Seq<char>)
    requires
        text::octets(day) == 10,
    ensures
        model::due_prefix(day + tail) == day,
{
    let s = day + tail;
    text::lemma_fitting(s, 10);
    let k = text::fitting(s, 10) as int;
    let n = day.len() as int;
    assert(s.take(n) == day);
    if k < n {
        let (x, y) = (day.take(k + 1), day.skip(k + 1));
        assert(s.take(k + 1) == x);
        assert(x + y == day);
        text::lemma_octets_add(x, y);
    } else if k > n {
        let (x, y) = (s.subrange(n, n + 1), s.subrange(n + 1, k));
        assert(s.take(k) == day + (x + y));
        text::lemma_octets_add(day, x + y);
        text::lemma_octets_add(x, y);
        assert(x == seq![s[n]]);
        text::lemma_octets_one(s[n]);
    }
}

/// An entry that has an id and, beside it, the members of the body that was written
/// for a draft. `whole` is the id in the body, where there is one.
pub open spec fn is_sent_task(
    d: TaskDraftView,
    whole: Option<Seq<char>>,
    id: Seq<char>,
    v: JsonV,
) -> bool {
    &&& v.text_at("id"@) == Some(id)
    &&& forall|key: Seq<char>|
        key != "id"@ ==> #[trigger] v.member(key) == task_json(d, whole).member(key)
}

/// The members of an entry that was sent.
proof fn lemma_sent_task(d: TaskDraftView, whole: Option<Seq<char>>, id: Seq<char>, v: JsonV)
    requires
        is_sent_task(d, whole, id, v),
    ensures
        v.text_at("title"@) == Some(d.title),
        v.text_at("notes"@) == if d.notes.len() > 0 {
            Some(d.notes)
        } else {
            None
        },
        v.text_at("status"@) != Some("completed"@),
        v.text_at("due"@) == match d.due {
            Some(day) => Some(time::date_text(day.days, "%Y-%m-%d"@) + "T00:00:00.000Z"@),
            None => None,
        },
{
    reveal_strlit("due");
    reveal_strlit("id");
    reveal_strlit("notes");
    reveal_strlit("status");
    reveal_strlit("title");
    reveal_strlit("completed");
    reveal_strlit("needsAction");
    assert("due"@.len() == 3 && "id"@.len() == 2 && "notes"@.len() == 5 && "status"@.len() == 6
        && "title"@.len() == 5 && "completed"@.len() == 9 && "needsAction"@.len() == 11
        && "notes"@[0] == 'n' && "title"@[0] == 't');
    lemma_task_members(d, whole, "due"@);
    lemma_task_members(d, whole, "notes"@);
    lemma_task_members(d, whole, "status"@);
    lemma_task_members(d, whole, "title"@);
    assert(v.member("due"@) == task_json(d, whole).member("due"@));
    assert(v.member("notes"@) == task_json(d, whole).member("notes"@));
    assert(v.member("status"@) == task_json(d, whole).member("status"@));
    assert(v.member("title"@) == task_json(d, whole).member("title"@));
}

/// A task that was sent can be read, where its due day has a four-digit year.
pub proof fn law_sent_task_can_be_read(
    d: TaskDraftView,
    whole: Option<Seq<char>>,
    id: Seq<char>,
    v: JsonV,
)
    requires
        is_sent_task(d, whole, id, v),
        d.due matches Some(day) ==> time::four_digit_day(day.days as int),
        due_fits(d),
    ensures
        model::due_cuttable(v),
{
    lemma_sent_task(d, whole, id, v);
    if d.due is Some {
        lemma_due_prefix(time::date_text(d.due->0.days, "%Y-%m-%d"@), "T00:00:00.000Z"@);
    }
}

/// A task that was sent comes back: it is read with the title and the notes of its
/// draft, trimmed, and with its due day; it is not completed.
pub proof fn law_sent_task_is_read_back(
    d: TaskDraftView,
    whole: Option<Seq<char>>,
    id: Seq<char>,
    v: JsonV,
    account: Seq<char>,
    tasklist_id: Seq<char>,
    tasklist_title: Seq<char>,
)
    requires
        is_sent_task(d, whole, id, v),
        d.due matches Some(day) ==> time::four_digit_day(day.days as int),
        due_fits(d),
        model::due_read_faithfully(v),
    ensures
        model::task_from(account, tasklist_id, tasklist_title, v) == Some(
            TaskView {
                account,
                tasklist_id,
                tasklist_title,
                id,
                title: model::or_text(text::non_blank(d.title), "(untitled)"@),
                notes: text::non_blank(d.notes),
                due: d.due,
                completed: false,
            },
        ),
        d.title.len() > 0 && text::trimmed(d.title) == d.title ==> model::or_text(
            text::non_blank(d.title),
            "(untitled)"@,
        ) == d.title,
        text::trimmed(d.notes) == d.notes ==> text::non_blank(d.notes) == if d.notes.len() == 0 {
            None
        } else {
            Some(d.notes)
        },
{
    lemma_sent_task(d, whole, id, v);
    assert(d.notes.len() == 0 ==> text::non_blank(d.notes) is None);
    if d.due is Some {
        let day = time::date_text(d.due->0.days, "%Y-%m-%d"@);
        lemma_due_prefix(day, "T00:00:00.000Z"@);
        assert(model::due_of(v) == d.due);
    }
}

/// An entry that has an id and the fields of the body that was written for a draft,
/// and that is not cancelled.
pub open spec fn is_sent_event(d: EventDraftView, id: Seq<char>, v: JsonV) -> bool {
    &&& v.text_at("id"@) == Some(id)
    &&& v.text_at("status"@) != Some("cancelled"@)
    &&& v.text_at("summary"@) == Some(d.summary)
    &&& v.text_at("location"@) == Some(d.location)
    &&& v.text_at("description"@) == Some(d.description)
    &&& v.member("start"@) == Some(boundary(d.all_day, d.start_date, d.start_time))
    &&& v.member("end"@) == Some(boundary(d.all_day, exclusive_end(d), d.end_time))
}

/// Whether the boundaries of a draft can be written exactly: days with a four-digit
/// year, or times that RFC 3339 can say.
pub open spec fn is_exact(d: EventDraftView) -> bool {
    if d.all_day {
        &&& time::four_digit_day(d.start_date.days as int)
        &&& time::four_digit_day(d.end_date.days + 1)
    } else {
        let (s, e) = (d.start_time->0, d.end_time->0);
        &&& time::rfc3339_exact(s.secs, s.nanos, s.offset)
        &&& time::rfc3339_exact(e.secs, e.nanos, e.offset)
    }
}

/// Whether a read event has the texts and the time of a draft: the summary as it
/// is, location and description trimmed, the same days, or the same points in time.
pub open spec fn shows_sent(d: EventDraftView, e: EventView) -> bool {
    &&& e.summary == d.summary
    &&& e.location == text::non_blank(d.location)
    &&& e.description == text::non_blank(d.description)
    &&& e.all_day == d.all_day
    &&& d.all_day ==> e.start_date == d.start_date && e.end_date == d.end_date.latest(d.start_date)
        && e.start_time is None && e.end_time is None
    &&& !d.all_day ==> {
        &&& e.start_time matches Some(m) && m.at() == d.start_time->0.at() && e.start_date
            == m.local_date()
        &&& e.end_time matches Some(m) && m.at() == d.end_time->0.at() && e.end_date
            == m.local_date()
    }
}

/// What a boundary says, as it is read.
proof fn lemma_boundary_meaning(all_day: bool, day: Date, m: Option<Moment>, v: JsonV, key: Seq<char>)
    requires
        v.member(key) == Some(boundary(all_day, day, m)),
        model::boundary_read_faithfully(v, key),
        all_day ==> time::four_digit_day(day.days as int),
        !all_day ==> time::rfc3339_exact(m->0.secs, m->0.nanos, m->0.offset),
    ensures
        model::boundary_at(v, key) == if all_day {
            When::Day(day)
        } else {
            When::At(m->0.at())
        },
{
    reveal_strlit("date");
    reveal_strlit("dateTime");
    assert("date"@.len() == 4 && "dateTime"@.len() == 8);
    let b = boundary(all_day, day, m);
    if all_day {
        let text = time::date_text(day.days, "%Y-%m-%d"@);
        lemma_member_one("date"@, str_of(text), "date"@);
        lemma_member_one("date"@, str_of(text), "dateTime"@);
        assert(b.text_at("dateTime"@) is None);
        assert(b.text_at("date"@) == Some(text));
    } else {
        let text = time::rfc3339_text(m->0.secs, m->0.nanos, m->0.offset);
        lemma_member_one("dateTime"@, str_of(text), "dateTime"@);
        assert(b.text_at("dateTime"@) == Some(text));
        assert(time::instant_of(time::rfc3339_instant(text)) == Some(m->0.at()));
    }
}

/// The members of the body of an event that say its texts and its time.
pub proof fn law_event_body_says_its_draft(
    d: EventDraftView,
    include_attendees: bool,
    now: Moment,
)
    ensures
        ({
            let v = event_json(d, include_attendees, now);
            &&& v.text_at("summary"@) == Some(d.summary)
            &&& v.text_at("location"@) == Some(d.location)
            &&& v.text_at("description"@) == Some(d.description)
            &&& v.member("start"@) == Some(boundary(d.all_day, d.start_date, d.start_time))
            &&& v.member("end"@) == Some(boundary(d.all_day, exclusive_end(d), d.end_time))
            &&& v.member("status"@) is None
            &&& v.items_at("attendees"@) == d.attendees.map_values(
                |email: Seq<char>| single("email"@, str_of(email)),
            )
        }),
{
    lemma_event_members(d, include_attendees, now, "summary"@);
    lemma_event_members(d, include_attendees, now, "location"@);
    lemma_event_members(d, include_attendees, now, "description"@);
    lemma_event_members(d, include_attendees, now, "start"@);
    lemma_event_members(d, include_attendees, now, "end"@);
    lemma_event_members(d, include_attendees, now, "status"@);
    lemma_event_members(d, include_attendees, now, "attendees"@);
    lemma_event_keys();
    assert(d.attendees.len() == 0 ==> d.attendees.map_values(
        |email: Seq<char>| single("email"@, str_of(email)),
    ) == Seq::<JsonV>::empty());
}

/// The keys of an event are different.
pub proof fn lemma_event_keys()
    ensures
        "attendees"@.len() == 9 && "attendees"@[0] == 'a',
        "conferenceData"@.len() == 14,
        "description"@.len() == 11,
        "end"@.len() == 3,
        "location"@.len() == 8,
        "start"@.len() == 5,
        "status"@.len() == 6,
        "summary"@.len() == 7,
{
    reveal_strlit("attendees");
    reveal_strlit("conferenceData");
    reveal_strlit("description");
    reveal_strlit("end");
    reveal_strlit("location");
    reveal_strlit("start");
    reveal_strlit("status");
    reveal_strlit("summary");
}

/// The members of the body of an event.
pub proof fn lemma_event_members(
    d: EventDraftView,
    include_attendees: bool,
    now: Moment,
    key: Seq<char>,
)
    ensures
        event_json(d, include_attendees, now).member(key) == if key == "attendees"@ && (
        include_attendees || d.attendees.len() > 0) {
            Some(guest_list(d.attendees))
        } else if key == "conferenceData"@ && d.add_meet {
            Some(meet_request(now))
        } else if key == "description"@ {
            Some(str_of(d.description))
        } else if key == "end"@ {
            Some(boundary(d.all_day, exclusive_end(d), d.end_time))
        } else if key == "location"@ {
            Some(str_of(d.location))
        } else if key == "start"@ {
            Some(boundary(d.all_day, d.start_date, d.start_time))
        } else if key == "summary"@ {
            Some(str_of(d.summary))
        } else {
            None
        },
{
    lemma_event_keys();
    let a = member_if(
        include_attendees || d.attendees.len() > 0,
        "attendees"@,
        guest_list(d.attendees),
    );
    let b = member_if(d.add_meet, "conferenceData"@, meet_request(now));
    let c = seq![("description"@, str_of(d.description))];
    let e = seq![("end"@, boundary(d.all_day, exclusive_end(d), d.end_time))];
    let l = seq![("location"@, str_of(d.location))];
    let s = seq![("start"@, boundary(d.all_day, d.start_date, d.start_time))];
    let t = seq![("summary"@, str_of(d.summary))];
    let rest = seq![
        ("description"@, str_of(d.description)),
        ("end"@, boundary(d.all_day, exclusive_end(d), d.end_time)),
        ("location"@, str_of(d.location)),
        ("start"@, boundary(d.all_day, d.start_date, d.start_time)),
        ("summary"@, str_of(d.summary)),
    ];
    assert(rest == c + e + l + s + t);
    lemma_member_one("attendees"@, guest_list(d.attendees), key);
    lemma_member_one("conferenceData"@, meet_request(now), key);
    lemma_member_one("description"@, str_of(d.description), key);
    lemma_member_one("end"@, boundary(d.all_day, exclusive_end(d), d.end_time), key);
    lemma_member_one("location"@, str_of(d.location), key);
    lemma_member_one("start"@, boundary(d.all_day, d.start_date, d.start_time), key);
    lemma_member_one("summary"@, str_of(d.summary), key);
    lemma_member_add(c, e, key);
    lemma_member_add(c + e, l, key);
    lemma_member_add(c + e + l, s, key);
    lemma_member_add(c + e + l + s, t, key);
    lemma_member_add(a, b, key);
    lemma_member_add(a + b, rest, key);
}

/// A guest that was invited, as read: without an answer yet.
pub open spec fn invited(email: Seq<char>) -> AttendeeView {
    AttendeeView {
        email,
        name: None,
        status: "needsAction"@,
        organizer: false,
        is_self: false,
    }
}

/// Invited guests are read in their order.
proof fn lemma_invited(emails: Seq<Seq<char>>)
    ensures
        model::guests_from(
            emails.map_values(|email: Seq<char>| single("email"@, str_of(email))),
        ) == emails.map_values(|email: Seq<char>| invited(email)),
    decreases emails.len(),
{
    let f = |email: Seq<char>| single("email"@, str_of(email));
    let g = |email: Seq<char>| invited(email);
    let items = emails.map_values(f);
    if emails.len() > 0 {
        let front = emails.drop_last();
        let last = emails.last();
        lemma_invited(front);
        assert(items.drop_last() == front.map_values(f));
        assert(items.last() == single("email"@, str_of(last)));
        reveal_strlit("email");
        reveal_strlit("resource");
        reveal_strlit("displayName");
        reveal_strlit("responseStatus");
        reveal_strlit("organizer");
        reveal_strlit("self");
        assert("email"@.len() == 5 && "resource"@.len() == 8 && "displayName"@.len() == 11
            && "responseStatus"@.len() == 14 && "organizer"@.len() == 9 && "self"@.len() == 4);
        lemma_member_one("email"@, str_of(last), "email"@);
        lemma_member_one("email"@, str_of(last), "resource"@);
        lemma_member_one("email"@, str_of(last), "displayName"@);
        lemma_member_one("email"@, str_of(last), "responseStatus"@);
        lemma_member_one("email"@, str_of(last), "organizer"@);
        lemma_member_one("email"@, str_of(last), "self"@);
        assert(model::guest_from(items.last()) == Some(invited(last)));
        assert(emails.map_values(g) == front.map_values(g) + seq![invited(last)]);
    } else {
        assert(items == Seq::<JsonV>::empty());
        assert(emails.map_values(g) == Seq::<AttendeeView>::empty());
    }
}

/// Invited guests are listed in their order.
proof fn lemma_invited_ranked(emails: Seq<Seq<char>>)
    ensures
        model::ranked(
            model::guests_from(
                emails.map_values(|email: Seq<char>| single("email"@, str_of(email))),
            ),
        ) == emails.map_values(|email: Seq<char>| invited(email)),
{
    let all = emails.map_values(|email: Seq<char>| invited(email));
    let read = model::guests_from(
        emails.map_values(|email: Seq<char>| single("email"@, str_of(email))),
    );
    lemma_invited(emails);
    assert(read == all);
    assert(model::ranked(all) == all) by {
        assert forall|i: int| 0 <= i < all.len() implies !(#[trigger] all[i]).organizer
            && !all[i].is_self by {
            assert(all[i] == invited(emails[i]));
        }
        roundtrip::lemma_ranked_plain(all);
    }
    assert(model::ranked(read) == all);
}

/// What an event that was sent is read as, given where the local clock puts it.
proof fn lemma_sent_event(
    d: EventDraftView,
    id: Seq<char>,
    v: JsonV,
    account: Seq<char>,
    calendar_id: Seq<char>,
    calendar_name: Seq<char>,
    start: Option<Moment>,
    end: Option<Moment>,
)
    requires
        d.ready(),
        is_exact(d),
        is_sent_event(d, id, v),
        model::boundary_read_faithfully(v, "start"@),
        model::boundary_read_faithfully(v, "end"@),
        ical::local_answer(model::boundary_at(v, "start"@), start),
        ical::local_answer(model::boundary_at(v, "end"@), end),
    ensures
        model::event_from(
            account,
            calendar_id,
            calendar_name,
            v,
            ical::placed(model::boundary_at(v, "start"@), start),
            ical::placed(model::boundary_at(v, "end"@), end),
        ) matches Some(e) && shows_sent(d, e) && e.id == id && e.calendar_id == calendar_id
            && e.attendees == model::ranked(model::guests_from(v.items_at("attendees"@))),
{
    assert(model::boundary_at(v, "start"@) == if d.all_day {
        When::Day(d.start_date)
    } else {
        When::At(d.start_time->0.at())
    }) by {
        lemma_boundary_meaning(d.all_day, d.start_date, d.start_time, v, "start"@);
    }
    assert(model::boundary_at(v, "end"@) == if d.all_day {
        When::Day(exclusive_end(d))
    } else {
        When::At(d.end_time->0.at())
    }) by {
        lemma_boundary_meaning(d.all_day, exclusive_end(d), d.end_time, v, "end"@);
    }
}

/// An event that was sent comes back: it is read with the summary, the place and
/// the description of its draft, and on its days, the last one among them, or at its
/// points in time. Where the entry lists the guests as they were sent, they are read
/// in their order, without an answer.
pub proof fn law_sent_event_is_read_back(
    d: EventDraftView,
    id: Seq<char>,
    v: JsonV,
    account: Seq<char>,
    calendar_id: Seq<char>,
    calendar_name: Seq<char>,
    r: Option<EventView>,
)
    requires
        d.ready(),
        is_exact(d),
        is_sent_event(d, id, v),
        model::boundary_read_faithfully(v, "start"@),
        model::boundary_read_faithfully(v, "end"@),
        model::event_read(account, calendar_id, calendar_name, v, r),
    ensures
        r matches Some(e) && shows_sent(d, e) && e.id == id && e.calendar_id == calendar_id,
        v.items_at("attendees"@) == d.attendees.map_values(
            |email: Seq<char>| single("email"@, str_of(email)),
        ) ==> r->0.attendees == d.attendees.map_values(|email: Seq<char>| invited(email)),
{
    let (start, end) = choose|start: Option<Moment>, end: Option<Moment>| #[trigger]
        ical::local_answer(model::boundary_at(v, "start"@), start) && #[trigger] ical::local_answer(
            model::boundary_at(v, "end"@),
            end,
        ) && r == model::event_from(
            account,
            calendar_id,
            calendar_name,
            v,
            ical::placed(model::boundary_at(v, "start"@), start),
            ical::placed(model::boundary_at(v, "end"@), end),
        );
    assert(r matches Some(e) && shows_sent(d, e) && e.id == id && e.calendar_id == calendar_id
        && e.attendees == model::ranked(model::guests_from(v.items_at("attendees"@)))) by {
        lemma_sent_event(d, id, v, account, calendar_id, calendar_name, start, end);
    }
    lemma_invited_ranked(d.attendees);
}

/// Every event of a list of lists is among all of them.
pub proof fn lemma_all_of_contains(parts: Seq<Seq<EventView>>, i: int, k: int)
    requires
        0 <= i < parts.len(),
        0 <= k < parts[i].len(),
    ensures
        backend::all_of(parts).contains(parts[i][k]),
    decreases parts.len(),
{
    let front = backend::all_of(parts.drop_last());
    let all = backend::all_of(parts);
    if i == parts.len() - 1 {
        assert(all[front.len() + k] == parts[i][k]);
    } else {
        assert(parts.drop_last()[i] == parts[i]);
        lemma_all_of_contains(parts.drop_last(), i, k);
        let j = choose|j: int| 0 <= j < front.len() && front[j] == parts[i][k];
        assert(all[j] == front[j]);
    }
}

/// Every task of an answer is among all tasks.
pub proof fn lemma_tasks_contain(
    account: Seq<char>,
    lists: Seq<TaskListView>,
    answers: Seq<Result<JsonV, Seq<char>>>,
    i: int,
    k: int,
)
    requires
        answers.len() == lists.len(),
        0 <= i < lists.len(),
        answers[i] is Ok,
        0 <= k < tasks_listed(account, lists[i], answers[i]->Ok_0).len(),
    ensures
        tasks_gathered(account, lists, answers).contains(
            tasks_listed(account, lists[i], answers[i]->Ok_0)[k],
        ),
    decreases lists.len(),
{
    let front = tasks_gathered(account, lists.drop_last(), answers.drop_last());
    let all = tasks_gathered(account, lists, answers);
    let listed = tasks_listed(account, lists[i], answers[i]->Ok_0);
    if i == lists.len() - 1 {
        assert(all[front.len() + k] == listed[k]);
    } else {
        assert(lists.drop_last()[i] == lists[i] && answers.drop_last()[i] == answers[i]);
        lemma_tasks_contain(account, lists.drop_last(), answers.drop_last(), i, k);
        let j = choose|j: int| 0 <= j < front.len() && front[j] == listed[k];
        assert(all[j] == front[j]);
    }
}

/// What fails to be listed takes nothing else with it: of each calendar that
/// answered every event is shown, and of each task list that answered every task,
/// whatever became of the others; and what failed to be listed is told.
pub proof fn law_one_failure_keeps_the_rest(
    account: Seq<char>,
    cals: Result<Seq<CalendarView>, Seq<char>>,
    event_answers: Seq<Result<JsonV, Seq<char>>>,
    lists: Result<Seq<TaskListView>, Seq<char>>,
    task_answers: Seq<Result<JsonV, Seq<char>>>,
    hidden: Seq<Seq<char>>,
    data: AccountDataView,
    errors: Seq<Seq<char>>,
)
    requires
        event_answers.len() == list_or_none(cals).len(),
        task_answers.len() == list_or_none(lists).len(),
        gathered(account, cals, event_answers, lists, task_answers, hidden, data, errors),
    ensures
        forall|i: int|
            0 <= i < event_answers.len() && (#[trigger] event_answers[i]) is Ok ==> exists|
                made: Seq<EventView>,
            |
                {
                    &&& #[trigger] events_listed(
                        account,
                        list_or_none(cals)[i],
                        event_answers[i]->Ok_0,
                        hidden,
                        made,
                    )
                    &&& forall|k: int|
                        0 <= k < made.len() ==> data.events.contains(#[trigger] made[k])
                },
        forall|i: int, k: int|
            0 <= i < task_answers.len() && task_answers[i] is Ok && 0 <= k < tasks_listed(
                account,
                list_or_none(lists)[i],
                task_answers[i]->Ok_0,
            ).len() ==> data.tasks.contains(
                #[trigger] tasks_listed(
                    account,
                    list_or_none(lists)[i],
                    task_answers[i]->Ok_0,
                )[k],
            ),
        cals is Err ==> errors.contains(cals->Err_0),
        lists is Err ==> errors.contains(lists->Err_0),
{
    if cals is Err {
        assert(errors[0] == cals->Err_0);
    }
    if lists is Err {
        let k = (list_error(cals) + failures(event_answers)).len() as int;
        assert(errors[k] == lists->Err_0);
    }
    let all_cals = list_or_none(cals);
    let parts = choose|parts: Seq<Seq<EventView>>| #[trigger]
        event_parts(account, all_cals, event_answers, hidden, parts) && data.events
            == backend::by_start(backend::all_of(parts));
    let all = backend::all_of(parts);
    backend::law_events_are_sorted(all);
    assert forall|i: int| 0 <= i < event_answers.len() && (#[trigger] event_answers[i]) is Ok implies exists|
        made: Seq<EventView>,
    |
        {
            &&& #[trigger] events_listed(
                account,
                all_cals[i],
                event_answers[i]->Ok_0,
                hidden,
                made,
            )
            &&& forall|k: int| 0 <= k < made.len() ==> data.events.contains(#[trigger] made[k])
        } by {
        let made = parts[i];
        assert(events_listed(account, all_cals[i], event_answers[i]->Ok_0, hidden, made));
        assert forall|k: int| 0 <= k < made.len() implies data.events.contains(
            #[trigger] made[k],
        ) by {
            lemma_all_of_contains(parts, i, k);
            broadcast use vstd::seq_lib::group_to_multiset_ensures;

            assert(all.to_multiset().count(made[k]) > 0);
            assert(data.events.to_multiset().count(made[k]) > 0);
        }
    }
    assert forall|i: int, k: int|
        0 <= i < task_answers.len() && task_answers[i] is Ok && 0 <= k < tasks_listed(
            account,
            list_or_none(lists)[i],
            task_answers[i]->Ok_0,
        ).len() implies data.tasks.contains(
        #[trigger] tasks_listed(account, list_or_none(lists)[i], task_answers[i]->Ok_0)[k],
    ) by {
        lemma_tasks_contain(account, list_or_none(lists), task_answers, i, k);
    }
}

/// An account gave nothing exactly where neither of its listings was answered. One
/// that has no calendar selected, and whose task lists failed, was answered.
pub proof fn law_account_gave_nothing(
    account: Seq<char>,
    cals: Result<Seq<CalendarView>, Seq<char>>,
    event_answers: Seq<Result<JsonV, Seq<char>>>,
    lists: Result<Seq<TaskListView>, Seq<char>>,
    task_answers: Seq<Result<JsonV, Seq<char>>>,
    hidden: Seq<Seq<char>>,
    data: AccountDataView,
    errors: Seq<Seq<char>>,
)
    requires
        event_answers.len() == list_or_none(cals).len(),
        task_answers.len() == list_or_none(lists).len(),
        gathered(account, cals, event_answers, lists, task_answers, hidden, data, errors),
    ensures
        daemon::gave_nothing(data, errors.len() as int, answered(cals, lists)) == (cals is Err
            && lists is Err),
{
    if cals is Err && lists is Err {
        let parts = choose|parts: Seq<Seq<EventView>>| #[trigger]
            event_parts(account, list_or_none(cals), event_answers, hidden, parts) && data.events
                == backend::by_start(backend::all_of(parts));
        assert(backend::all_of(parts).len() == 0);
        backend::law_events_are_sorted(backend::all_of(parts));
    }
}

} // verus!
