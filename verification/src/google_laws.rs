//! Laws of the Google backend: what its commands ask for, what its bodies say, and
//! what is made of the answers.

use vstd::prelude::*;

use crate::backend;
use crate::backend::{AccountDataView, EventDraftView, TaskDraftView};
use crate::config::AccountView;
use crate::gws;
use crate::gws::{InvocationView, Outcome};
use crate::json;
use crate::json::JsonV;
use crate::model;
use crate::model::{CalendarView, EventView, TaskListView, TaskView};
use crate::reading_laws;
use crate::text;
use crate::time;
use crate::time::Moment;

verus! {

// ---------------------------------------------------------------------
// Commands
// ---------------------------------------------------------------------

/// A command is run with the account's own directories; its words come first, then
/// its parameters, then its body, each behind its option.
pub proof fn law_command_line(
    a: AccountView,
    words: Seq<Seq<char>>,
    params: Option<JsonV>,
    body: Option<JsonV>,
)
    ensures
        a.config_dir is None ==> gws::invocation(a, words, params, body) == Err::<
            InvocationView,
            Seq<char>,
        >("["@ + a.name + "] missing config_dir"@),
        a.config_dir is Some && a.credentials_file is None ==> gws::invocation(
            a,
            words,
            params,
            body,
        ) == Err::<InvocationView, Seq<char>>("["@ + a.name + "] missing credentials_file"@),
        a.config_dir is Some && a.credentials_file is Some ==> {
            &&& gws::invocation(a, words, params, body) matches Ok(i)
            &&& i.config_dir == a.config_dir->0
            &&& i.credentials_file == a.credentials_file->0
            &&& i.args.take(words.len() as int) == words
            &&& i.args.skip(words.len() as int) == match (params, body) {
                (Some(p), Some(b)) => seq![
                    "--params"@,
                    json::json_text(p),
                    "--json"@,
                    json::json_text(b),
                ],
                (Some(p), None) => seq!["--params"@, json::json_text(p)],
                (None, Some(b)) => seq!["--json"@, json::json_text(b)],
                (None, None) => Seq::empty(),
            }
        },
{
    if a.config_dir is Some && a.credentials_file is Some {
        let i = gws::invocation(a, words, params, body)->Ok_0;
        assert(i.args.take(words.len() as int) =~= words);
        assert(i.args.skip(words.len() as int) =~= gws::json_arg("--params"@, params)
            + gws::json_arg("--json"@, body));
    }
}

/// The keys of parameters are different.
proof fn lemma_param_keys()
    ensures
        "calendarId"@.len() == 10 && "calendarId"@[0] == 'c',
        "conferenceDataVersion"@.len() == 21,
        "eventId"@.len() == 7 && "eventId"@[0] == 'e',
        "sendUpdates"@.len() == 11,
        "maxResults"@.len() == 10 && "maxResults"@[0] == 'm',
        "orderBy"@.len() == 7 && "orderBy"@[0] == 'o',
        "singleEvents"@.len() == 12,
        "timeMax"@.len() == 7 && "timeMax"@[0] == 't' && "timeMax"@[5] == 'a',
        "timeMin"@.len() == 7 && "timeMin"@[0] == 't' && "timeMin"@[5] == 'i',
        "showCompleted"@.len() == 13,
        "tasklist"@.len() == 8,
        "task"@.len() == 4,
{
    reveal_strlit("calendarId");
    reveal_strlit("conferenceDataVersion");
    reveal_strlit("eventId");
    reveal_strlit("sendUpdates");
    reveal_strlit("maxResults");
    reveal_strlit("orderBy");
    reveal_strlit("singleEvents");
    reveal_strlit("timeMax");
    reveal_strlit("timeMin");
    reveal_strlit("showCompleted");
    reveal_strlit("tasklist");
    reveal_strlit("task");
}

/// The first member of a key in a list.
proof fn lemma_at(members: Seq<(Seq<char>, JsonV)>, k: int)
    requires
        0 <= k < members.len(),
        forall|i: int| 0 <= i < k ==> (#[trigger] members[i]).0 != members[k].0,
    ensures
        JsonV::Object(members).member(members[k].0) == Some(members[k].1),
{
    reading_laws::law_member_is_the_first_of_its_key(members, members[k].0, k);
}

/// Whom to tell of a change: everybody where the user wants guests to be told, and
/// nobody where not.
pub open spec fn told(notify: bool) -> JsonV {
    JsonV::Str(
        if notify {
            "all"@
        } else {
            "none"@
        },
    )
}

/// An event is created in the calendar that was asked for, and its guests are told
/// exactly where the user wants them to be.
pub proof fn law_creating_tells_guests_as_wanted(calendar_id: Seq<char>, notify: bool)
    ensures
        ({
            let p = gws::insert_params(calendar_id, notify);
            &&& p.member("calendarId"@) == Some(JsonV::Str(calendar_id))
            &&& p.member("conferenceDataVersion"@) == Some(JsonV::Int(1))
            &&& p.member("sendUpdates"@) == Some(told(notify))
            &&& p.text_at("sendUpdates"@) == Some(
                if notify {
                    "all"@
                } else {
                    "none"@
                },
            )
            &&& p matches JsonV::Object(members) && members.len() == 3
        }),
{
    lemma_param_keys();
    let m = gws::insert_params(calendar_id, notify)->Object_0;
    lemma_at(m, 0);
    lemma_at(m, 1);
    lemma_at(m, 2);
}

/// An event is edited where it lies, and its guests are told exactly where the user
/// wants them to be.
pub proof fn law_editing_tells_guests_as_wanted(
    calendar_id: Seq<char>,
    event_id: Seq<char>,
    notify: bool,
)
    ensures
        ({
            let p = gws::patch_params(calendar_id, event_id, notify);
            &&& p.member("calendarId"@) == Some(JsonV::Str(calendar_id))
            &&& p.member("eventId"@) == Some(JsonV::Str(event_id))
            &&& p.member("conferenceDataVersion"@) == Some(JsonV::Int(1))
            &&& p.member("sendUpdates"@) == Some(told(notify))
            &&& p.text_at("sendUpdates"@) == Some(
                if notify {
                    "all"@
                } else {
                    "none"@
                },
            )
            &&& p matches JsonV::Object(members) && members.len() == 4
        }),
{
    lemma_param_keys();
    let m = gws::patch_params(calendar_id, event_id, notify)->Object_0;
    lemma_at(m, 0);
    lemma_at(m, 1);
    lemma_at(m, 2);
    lemma_at(m, 3);
}

/// What two members, or one, say under their keys; the task and the list that a
/// change is for.
pub proof fn law_small_parameters(
    k: Seq<char>,
    v: JsonV,
    l: Seq<char>,
    w: JsonV,
    tasklist_id: Seq<char>,
    task_id: Seq<char>,
)
    requires
        k != l,
    ensures
        gws::single(k, v).member(k) == Some(v),
        gws::single(k, v).member(l) is None,
        gws::pair(k, v, l, w).member(k) == Some(v),
        gws::pair(k, v, l, w).member(l) == Some(w),
        gws::task_params(tasklist_id, task_id).member("task"@) == Some(JsonV::Str(task_id)),
        gws::task_params(tasklist_id, task_id).member("tasklist"@) == Some(
            JsonV::Str(tasklist_id),
        ),
{
    lemma_param_keys();
    gws::lemma_member_one(k, v, k);
    gws::lemma_member_one(k, v, l);
    let m = seq![(k, v), (l, w)];
    lemma_at(m, 0);
    lemma_at(m, 1);
    let t = gws::task_params(tasklist_id, task_id)->Object_0;
    lemma_at(t, 0);
    lemma_at(t, 1);
}

/// Whether a command of three words with parameters alone is run for an account.
pub open spec fn asks(
    r: Result<InvocationView, Seq<char>>,
    a: AccountView,
    x: Seq<char>,
    y: Seq<char>,
    z: Seq<char>,
    p: JsonV,
) -> bool {
    r matches Ok(i) && i.config_dir == a.config_dir->0 && i.credentials_file
        == a.credentials_file->0 && i.args == seq![x, y, z, "--params"@, json::json_text(p)]
}

/// The events of a calendar are asked for from the one time to the other, each
/// occurrence of a series by itself, in the order of their start.
pub proof fn law_events_are_asked_for(
    a: AccountView,
    calendar_id: Seq<char>,
    from: Moment,
    to: Moment,
)
    requires
        a.config_dir is Some,
        a.credentials_file is Some,
    ensures
        exists|p: JsonV|
            {
                &&& #[trigger] asks(
                    gws::events_command(a, calendar_id, from, to),
                    a,
                    "calendar"@,
                    "events"@,
                    "list"@,
                    p,
                )
                &&& p.member("calendarId"@) == Some(JsonV::Str(calendar_id))
                &&& p.member("timeMin"@) == Some(
                    JsonV::Str(time::rfc3339_text(from.secs, from.nanos, from.offset)),
                )
                &&& p.member("timeMax"@) == Some(
                    JsonV::Str(time::rfc3339_text(to.secs, to.nanos, to.offset)),
                )
                &&& p.member("singleEvents"@) == Some(JsonV::Bool(true))
                &&& p.member("orderBy"@) == Some(JsonV::Str("startTime"@))
                &&& p.member("maxResults"@) == Some(JsonV::Int(250))
            },
{
    lemma_param_keys();
    let m = seq![
        ("calendarId"@, JsonV::Str(calendar_id)),
        ("maxResults"@, JsonV::Int(250)),
        ("orderBy"@, JsonV::Str("startTime"@)),
        ("singleEvents"@, JsonV::Bool(true)),
        ("timeMax"@, JsonV::Str(time::rfc3339_text(to.secs, to.nanos, to.offset))),
        ("timeMin"@, JsonV::Str(time::rfc3339_text(from.secs, from.nanos, from.offset))),
    ];
    lemma_at(m, 0);
    lemma_at(m, 1);
    lemma_at(m, 2);
    lemma_at(m, 3);
    lemma_at(m, 4);
    lemma_at(m, 5);
    let r = gws::events_command(a, calendar_id, from, to);
    let p = JsonV::Object(m);
    assert(r->Ok_0.args =~= seq![
        "calendar"@,
        "events"@,
        "list"@,
        "--params"@,
        json::json_text(p),
    ]);
    assert(asks(r, a, "calendar"@, "events"@, "list"@, p));
}

/// The calendars, the task lists, and of a task list the tasks that are not completed
/// are asked for.
pub proof fn law_lists_are_asked_for(a: AccountView, list_id: Seq<char>)
    requires
        a.config_dir is Some,
        a.credentials_file is Some,
    ensures
        exists|p: JsonV|
            #[trigger] asks(
                gws::calendars_command(a),
                a,
                "calendar"@,
                "calendarList"@,
                "list"@,
                p,
            ) && p.member("maxResults"@) == Some(JsonV::Int(250)),
        exists|p: JsonV|
            #[trigger] asks(gws::tasklists_command(a), a, "tasks"@, "tasklists"@, "list"@, p)
                && p.member("maxResults"@) == Some(JsonV::Int(100)),
        exists|p: JsonV|
            {
                &&& #[trigger] asks(
                    gws::tasks_command(a, list_id),
                    a,
                    "tasks"@,
                    "tasks"@,
                    "list"@,
                    p,
                )
                &&& p.member("tasklist"@) == Some(JsonV::Str(list_id))
                &&& p.member("showCompleted"@) == Some(JsonV::Bool(false))
                &&& p.member("maxResults"@) == Some(JsonV::Int(100))
            },
{
    lemma_param_keys();
    let p = gws::single("maxResults"@, JsonV::Int(250));
    gws::lemma_member_one("maxResults"@, JsonV::Int(250), "maxResults"@);
    assert(gws::calendars_command(a)->Ok_0.args =~= seq![
        "calendar"@,
        "calendarList"@,
        "list"@,
        "--params"@,
        json::json_text(p),
    ]);
    assert(asks(gws::calendars_command(a), a, "calendar"@, "calendarList"@, "list"@, p));
    let q = gws::single("maxResults"@, JsonV::Int(100));
    gws::lemma_member_one("maxResults"@, JsonV::Int(100), "maxResults"@);
    assert(gws::tasklists_command(a)->Ok_0.args =~= seq![
        "tasks"@,
        "tasklists"@,
        "list"@,
        "--params"@,
        json::json_text(q),
    ]);
    assert(asks(gws::tasklists_command(a), a, "tasks"@, "tasklists"@, "list"@, q));
    let m = seq![
        ("maxResults"@, JsonV::Int(100)),
        ("showCompleted"@, JsonV::Bool(false)),
        ("tasklist"@, JsonV::Str(list_id)),
    ];
    lemma_at(m, 0);
    lemma_at(m, 1);
    lemma_at(m, 2);
    let t = JsonV::Object(m);
    assert(gws::tasks_command(a, list_id)->Ok_0.args =~= seq![
        "tasks"@,
        "tasks"@,
        "list"@,
        "--params"@,
        json::json_text(t),
    ]);
    assert(asks(gws::tasks_command(a, list_id), a, "tasks"@, "tasks"@, "list"@, t));
}

// ---------------------------------------------------------------------
// Bodies
// ---------------------------------------------------------------------

/// What a boundary says: the day and no time, or the time and no day.
pub open spec fn bounded_by(b: JsonV, all_day: bool, days: int, m: Option<Moment>) -> bool {
    if all_day {
        &&& b.member("date"@) == Some(
            JsonV::Str(time::date_text(days as i32, "%Y-%m-%d"@)),
        )
        &&& b.member("dateTime"@) is None
    } else {
        &&& b.member("date"@) is None
        &&& m matches Some(t) ==> b.member("dateTime"@) == Some(
            JsonV::Str(time::rfc3339_text(t.secs, t.nanos, t.offset)),
        )
    }
}

proof fn lemma_bounded(all_day: bool, day: time::Date, m: Option<Moment>)
    ensures
        bounded_by(gws::boundary(all_day, day, m), all_day, day.days as int, m),
{
    reveal_strlit("date");
    reveal_strlit("dateTime");
    assert("date"@.len() == 4 && "dateTime"@.len() == 8);
    let d = JsonV::Str(time::date_text(day.days, "%Y-%m-%d"@));
    let t = JsonV::Str(time::rfc3339_text(m->0.secs, m->0.nanos, m->0.offset));
    gws::lemma_member_one("date"@, d, "date"@);
    gws::lemma_member_one("date"@, d, "dateTime"@);
    gws::lemma_member_one("dateTime"@, t, "date"@);
    gws::lemma_member_one("dateTime"@, t, "dateTime"@);
}

/// The body of an event says its draft: the texts, the days (the one behind the last
/// as its end) or the times, the guests where the list is said at all, and a video
/// call exactly where one is wanted.
pub proof fn law_event_body(d: EventDraftView, include_attendees: bool, now: Moment)
    ensures
        ({
            let v = gws::event_json(d, include_attendees, now);
            &&& v.member("summary"@) == Some(JsonV::Str(d.summary))
            &&& v.member("location"@) == Some(JsonV::Str(d.location))
            &&& v.member("description"@) == Some(JsonV::Str(d.description))
            &&& v.member("start"@) matches Some(b) && bounded_by(
                b,
                d.all_day,
                d.start_date.days as int,
                d.start_time,
            )
            &&& v.member("end"@) matches Some(b) && bounded_by(
                b,
                d.all_day,
                d.end_date.days + 1,
                d.end_time,
            )
            &&& v.member("attendees"@) is Some <==> include_attendees || d.attendees.len() > 0
            &&& v.items_at("attendees"@).len() == d.attendees.len()
            &&& forall|k: int|
                0 <= k < d.attendees.len() ==> (#[trigger] v.items_at("attendees"@)[k]).member(
                    "email"@,
                ) == Some(JsonV::Str(d.attendees[k]))
            &&& v.member("conferenceData"@) is Some <==> d.add_meet
            &&& v.member("conferenceData"@) matches Some(c) ==> (c.member(
                "createRequest"@,
            ) matches Some(r) && r.member("requestId"@) == Some(
                JsonV::Str(
                    "waycal-"@ + text::signed_numeral(
                        now.secs * 1000 + now.nanos as int / 1_000_000,
                    ),
                ),
            ) && (r.member("conferenceSolutionKey"@) matches Some(k) && k.member("type"@) == Some(
                JsonV::Str("hangoutsMeet"@),
            )))
        }),
{
    let v = gws::event_json(d, include_attendees, now);
    gws::lemma_event_keys();
    gws::lemma_event_members(d, include_attendees, now, "summary"@);
    gws::lemma_event_members(d, include_attendees, now, "location"@);
    gws::lemma_event_members(d, include_attendees, now, "description"@);
    gws::lemma_event_members(d, include_attendees, now, "start"@);
    gws::lemma_event_members(d, include_attendees, now, "end"@);
    gws::lemma_event_members(d, include_attendees, now, "attendees"@);
    gws::lemma_event_members(d, include_attendees, now, "conferenceData"@);
    lemma_bounded(d.all_day, d.start_date, d.start_time);
    lemma_bounded(d.all_day, gws::exclusive_end(d), d.end_time);
    let items = v.items_at("attendees"@);
    assert forall|k: int| 0 <= k < d.attendees.len() implies (#[trigger] items[k]).member(
        "email"@,
    ) == Some(JsonV::Str(d.attendees[k])) by {
        gws::lemma_member_one("email"@, JsonV::Str(d.attendees[k]), "email"@);
        assert(items[k] == gws::single("email"@, JsonV::Str(d.attendees[k])));
    }
    if d.add_meet {
        let id = JsonV::Str(
            "waycal-"@ + text::signed_numeral(now.secs * 1000 + now.nanos as int / 1_000_000),
        );
        let kind = gws::single("type"@, JsonV::Str("hangoutsMeet"@));
        let m = seq![("conferenceSolutionKey"@, kind), ("requestId"@, id)];
        reveal_strlit("conferenceSolutionKey");
        reveal_strlit("requestId");
        assert("conferenceSolutionKey"@.len() == 21 && "requestId"@.len() == 9);
        lemma_at(m, 0);
        lemma_at(m, 1);
        gws::lemma_member_one("createRequest"@, JsonV::Object(m), "createRequest"@);
        gws::lemma_member_one("type"@, JsonV::Str("hangoutsMeet"@), "type"@);
    }
}

/// The body of a task says its draft, and of a task that is replaced as a whole also
/// its id and that it is still to do. What is not said is left out.
pub proof fn law_task_body(d: TaskDraftView, whole: Option<Seq<char>>)
    ensures
        ({
            let v = gws::task_json(d, whole);
            &&& v.member("title"@) == Some(JsonV::Str(d.title))
            &&& v.member("notes"@) == if d.notes.len() == 0 {
                None
            } else {
                Some(JsonV::Str(d.notes))
            }
            &&& v.member("due"@) == match d.due {
                Some(day) => Some(
                    JsonV::Str(
                        time::date_text(day.days, "%Y-%m-%d"@) + "T00:00:00.000Z"@,
                    ),
                ),
                None => None,
            }
            &&& v.member("id"@) == match whole {
                Some(id) => Some(JsonV::Str(id)),
                None => None,
            }
            &&& v.member("status"@) == match whole {
                Some(_) => Some(JsonV::Str("needsAction"@)),
                None => None,
            }
        }),
{
    reveal_strlit("due");
    reveal_strlit("id");
    reveal_strlit("notes");
    reveal_strlit("status");
    reveal_strlit("title");
    assert("due"@.len() == 3 && "id"@.len() == 2 && "notes"@.len() == 5 && "status"@.len() == 6
        && "title"@.len() == 5 && "notes"@[0] == 'n' && "title"@[0] == 't');
    gws::lemma_task_members(d, whole, "title"@);
    gws::lemma_task_members(d, whole, "notes"@);
    gws::lemma_task_members(d, whole, "due"@);
    gws::lemma_task_members(d, whole, "id"@);
    gws::lemma_task_members(d, whole, "status"@);
}

// ---------------------------------------------------------------------
// Answers
// ---------------------------------------------------------------------

/// Behind the last line feed.
proof fn lemma_behind_last_feed(before: Seq<char>, line: Seq<char>)
    requires
        before.len() == 0 || before.last() == '\n',
        !line.contains('\n'),
    ensures
        gws::behind_last_feed(before + line) == line,
    decreases line.len(),
{
    let s = before + line;
    if line.len() == 0 {
        assert(s == before);
        assert(gws::behind_last_feed(s) =~= line);
    } else {
        let front = line.drop_last();
        assert(s.last() == line.last());
        assert(line.contains(line[line.len() - 1]));
        assert(s.drop_last() == before + front);
        assert(!front.contains('\n')) by {
            if front.contains('\n') {
                let i = choose|i: int| 0 <= i < front.len() && front[i] == '\n';
                assert(line[i] == '\n');
            }
        }
        lemma_behind_last_feed(before, front);
        assert(front.push(line.last()) =~= line);
    }
}

/// A command that failed is reported with the last line that it wrote to its error
/// output, whether that line is closed or not; one that could not be run with the
/// reason; what it wrote on success is read as JSON, and nothing written says
/// nothing.
pub proof fn law_answer(
    account: Seq<char>,
    words: Seq<Seq<char>>,
    outcome: Outcome,
    before: Seq<char>,
    line: Seq<char>,
)
    requires
        before.len() == 0 || before.last() == '\n',
        line.len() > 0,
        !line.contains('\n'),
    ensures
        outcome matches Outcome::NotRun(e) ==> gws::answer(account, words, outcome) == Err::<
            JsonV,
            Seq<char>,
        >("["@ + account + "] cannot run gws: "@ + e@),
        outcome matches Outcome::Ended(succeeded, _, err) ==> {
            &&& !succeeded ==> gws::answer(account, words, outcome) is Err
            &&& !succeeded && (err@ == before + line || err@ == (before + line).push('\n'))
                ==> gws::answer(account, words, outcome) == Err::<JsonV, Seq<char>>(
                "["@ + account + "] gws "@ + text::joined(words, " "@) + " failed: "@
                    + text::trimmed(line),
            )
            &&& !succeeded && err@.len() == 0 ==> gws::answer(account, words, outcome) == Err::<
                JsonV,
                Seq<char>,
            >(
                "["@ + account + "] gws "@ + text::joined(words, " "@) + " failed: "@
                    + "unknown error"@,
            )
        },
        outcome matches Outcome::Ended(succeeded, out, _) ==> (succeeded ==> {
            &&& text::trimmed(out@).len() == 0 ==> gws::answer(account, words, outcome) == Ok::<
                JsonV,
                Seq<char>,
            >(JsonV::Null)
            &&& text::trimmed(out@).len() > 0 ==> match json::json_reading(text::trimmed(out@)) {
                Ok(v) => gws::answer(account, words, outcome) == Ok::<JsonV, Seq<char>>(v),
                Err(e) => gws::answer(account, words, outcome) == Err::<JsonV, Seq<char>>(
                    "["@ + account + "] bad JSON from gws: "@ + e,
                ),
            }
        }),
{
    let s = before + line;
    lemma_behind_last_feed(before, line);
    assert(s.last() == line.last());
    assert(line.contains(line[line.len() - 1]));
    assert(s.push('\n').drop_last() == s);
}

// ---------------------------------------------------------------------
// Lists
// ---------------------------------------------------------------------

/// The calendars that are listed are those that the user has selected, in their
/// order.
pub proof fn law_selected_calendars_are_listed(
    account: Seq<char>,
    shorter: JsonV,
    v: JsonV,
    c: JsonV,
)
    requires
        v.items_at("items"@) == shorter.items_at("items"@).push(c),
    ensures
        shorter.items_at("items"@).len() == 0 ==> gws::calendars_listed(account, shorter).len()
            == 0,
        gws::calendars_listed(account, v) == if c.member("selected"@) == Some(JsonV::Bool(true))
            && model::calendar_from(account, c) is Some {
            gws::calendars_listed(account, shorter).push(model::calendar_from(account, c)->0)
        } else {
            gws::calendars_listed(account, shorter)
        },
{
    let items = shorter.items_at("items"@);
    assert(items.push(c).drop_last() == items);
    if gws::listed_calendar(account, c) is Some {
        let x = gws::listed_calendar(account, c)->0;
        let l = gws::calendars_listed(account, shorter);
        assert(l + seq![x] == l.push(x));
    }
}

/// Every task list and every task that has an id is listed, in order.
pub proof fn law_task_lists_and_tasks_are_listed(
    account: Seq<char>,
    list: TaskListView,
    shorter: JsonV,
    v: JsonV,
    t: JsonV,
)
    requires
        v.items_at("items"@) == shorter.items_at("items"@).push(t),
    ensures
        shorter.items_at("items"@).len() == 0 ==> gws::tasklists_listed(account, shorter).len()
            == 0 && gws::tasks_listed(account, list, shorter).len() == 0,
        gws::tasklists_listed(account, v) == match model::tasklist_from(account, t) {
            Some(x) => gws::tasklists_listed(account, shorter).push(x),
            None => gws::tasklists_listed(account, shorter),
        },
        gws::tasks_listed(account, list, v) == match model::task_from(
            account,
            list.id,
            list.title,
            t,
        ) {
            Some(x) => gws::tasks_listed(account, list, shorter).push(x),
            None => gws::tasks_listed(account, list, shorter),
        },
{
    let items = shorter.items_at("items"@);
    assert(items.push(t).drop_last() == items);
    let a = gws::tasklists_listed(account, shorter);
    let b = gws::tasks_listed(account, list, shorter);
    if model::tasklist_from(account, t) is Some {
        let x = model::tasklist_from(account, t)->0;
        assert(a + seq![x] == a.push(x));
    }
    if model::task_from(account, list.id, list.title, t) is Some {
        let x = model::task_from(account, list.id, list.title, t)->0;
        assert(b + seq![x] == b.push(x));
    }
}

/// The type of an entry of an event list.
pub open spec fn kind_of(e: JsonV) -> Seq<char> {
    match e.member("eventType"@) {
        Some(JsonV::Str(s)) => s,
        _ => "default"@,
    }
}

/// Whether positions go up.
pub open spec fn going_up(at: Seq<int>, n: int) -> bool {
    &&& forall|k: int| 0 <= k < at.len() ==> 0 <= #[trigger] at[k] < n
    &&& forall|k: int, l: int| 0 <= k < l < at.len() ==> #[trigger] at[k] < #[trigger] at[l]
}

/// Where the results that are there come from.
proof fn lemma_present_places(results: Seq<Option<EventView>>) -> (at: Seq<int>)
    ensures
        at.len() == backend::present(results).len(),
        going_up(at, results.len() as int),
        forall|k: int|
            0 <= k < at.len() ==> results[#[trigger] at[k]] == Some(backend::present(results)[k]),
        forall|i: int|
            0 <= i < results.len() && (#[trigger] results[i]) is Some ==> at.contains(i),
    decreases results.len(),
{
    if results.len() == 0 {
        Seq::empty()
    } else {
        let front = results.drop_last();
        let n = results.len() - 1;
        let p = lemma_present_places(front);
        let before = backend::present(front);
        let at = if results[n] is Some {
            p.push(n)
        } else {
            p
        };
        assert forall|k: int| 0 <= k < at.len() implies results[#[trigger] at[k]] == Some(
            backend::present(results)[k],
        ) by {
            if k < p.len() {
                assert(at[k] == p[k]);
                assert(front[p[k]] == results[p[k]]);
            }
        }
        assert forall|i: int| 0 <= i < results.len() && (#[trigger] results[i]) is Some implies at.contains(
            i,
        ) by {
            if i < n {
                assert(front[i] == results[i]);
                assert(p.contains(i));
                let k = choose|k: int| 0 <= k < p.len() && p[k] == i;
                assert(at[k] == i);
            } else {
                assert(at[p.len() as int] == n);
            }
        }
        assert forall|k: int| 0 <= k < at.len() implies 0 <= #[trigger] at[k] < n + 1 by {
            if k < p.len() {
                assert(at[k] == p[k]);
            }
        }
        assert forall|k: int, l: int| 0 <= k < l < at.len() implies #[trigger] at[k]
            < #[trigger] at[l] by {
            assert(at[k] == p[k]);
            if l < p.len() {
                assert(at[l] == p[l]);
            }
        }
        at
    }
}

/// Whether events are read from entries at some positions, going up, none of a hidden
/// type, and every other entry is of a hidden type or cannot be read.
pub open spec fn read_at(
    account: Seq<char>,
    cal: CalendarView,
    items: Seq<JsonV>,
    hidden: Seq<Seq<char>>,
    made: Seq<EventView>,
    at: Seq<int>,
) -> bool {
    &&& going_up(at, items.len() as int)
    &&& at.len() == made.len()
    &&& forall|k: int|
        0 <= k < at.len() ==> !hidden.contains(kind_of(items[#[trigger] at[k]]))
            && model::event_read(account, cal.id, cal.summary, items[at[k]], Some(made[k]))
    &&& forall|i: int|
        0 <= i < items.len() && !at.contains(i) ==> hidden.contains(kind_of(#[trigger] items[i]))
            || model::event_read(account, cal.id, cal.summary, items[i], None)
}

/// The events that are listed are read from the entries whose type is not hidden, in
/// their order; every such entry that can be read is among them.
pub proof fn law_events_are_listed(
    account: Seq<char>,
    cal: CalendarView,
    v: JsonV,
    hidden: Seq<Seq<char>>,
    made: Seq<EventView>,
)
    requires
        gws::events_listed(account, cal, v, hidden, made),
    ensures
        exists|at: Seq<int>| #[trigger]
            read_at(account, cal, v.items_at("items"@), hidden, made, at),
{
    let items = v.items_at("items"@);
    let results = choose|results: Seq<Option<EventView>>| #[trigger]
        gws::event_results(account, cal, items, hidden, results) && made == backend::present(
            results,
        );
    let at = lemma_present_places(results);
    assert forall|k: int| 0 <= k < at.len() implies !hidden.contains(
        kind_of(items[#[trigger] at[k]]),
    ) && model::event_read(account, cal.id, cal.summary, items[at[k]], Some(made[k])) by {
        assert(gws::event_type(items[at[k]]) == kind_of(items[at[k]]));
        assert(results[at[k]] == Some(made[k]));
    }
    assert forall|i: int| 0 <= i < items.len() && !at.contains(i) implies hidden.contains(
        kind_of(#[trigger] items[i]),
    ) || model::event_read(account, cal.id, cal.summary, items[i], None) by {
        assert(gws::event_type(items[i]) == kind_of(items[i]));
        assert(results[i] is None);
    }
    assert(read_at(account, cal, items, hidden, made, at));
}

// ---------------------------------------------------------------------
// Everything of an account
// ---------------------------------------------------------------------

/// The errors of answers, in their order.
proof fn lemma_failures(answers: Seq<Result<JsonV, Seq<char>>>, e: Seq<char>)
    ensures
        gws::failures(answers).contains(e) <==> exists|i: int|
            0 <= i < answers.len() && #[trigger] answers[i] == Err::<JsonV, Seq<char>>(e),
    decreases answers.len(),
{
    if answers.len() > 0 {
        let front = answers.drop_last();
        let n = answers.len() - 1;
        lemma_failures(front, e);
        let rest = gws::failures(front);
        let all = gws::failures(answers);
        if answers[n] is Err {
            assert(all == rest.push(answers[n]->Err_0));
            assert(all[rest.len() as int] == answers[n]->Err_0);
        }
        if rest.contains(e) {
            let k = choose|k: int| 0 <= k < rest.len() && rest[k] == e;
            assert(all[k] == e);
            let i = choose|i: int|
                0 <= i < front.len() && #[trigger] front[i] == Err::<JsonV, Seq<char>>(e);
            assert(answers[i] == front[i]);
        }
        if exists|i: int|
            0 <= i < answers.len() && #[trigger] answers[i] == Err::<JsonV, Seq<char>>(e) {
            let i = choose|i: int|
                0 <= i < answers.len() && #[trigger] answers[i] == Err::<JsonV, Seq<char>>(e);
            if i < n {
                assert(front[i] == answers[i]);
            }
        }
        if all.contains(e) && !rest.contains(e) {
            let k = choose|k: int| 0 <= k < all.len() && all[k] == e;
            assert(k == rest.len());
            assert(answers[n] == Err::<JsonV, Seq<char>>(e));
        }
    }
}

/// Every request that failed is told, and nothing else is; the calendars and task
/// lists are those that could be listed.
pub proof fn law_every_failure_is_told(
    account: Seq<char>,
    cals: Result<Seq<CalendarView>, Seq<char>>,
    event_answers: Seq<Result<JsonV, Seq<char>>>,
    lists: Result<Seq<TaskListView>, Seq<char>>,
    task_answers: Seq<Result<JsonV, Seq<char>>>,
    hidden: Seq<Seq<char>>,
    data: AccountDataView,
    errors: Seq<Seq<char>>,
    e: Seq<char>,
)
    requires
        gws::gathered(account, cals, event_answers, lists, task_answers, hidden, data, errors),
    ensures
        errors.contains(e) <==> {
            ||| cals == Err::<Seq<CalendarView>, Seq<char>>(e)
            ||| lists == Err::<Seq<TaskListView>, Seq<char>>(e)
            ||| exists|i: int|
                0 <= i < event_answers.len() && #[trigger] event_answers[i] == Err::<
                    JsonV,
                    Seq<char>,
                >(e)
            ||| exists|i: int|
                0 <= i < task_answers.len() && #[trigger] task_answers[i] == Err::<
                    JsonV,
                    Seq<char>,
                >(e)
        },
        cals matches Ok(c) ==> data.calendars == c,
        lists matches Ok(l) ==> data.tasklists == l,
        cals is Err ==> data.calendars.len() == 0 && data.events.len() == 0,
        lists is Err ==> data.tasklists.len() == 0 && data.tasks.len() == 0,
{
    lemma_failures(event_answers, e);
    lemma_failures(task_answers, e);
    let a = gws::list_error(cals);
    let b = gws::failures(event_answers);
    let c = gws::list_error(lists);
    let d = gws::failures(task_answers);
    assert(errors == a + b + c + d);
    lemma_contains_sum(a, b, e);
    lemma_contains_sum(a + b, c, e);
    lemma_contains_sum(a + b + c, d, e);
    assert(a.contains(e) <==> cals == Err::<Seq<CalendarView>, Seq<char>>(e)) by {
        if cals is Err {
            assert(a[0] == cals->Err_0);
        }
    }
    assert(c.contains(e) <==> lists == Err::<Seq<TaskListView>, Seq<char>>(e)) by {
        if lists is Err {
            assert(c[0] == lists->Err_0);
        }
    }
    if cals is Err {
        let parts = choose|parts: Seq<Seq<EventView>>| #[trigger]
            gws::event_parts(account, gws::list_or_none(cals), event_answers, hidden, parts)
                && data.events == backend::by_start(backend::all_of(parts));
        assert(backend::all_of(parts).len() == 0);
    }
}

proof fn lemma_contains_sum(a: Seq<Seq<char>>, b: Seq<Seq<char>>, e: Seq<char>)
    ensures
        (a + b).contains(e) <==> a.contains(e) || b.contains(e),
{
    if a.contains(e) {
        let i = choose|i: int| 0 <= i < a.len() && a[i] == e;
        assert((a + b)[i] == e);
    }
    if b.contains(e) {
        let i = choose|i: int| 0 <= i < b.len() && b[i] == e;
        assert((a + b)[a.len() + i] == e);
    }
    if (a + b).contains(e) {
        let i = choose|i: int| 0 <= i < (a + b).len() && (a + b)[i] == e;
        if i < a.len() {
            assert(a[i] == e);
        } else {
            assert(b[i - a.len()] == e);
        }
    }
}

/// A task that is shown is one that the answer about some list says.
pub proof fn law_no_task_is_invented(
    account: Seq<char>,
    lists: Seq<TaskListView>,
    answers: Seq<Result<JsonV, Seq<char>>>,
    t: TaskView,
)
    requires
        answers.len() == lists.len(),
        gws::tasks_gathered(account, lists, answers).contains(t),
    ensures
        exists|i: int|
            0 <= i < lists.len() && (#[trigger] answers[i] matches Ok(v) && gws::tasks_listed(
                account,
                lists[i],
                v,
            ).contains(t)),
    decreases lists.len(),
{
    if lists.len() > 0 {
        let n = lists.len() - 1;
        let rest = gws::tasks_gathered(account, lists.drop_last(), answers.drop_last());
        let all = gws::tasks_gathered(account, lists, answers);
        let k = choose|k: int| 0 <= k < all.len() && all[k] == t;
        if k < rest.len() {
            assert(rest[k] == t);
            law_no_task_is_invented(account, lists.drop_last(), answers.drop_last(), t);
            let i = choose|i: int|
                0 <= i < n && (#[trigger] answers.drop_last()[i] matches Ok(v)
                    && gws::tasks_listed(account, lists.drop_last()[i], v).contains(t));
            assert(answers[i] == answers.drop_last()[i]);
        } else {
            assert(answers[n] is Ok);
            let l = gws::tasks_listed(account, lists[n], answers[n]->Ok_0);
            assert(l[k - rest.len()] == t);
        }
    }
}

/// An event that is shown is one that the answer about some calendar says.
pub proof fn law_no_event_is_invented(
    account: Seq<char>,
    cals: Seq<CalendarView>,
    event_answers: Seq<Result<JsonV, Seq<char>>>,
    lists: Result<Seq<TaskListView>, Seq<char>>,
    task_answers: Seq<Result<JsonV, Seq<char>>>,
    hidden: Seq<Seq<char>>,
    data: AccountDataView,
    errors: Seq<Seq<char>>,
    e: EventView,
)
    requires
        event_answers.len() == cals.len(),
        gws::gathered(
            account,
            Ok(cals),
            event_answers,
            lists,
            task_answers,
            hidden,
            data,
            errors,
        ),
        data.events.contains(e),
    ensures
        exists|i: int, made: Seq<EventView>|
            0 <= i < cals.len() && event_answers[i] is Ok && #[trigger] gws::events_listed(
                account,
                cals[i],
                event_answers[i]->Ok_0,
                hidden,
                made,
            ) && made.contains(e),
{
    broadcast use vstd::seq_lib::group_to_multiset_ensures;

    let ok: Result<Seq<CalendarView>, Seq<char>> = Ok(cals);
    let parts = choose|parts: Seq<Seq<EventView>>| #[trigger]
        gws::event_parts(account, gws::list_or_none(ok), event_answers, hidden, parts)
            && data.events == backend::by_start(backend::all_of(parts));
    let all = backend::all_of(parts);
    backend::law_events_are_sorted(all);
    assert(data.events.to_multiset().count(e) > 0);
    assert(all.to_multiset().count(e) > 0);
    assert(all.contains(e));
    let i = lemma_all_of_source(parts, e);
    assert(parts[i].contains(e));
    assert(gws::events_listed(account, cals[i], event_answers[i]->Ok_0, hidden, parts[i]));
}

proof fn lemma_all_of_source(parts: Seq<Seq<EventView>>, e: EventView) -> (i: int)
    requires
        backend::all_of(parts).contains(e),
    ensures
        0 <= i < parts.len(),
        parts[i].contains(e),
    decreases parts.len(),
{
    let rest = backend::all_of(parts.drop_last());
    let all = backend::all_of(parts);
    let n = parts.len() - 1;
    let k = choose|k: int| 0 <= k < all.len() && all[k] == e;
    if k < rest.len() {
        assert(rest[k] == e);
        let i = lemma_all_of_source(parts.drop_last(), e);
        i
    } else {
        assert(parts[n][k - rest.len()] == e);
        n
    }
}

// ---------------------------------------------------------------------
// Order
// ---------------------------------------------------------------------

/// Whether an event starts before another: on an earlier day, or on the same day at
/// an earlier time; without a time it comes first on its day.
pub open spec fn earlier_start(a: EventView, b: EventView) -> bool {
    a.start_date.days < b.start_date.days || (a.start_date.days == b.start_date.days && match (
        a.start_time,
        b.start_time,
    ) {
        (Some(x), Some(y)) => x.secs < y.secs || (x.secs == y.secs && x.nanos < y.nanos),
        (None, Some(_)) => true,
        _ => false,
    })
}

/// Events are shown by their start; one that is listed later stands behind all that
/// do not start after it, so that events that start together keep their order.
pub proof fn law_events_are_shown_by_start(events: Seq<EventView>, e: EventView)
    ensures
        forall|i: int, j: int|
            0 <= i < j < backend::by_start(events).len() ==> !earlier_start(
                #[trigger] backend::by_start(events)[j],
                #[trigger] backend::by_start(events)[i],
            ),
        exists|k: int|
            {
                &&& 0 <= k <= backend::by_start(events).len()
                &&& backend::by_start(events.push(e)) == #[trigger] backend::by_start(
                    events,
                ).insert(k, e)
                &&& k > 0 ==> !earlier_start(e, backend::by_start(events)[k - 1])
                &&& forall|i: int|
                    k <= i < backend::by_start(events).len() ==> earlier_start(
                        e,
                        #[trigger] backend::by_start(events)[i],
                    )
            },
{
    backend::law_events_are_sorted(events);
    let before = backend::by_start(events);
    assert forall|i: int, j: int| 0 <= i < j < before.len() implies !earlier_start(
        #[trigger] before[j],
        #[trigger] before[i],
    ) by {
        assert(!backend::starts_before(before[j], before[i]));
    }
    assert(events.push(e).drop_last() == events);
    let k = lemma_put_event_place(before, e);
    assert(backend::by_start(events.push(e)) == before.insert(k, e));
}

proof fn lemma_put_event_place(events: Seq<EventView>, e: EventView) -> (k: int)
    ensures
        0 <= k <= events.len(),
        backend::put_event(events, e) == events.insert(k, e),
        k > 0 ==> !earlier_start(e, events[k - 1]),
        forall|i: int| k <= i < events.len() ==> earlier_start(e, #[trigger] events[i]),
    decreases events.len(),
{
    let n = events.len() as int;
    if events.len() == 0 || !backend::starts_before(e, events.last()) {
        assert(events.insert(n, e) =~= events.push(e));
        n
    } else {
        let front = events.drop_last();
        let k = lemma_put_event_place(front, e);
        assert(front.insert(k, e).push(events.last()) =~= events.insert(k, e));
        assert forall|i: int| k <= i < events.len() implies earlier_start(
            e,
            #[trigger] events[i],
        ) by {
            if i < n - 1 {
                assert(front[i] == events[i]);
            }
        }
        k
    }
}

} // verus!
