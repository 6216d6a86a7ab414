//! iCalendar objects written from drafts.

use vstd::prelude::*;

use crate::backend::{EventDraft, EventDraftView, TaskDraft, TaskDraftView};
use crate::ical;
use crate::ical::{EventV, IcalAlarm, IcalEvent, IcalTodo, Property, PropertyV, TodoV};
use crate::ics;
use crate::text;
use crate::textmap::TextMap;
use crate::time;
use crate::time::{Date, Instant};

verus! {

// ---------------------------------------------------------------------
// Rendering
// ---------------------------------------------------------------------

proof fn lemma_flat_push(parts: Seq<Seq<char>>, s: Seq<char>)
    ensures
        text::flat(parts.push(s)) == text::flat(parts) + s,
{
    assert(parts.push(s).drop_last() == parts);
}

/// One more property, one more line.
pub proof fn lemma_lines_push(props: Seq<PropertyV>, p: PropertyV)
    ensures
        ics::lines_text(props.push(p)) == ics::lines_text(props) + ics::folded(
            ics::property_line(p),
        ),
{
    let f = |p: PropertyV| ics::folded(ics::property_line(p));
    assert(props.push(p).map_values(f) == props.map_values(f).push(f(p)));
    lemma_flat_push(props.map_values(f), f(p));
}

/// The lines of two lists of properties follow each other.
pub proof fn lemma_lines_add(a: Seq<PropertyV>, b: Seq<PropertyV>)
    ensures
        ics::lines_text(a + b) == ics::lines_text(a) + ics::lines_text(b),
{
    let f = |p: PropertyV| ics::folded(ics::property_line(p));
    assert((a + b).map_values(f) == a.map_values(f) + b.map_values(f));
    text::lemma_flat_add(a.map_values(f), b.map_values(f));
}

/// A parameter value as written.
fn render_param_value(v: &str) -> (r: String)
    ensures
        r@ == ics::param_value_text(v@),
{
    let cs = text::chars_of(v);
    let n = cs.len();
    let comma = text::find_from(&cs, 0, ',');
    let semicolon = text::find_from(&cs, 0, ';');
    let colon = text::find_from(&cs, 0, ':');
    assert(v@.contains(',') == (comma < n)) by {
        if comma < n {
            assert(v@[comma as int] == ',');
        }
    }
    assert(v@.contains(';') == (semicolon < n)) by {
        if semicolon < n {
            assert(v@[semicolon as int] == ';');
        }
    }
    assert(v@.contains(':') == (colon < n)) by {
        if colon < n {
            assert(v@[colon as int] == ':');
        }
    }
    if comma < n || semicolon < n || colon < n {
        let mut out = String::new();
        out.push('"');
        out.push_str(v);
        out.push('"');
        assert(out@ == seq!['"'] + v@ + seq!['"']);
        out
    } else {
        v.to_owned()
    }
}

/// The values of a parameter as written, each by itself.
fn render_param_values(values: &Vec<String>) -> (r: Vec<String>)
    ensures
        r.deep_view() == values.deep_view().map_values(|v: Seq<char>| ics::param_value_text(v)),
{
    let ghost f = |v: Seq<char>| ics::param_value_text(v);
    let ghost all = values.deep_view();
    let mut out: Vec<String> = Vec::new();
    let mut i: usize = 0;
    while i < values.len()
        invariant
            i <= values@.len(),
            all == values.deep_view(),
            f == (|v: Seq<char>| ics::param_value_text(v)),
            out.deep_view() == all.take(i as int).map_values(f),
        decreases values.len() - i,
    {
        let ghost before = out.deep_view();
        assert(all[i as int] == values@[i as int]@);
        let written = render_param_value(values[i].as_str());
        out.push(written);
        assert(out.deep_view() == before.push(f(all[i as int])));
        assert(all.take(i + 1).map_values(f) == all.take(i as int).map_values(f).push(
            f(all[i as int]),
        ));
        i += 1;
    }
    assert(all.take(i as int) == all);
    out
}

/// The parameters of a property as written.
fn render_params(params: &Option<Vec<(String, Vec<String>)>>) -> (r: String)
    ensures
        r@ == ics::params_text(params.deep_view()),
{
    let mut out = String::new();
    match params {
        None => {},
        Some(params) => {
            let ghost all = params.deep_view();
            let ghost f = |param: (Seq<char>, Seq<Seq<char>>)| ics::param_text(param);
            let mut i: usize = 0;
            assert(all.take(0).map_values(f) == Seq::<Seq<char>>::empty());
            while i < params.len()
                invariant
                    i <= params@.len(),
                    all == params.deep_view(),
                    f == (|param: (Seq<char>, Seq<Seq<char>>)| ics::param_text(param)),
                    out@ == text::flat(all.take(i as int).map_values(f)),
                decreases params.len() - i,
            {
                let ghost before = out@;
                let ghost param = all[i as int];
                assert(param == params@[i as int].deep_view());
                out.push(';');
                out.push_str(params[i].0.as_str());
                out.push('=');
                proof {
                    reveal_strlit(",");
                }
                assert(","@ == seq![',']);
                out.push_str(text::join(&render_param_values(&params[i].1), ",").as_str());
                assert(out@ == before + ics::param_text(param));
                assert(all.take(i + 1).map_values(f) == all.take(i as int).map_values(f).push(
                    f(param),
                ));
                proof {
                    lemma_flat_push(all.take(i as int).map_values(f), f(param));
                }
                i += 1;
            }
            assert(all.take(i as int) == all);
        },
    }
    out
}

/// The folded content line of a property, its value as it is and its parameter
/// values in quotes where they need them.
pub fn render_property(p: &Property) -> (r: String)
    ensures
        r@ == ics::folded(ics::property_line(p.deep_view())),
{
    let mut line = p.name.clone();
    line.push_str(render_params(&p.params).as_str());
    line.push(':');
    match &p.value {
        Some(v) => {
            line.push_str(v.as_str());
        },
        None => {},
    }
    assert(line@ == ics::property_line(p.deep_view()));
    ics::ics_fold(line.as_str())
}

/// The folded content lines of properties.
pub fn render_properties(props: &Vec<Property>) -> (r: String)
    ensures
        r@ == ics::lines_text(props.deep_view()),
{
    let ghost all = props.deep_view();
    let mut out = String::new();
    let mut i: usize = 0;
    assert(all.take(0).map_values(|p: PropertyV| ics::folded(ics::property_line(p))) == Seq::<
        Seq<char>,
    >::empty());
    while i < props.len()
        invariant
            i <= props@.len(),
            all == props.deep_view(),
            out@ == ics::lines_text(all.take(i as int)),
        decreases props.len() - i,
    {
        assert(all[i as int] == props@[i as int].deep_view());
        assert(all.take(i + 1) == all.take(i as int).push(all[i as int]));
        proof {
            lemma_lines_push(all.take(i as int), all[i as int]);
        }
        out.push_str(render_property(&props[i]).as_str());
        i += 1;
    }
    assert(all.take(i as int) == all);
    out
}

/// An alarm as written.
pub fn render_alarm(alarm: &IcalAlarm) -> (r: String)
    ensures
        r@ == ics::alarm_text(alarm.deep_view()),
{
    text::concat3(
        "BEGIN:VALARM\r\n",
        render_properties(&alarm.properties).as_str(),
        "END:VALARM\r\n",
    )
}

/// Alarms as written.
fn render_alarms(alarms: &Vec<IcalAlarm>) -> (r: String)
    ensures
        r@ == ics::alarms_text(alarms.deep_view()),
{
    let ghost all = alarms.deep_view();
    let ghost f = |a: Seq<PropertyV>| ics::alarm_text(a);
    let mut out = String::new();
    let mut i: usize = 0;
    assert(all.take(0).map_values(f) == Seq::<Seq<char>>::empty());
    while i < alarms.len()
        invariant
            i <= alarms@.len(),
            all == alarms.deep_view(),
            f == (|a: Seq<PropertyV>| ics::alarm_text(a)),
            out@ == text::flat(all.take(i as int).map_values(f)),
        decreases alarms.len() - i,
    {
        assert(all[i as int] == alarms@[i as int].deep_view());
        out.push_str(render_alarm(&alarms[i]).as_str());
        assert(all.take(i + 1).map_values(f) == all.take(i as int).map_values(f).push(
            f(all[i as int]),
        ));
        proof {
            lemma_flat_push(all.take(i as int).map_values(f), f(all[i as int]));
        }
        i += 1;
    }
    assert(all.take(i as int) == all);
    out
}

// ---------------------------------------------------------------------
// What an edit keeps
// ---------------------------------------------------------------------

/// What an event keeps over an edit beside the fields of a draft; nothing on
/// create.
#[derive(Debug)]
pub struct EventCtx {
    pub uid: String,
    pub organizer_raw: Option<String>,
    /// The lines of the properties that neither a draft nor the other fields say.
    pub kept_raw: String,
    pub alarms_raw: String,
    pub sequence: Option<u32>,
    /// Participation of the guests so far, by lowercased address, so that an
    /// edit does not reset every answer.
    pub existing_partstat: TextMap<String>,
}

/// The model of an [`EventCtx`].
#[verifier::ext_equal]
pub struct EventCtxView {
    pub uid: Seq<char>,
    pub organizer_raw: Option<Seq<char>>,
    pub kept_raw: Seq<char>,
    pub alarms_raw: Seq<char>,
    pub sequence: Option<u32>,
    pub existing_partstat: Map<Seq<char>, Seq<char>>,
}

impl View for EventCtx {
    type V = EventCtxView;

    open spec fn view(&self) -> EventCtxView {
        EventCtxView {
            uid: self.uid@,
            organizer_raw: self.organizer_raw.deep_view(),
            kept_raw: self.kept_raw@,
            alarms_raw: self.alarms_raw@,
            sequence: self.sequence,
            existing_partstat: self.existing_partstat@,
        }
    }
}

/// What a new event keeps: its UID alone.
pub open spec fn create_ctx(uid: Seq<char>) -> EventCtxView {
    EventCtxView {
        uid,
        organizer_raw: None,
        kept_raw: Seq::empty(),
        alarms_raw: Seq::empty(),
        sequence: None,
        existing_partstat: Map::empty(),
    }
}

/// The participation of a guest: PARTSTAT, or NEEDS-ACTION where there is none.
pub open spec fn partstat_of(p: PropertyV) -> Seq<char> {
    match ical::param_of(p, "PARTSTAT"@) {
        Some(s) => s,
        None => "NEEDS-ACTION"@,
    }
}

/// The participation of the guests of an event, by lowercased address; of two
/// entries for one address the later counts.
pub open spec fn partstats_of(props: Seq<PropertyV>) -> Map<Seq<char>, Seq<char>>
    decreases props.len(),
{
    if props.len() == 0 {
        Map::empty()
    } else {
        let rest = partstats_of(props.drop_last());
        let p = props.last();
        if p.name == "ATTENDEE"@ && p.value is Some {
            rest.insert(text::lowercase(ical::without_mailto(p.value->0)), partstat_of(p))
        } else {
            rest
        }
    }
}

/// The sequence number of an event; zero where it has none.
pub open spec fn sequence_of(props: Seq<PropertyV>) -> nat {
    match ical::value_of(props, "SEQUENCE"@) {
        Some(v) => match text::natural_value(v) {
            Some(n) => if n <= u32::MAX {
                n
            } else {
                0
            },
            None => 0,
        },
        None => 0,
    }
}

/// Whether a draft, or what is kept beside it, says what the property of a name
/// says in an event. The end that a draft has stands for a duration.
pub open spec fn event_says(name: Seq<char>) -> bool {
    ||| name == "UID"@
    ||| name == "DTSTAMP"@
    ||| name == "DTSTART"@
    ||| name == "DTEND"@
    ||| name == "DURATION"@
    ||| name == "SUMMARY"@
    ||| name == "LOCATION"@
    ||| name == "DESCRIPTION"@
    ||| name == "ATTENDEE"@
    ||| name == "ORGANIZER"@
    ||| name == "SEQUENCE"@
}

/// The properties of an event that a draft does not say, in their order.
pub open spec fn event_rest(props: Seq<PropertyV>) -> Seq<PropertyV> {
    props.filter(|p: PropertyV| !event_says(p.name))
}

/// Whether a draft says what the property of a name says in a task: the status
/// takes the time of completion and the share that is done with it. `due_said`
/// tells whether the draft says when the task is due, `has_due` whether it names a
/// day, which then stands for a duration.
pub open spec fn todo_says(name: Seq<char>, due_said: bool, has_due: bool) -> bool {
    ||| name == "UID"@
    ||| name == "DTSTAMP"@
    ||| name == "SUMMARY"@
    ||| name == "DESCRIPTION"@
    ||| name == "STATUS"@
    ||| name == "COMPLETED"@
    ||| name == "PERCENT-COMPLETE"@
    ||| due_said && name == "DUE"@
    ||| has_due && name == "DURATION"@
}

/// The properties of a task that a draft does not say, in their order.
pub open spec fn todo_rest(props: Seq<PropertyV>, due_said: bool, has_due: bool) -> Seq<
    PropertyV,
> {
    props.filter(|p: PropertyV| !todo_says(p.name, due_said, has_due))
}

/// Decides [`event_says`].
fn is_said_of_event(name: &str) -> (r: bool)
    ensures
        r == event_says(name@),
{
    text::same(name, "UID") || text::same(name, "DTSTAMP") || text::same(name, "DTSTART")
        || text::same(name, "DTEND") || text::same(name, "DURATION") || text::same(name, "SUMMARY")
        || text::same(name, "LOCATION") || text::same(name, "DESCRIPTION") || text::same(
        name,
        "ATTENDEE",
    ) || text::same(name, "ORGANIZER") || text::same(name, "SEQUENCE")
}

/// Decides [`todo_says`].
fn is_said_of_todo(name: &str, due_said: bool, has_due: bool) -> (r: bool)
    ensures
        r == todo_says(name@, due_said, has_due),
{
    text::same(name, "UID") || text::same(name, "DTSTAMP") || text::same(name, "SUMMARY")
        || text::same(name, "DESCRIPTION") || text::same(name, "STATUS") || text::same(
        name,
        "COMPLETED",
    ) || text::same(name, "PERCENT-COMPLETE") || (due_said && text::same(name, "DUE")) || (has_due
        && text::same(name, "DURATION"))
}

/// One more property that is kept, or not.
pub proof fn lemma_filter_push(props: Seq<PropertyV>, p: PropertyV, f: spec_fn(PropertyV) -> bool)
    ensures
        props.push(p).filter(f) == if f(p) {
            props.filter(f).push(p)
        } else {
            props.filter(f)
        },
{
    reveal(Seq::filter);
    assert(props.push(p).drop_last() == props);
}

/// The lines of the properties of an event that a draft does not say.
fn render_event_rest(props: &Vec<Property>) -> (r: String)
    ensures
        r@ == ics::lines_text(event_rest(props.deep_view())),
{
    let ghost all = props.deep_view();
    let ghost f = |p: PropertyV| !event_says(p.name);
    let mut out = String::new();
    let mut i: usize = 0;
    assert(all.take(0).filter(f) == Seq::<PropertyV>::empty()) by {
        reveal(Seq::filter);
    }
    assert(ics::lines_text(Seq::empty()) == Seq::<char>::empty()) by {
        assert(Seq::<PropertyV>::empty().map_values(
            |p: PropertyV| ics::folded(ics::property_line(p)),
        ) == Seq::<Seq<char>>::empty());
    }
    while i < props.len()
        invariant
            i <= props@.len(),
            all == props.deep_view(),
            f == (|p: PropertyV| !event_says(p.name)),
            out@ == ics::lines_text(all.take(i as int).filter(f)),
        decreases props.len() - i,
    {
        assert(all[i as int] == props@[i as int].deep_view());
        assert(all.take(i + 1) == all.take(i as int).push(all[i as int]));
        proof {
            lemma_filter_push(all.take(i as int), all[i as int], f);
        }
        if !is_said_of_event(props[i].name.as_str()) {
            proof {
                lemma_lines_push(all.take(i as int).filter(f), all[i as int]);
            }
            out.push_str(render_property(&props[i]).as_str());
        }
        i += 1;
    }
    assert(all.take(i as int) == all);
    out
}

/// The lines of the properties of a task that a draft does not say.
fn render_todo_rest(props: &Vec<Property>, due_said: bool, has_due: bool) -> (r: String)
    ensures
        r@ == ics::lines_text(todo_rest(props.deep_view(), due_said, has_due)),
{
    let ghost all = props.deep_view();
    let ghost f = |p: PropertyV| !todo_says(p.name, due_said, has_due);
    let mut out = String::new();
    let mut i: usize = 0;
    assert(all.take(0).filter(f) == Seq::<PropertyV>::empty()) by {
        reveal(Seq::filter);
    }
    assert(ics::lines_text(Seq::empty()) == Seq::<char>::empty()) by {
        assert(Seq::<PropertyV>::empty().map_values(
            |p: PropertyV| ics::folded(ics::property_line(p)),
        ) == Seq::<Seq<char>>::empty());
    }
    while i < props.len()
        invariant
            i <= props@.len(),
            all == props.deep_view(),
            f == (|p: PropertyV| !todo_says(p.name, due_said, has_due)),
            out@ == ics::lines_text(all.take(i as int).filter(f)),
        decreases props.len() - i,
    {
        assert(all[i as int] == props@[i as int].deep_view());
        assert(all.take(i + 1) == all.take(i as int).push(all[i as int]));
        proof {
            lemma_filter_push(all.take(i as int), all[i as int], f);
        }
        if !is_said_of_todo(props[i].name.as_str(), due_said, has_due) {
            proof {
                lemma_lines_push(all.take(i as int).filter(f), all[i as int]);
            }
            out.push_str(render_property(&props[i]).as_str());
        }
        i += 1;
    }
    assert(all.take(i as int) == all);
    out
}

/// What an edited event keeps: UID, organizer, alarms, participation and every
/// property that a draft does not say; its sequence number goes up by one.
pub open spec fn edit_ctx(ev: EventV) -> EventCtxView {
    EventCtxView {
        uid: match ical::value_of(ev.properties, "UID"@) {
            Some(uid) => uid,
            None => Seq::empty(),
        },
        organizer_raw: match ical::first_named(ev.properties, "ORGANIZER"@) {
            Some(p) => Some(ics::folded(ics::property_line(p))),
            None => None,
        },
        kept_raw: ics::lines_text(event_rest(ev.properties)),
        alarms_raw: ics::alarms_text(ev.alarms),
        sequence: Some((sequence_of(ev.properties) + 1) as u32),
        existing_partstat: partstats_of(ev.properties),
    }
}

/// Reads the sequence number of an event.
pub fn read_sequence(existing: &IcalEvent) -> (r: u32)
    ensures
        r == sequence_of(existing.deep_view().properties),
{
    match ical::ical_value(&existing.properties, "SEQUENCE") {
        Some(v) => match text::parse_u32(v) {
            Some(n) => n,
            None => 0,
        },
        None => 0,
    }
}

/// Reads the participation of the guests of an event.
fn read_partstats(props: &Vec<Property>) -> (r: TextMap<String>)
    ensures
        r@ == partstats_of(props.deep_view()),
{
    let ghost all = props.deep_view();
    let mut out = TextMap::new();
    let mut i: usize = 0;
    while i < props.len()
        invariant
            i <= props@.len(),
            all == props.deep_view(),
            out@ == partstats_of(all.take(i as int)),
        decreases props.len() - i,
    {
        assert(all.take(i + 1).drop_last() == all.take(i as int));
        assert(all.take(i + 1).last() == props@[i as int].deep_view());
        let p = &props[i];
        if text::same(p.name.as_str(), "ATTENDEE") {
            if let Some(v) = &p.value {
                let email = text::to_lowercase(ical::strip_mailto(v.as_str()).as_str());
                let partstat = match ical::ical_param(p, "PARTSTAT") {
                    Some(s) => s.to_owned(),
                    None => "NEEDS-ACTION".to_owned(),
                };
                out.insert(email, partstat);
            }
        }
        i += 1;
    }
    assert(all.take(i as int) == all);
    out
}

impl EventCtx {
    /// What a new event keeps.
    pub fn for_create(uid: String) -> (r: Self)
        ensures
            r@ == create_ctx(uid@),
    {
        EventCtx {
            uid,
            organizer_raw: None,
            kept_raw: String::new(),
            alarms_raw: String::new(),
            sequence: None,
            existing_partstat: TextMap::new(),
        }
    }

    /// What an edited event keeps.
    pub fn for_edit(existing: &IcalEvent) -> (r: Self)
        requires
            sequence_of(existing.deep_view().properties) < u32::MAX,
        ensures
            r@ == edit_ctx(existing.deep_view()),
    {
        let uid = match ical::ical_value(&existing.properties, "UID") {
            Some(uid) => uid.to_owned(),
            None => String::new(),
        };
        let organizer_raw = match ical::ical_prop(&existing.properties, "ORGANIZER") {
            Some(p) => Some(render_property(p)),
            None => None,
        };
        EventCtx {
            uid,
            organizer_raw,
            kept_raw: render_event_rest(&existing.properties),
            alarms_raw: render_alarms(&existing.alarms),
            sequence: Some(read_sequence(existing) + 1),
            existing_partstat: read_partstats(&existing.properties),
        }
    }
}

// ---------------------------------------------------------------------
// Events
// ---------------------------------------------------------------------

/// An instant as it stands in a property: `YYYYMMDDTHHMMSSZ`.
pub open spec fn utc_stamp(t: Instant) -> Seq<char> {
    time::stamp_text(t.secs, t.nanos).push('Z')
}

/// A property without parameters.
pub open spec fn plain(name: Seq<char>, value: Seq<char>) -> PropertyV {
    PropertyV { name, params: None, value: Some(value) }
}

/// A property with a day as its value.
pub open spec fn dated(name: Seq<char>, day: Date) -> PropertyV {
    PropertyV {
        name,
        params: Some(seq![("VALUE"@, seq!["DATE"@])]),
        value: Some(time::date_text(day.days, "%Y%m%d"@)),
    }
}

/// A TEXT property, left out where the text is empty.
pub open spec fn optional_text(name: Seq<char>, value: Seq<char>) -> Seq<PropertyV> {
    if value.len() == 0 {
        Seq::empty()
    } else {
        seq![plain(name, ics::escaped(value))]
    }
}

/// The participation of a guest that is known, else NEEDS-ACTION.
pub open spec fn known_partstat(
    email: Seq<char>,
    partstats: Map<Seq<char>, Seq<char>>,
) -> Seq<char> {
    if partstats.contains_key(text::lowercase(email)) {
        partstats[text::lowercase(email)]
    } else {
        "NEEDS-ACTION"@
    }
}

/// A guest: participation, a request to answer where the guest has not, and the
/// address.
pub open spec fn guest(email: Seq<char>, partstats: Map<Seq<char>, Seq<char>>) -> PropertyV {
    let partstat = known_partstat(email, partstats);
    PropertyV {
        name: "ATTENDEE"@,
        params: Some(
            if partstat == "NEEDS-ACTION"@ {
                seq![("PARTSTAT"@, seq![partstat]), ("RSVP"@, seq!["TRUE"@])]
            } else {
                seq![("PARTSTAT"@, seq![partstat])]
            },
        ),
        value: Some("mailto:"@ + email),
    }
}

/// The guests of an event.
pub open spec fn guests(
    emails: Seq<Seq<char>>,
    partstats: Map<Seq<char>, Seq<char>>,
) -> Seq<PropertyV> {
    emails.map_values(|email: Seq<char>| guest(email, partstats))
}

/// Start and end of an event: days, the end exclusive, or points in time.
pub open spec fn span(d: EventDraftView) -> Seq<PropertyV> {
    if d.all_day {
        seq![
            dated("DTSTART"@, d.start_date),
            dated("DTEND"@, exclusive_end(d)),
        ]
    } else {
        seq![
            plain("DTSTART"@, utc_stamp(d.start_time->0.at())),
            plain("DTEND"@, utc_stamp(d.end_time->0.at())),
        ]
    }
}

/// The properties of an event that come from the draft.
pub open spec fn event_props(d: EventDraftView, ctx: EventCtxView, now: Instant) -> Seq<PropertyV> {
    seq![plain("UID"@, ctx.uid), plain("DTSTAMP"@, utc_stamp(now))] + span(d) + seq![
        plain("SUMMARY"@, ics::escaped(d.summary)),
    ] + optional_text("LOCATION"@, d.location) + optional_text("DESCRIPTION"@, d.description)
        + guests(d.attendees, ctx.existing_partstat)
}

/// The sequence number of an event, where it has one.
pub open spec fn sequence_props(sequence: Option<u32>) -> Seq<PropertyV> {
    match sequence {
        Some(n) => seq![plain("SEQUENCE"@, text::numeral(n as nat))],
        None => Seq::empty(),
    }
}

/// The calendar object of an event: the draft's properties, then what it keeps.
pub open spec fn vevent_text(d: EventDraftView, ctx: EventCtxView, now: Instant) -> Seq<char> {
    ics::event_head() + ics::lines_text(event_props(d, ctx, now)) + match ctx.organizer_raw {
        Some(line) => line,
        None => Seq::empty(),
    } + ctx.kept_raw + ics::lines_text(sequence_props(ctx.sequence)) + ctx.alarms_raw
        + ics::event_tail()
}

/// An instant with a four-digit year is written without white space.
pub open spec fn stamp_is_compact(t: Instant) -> bool {
    time::four_digit_instant(t.secs as int) ==> time::compact(time::stamp_text(t.secs, t.nanos))
}

/// A day with a four-digit year is written without white space.
pub open spec fn day_is_compact(d: Date) -> bool {
    time::four_digit_day(d.days as int) ==> time::compact(time::date_text(d.days, "%Y%m%d"@))
}

/// The day behind the last one.
pub open spec fn exclusive_end(d: EventDraftView) -> Date {
    Date { days: (d.end_date.days + 1) as i32 }
}

/// The dates of an event are written without white space.
pub open spec fn event_dates_compact(d: EventDraftView, now: Instant) -> bool {
    &&& stamp_is_compact(now)
    &&& d.all_day ==> day_is_compact(d.start_date) && day_is_compact(exclusive_end(d))
    &&& !d.all_day ==> stamp_is_compact(d.start_time->0.at()) && stamp_is_compact(
        d.end_time->0.at(),
    )
}

/// The dates of a task are written without white space.
pub open spec fn todo_dates_compact(d: TaskDraftView, now: Instant) -> bool {
    &&& stamp_is_compact(now)
    &&& d.due matches Some(day) ==> day_is_compact(day)
}

/// A property without parameters.
fn plain_property(name: &str, value: String) -> (r: Property)
    ensures
        r.deep_view() == plain(name@, value@),
{
    Property { name: name.to_owned(), params: None, value: Some(value) }
}

/// One parameter with one value.
fn single_param(key: &str, value: &str) -> (r: (String, Vec<String>))
    ensures
        r.deep_view() == (key@, seq![value@]),
{
    let mut values: Vec<String> = Vec::new();
    values.push(value.to_owned());
    assert(values.deep_view() == seq![value@]);
    (key.to_owned(), values)
}

/// A property with an instant as its value.
fn stamped_property(name: &str, t: Instant) -> (r: Property)
    requires
        t.valid(),
    ensures
        r.deep_view() == plain(name@, utc_stamp(t)),
        stamp_is_compact(t),
{
    let stamp = time::format_stamp(t);
    assert(stamp@.drop_last() == time::stamp_text(t.secs, t.nanos));
    plain_property(name, stamp)
}

/// A property with a day as its value.
fn dated_property(name: &str, day: Date) -> (r: Property)
    requires
        day.valid(),
    ensures
        r.deep_view() == dated(name@, day),
        day_is_compact(day),
{
    let mut params: Vec<(String, Vec<String>)> = Vec::new();
    params.push(single_param("VALUE", "DATE"));
    assert(params.deep_view() == seq![("VALUE"@, seq!["DATE"@])]);
    Property {
        name: name.to_owned(),
        params: Some(params),
        value: Some(time::format_date(day, "%Y%m%d")),
    }
}

/// A guest.
fn guest_property(email: &str, partstats: &TextMap<String>) -> (r: Property)
    ensures
        r.deep_view() == guest(email@, partstats@),
{
    let key = text::to_lowercase(email);
    let partstat = match partstats.get(key.as_str()) {
        Some(s) => s.as_str(),
        None => "NEEDS-ACTION",
    };
    let mut params: Vec<(String, Vec<String>)> = Vec::new();
    params.push(single_param("PARTSTAT", partstat));
    if text::same(partstat, "NEEDS-ACTION") {
        params.push(single_param("RSVP", "TRUE"));
        assert(params.deep_view() == seq![
            ("PARTSTAT"@, seq![partstat@]),
            ("RSVP"@, seq!["TRUE"@]),
        ]);
    } else {
        assert(params.deep_view() == seq![("PARTSTAT"@, seq![partstat@])]);
    }
    Property {
        name: "ATTENDEE".to_owned(),
        params: Some(params),
        value: Some(text::concat("mailto:", email)),
    }
}

/// Appends one property.
fn add(props: &mut Vec<Property>, p: Property)
    ensures
        final(props).deep_view() == old(props).deep_view().push(p.deep_view()),
{
    let ghost before = props.deep_view();
    props.push(p);
    assert(props.deep_view() == before.push(p.deep_view()));
}

/// Appends a TEXT property, unless the text is empty.
fn add_text(props: &mut Vec<Property>, name: &str, value: &str)
    ensures
        final(props).deep_view() == old(props).deep_view() + optional_text(name@, value@),
{
    if !value.is_empty() {
        self::add(props, plain_property(name, ics::ics_escape(value)));
    }
    assert(props.deep_view() == old(props).deep_view() + optional_text(name@, value@));
}

/// Appends the guests of an event.
fn add_guests(props: &mut Vec<Property>, emails: &Vec<String>, partstats: &TextMap<String>)
    ensures
        final(props).deep_view() == old(props).deep_view() + guests(
            emails.deep_view(),
            partstats@,
        ),
{
    let ghost before = props.deep_view();
    let ghost all = emails.deep_view();
    let mut i: usize = 0;
    assert(before + guests(all.take(0), partstats@) == before);
    while i < emails.len()
        invariant
            i <= emails@.len(),
            all == emails.deep_view(),
            props.deep_view() == before + guests(all.take(i as int), partstats@),
        decreases emails.len() - i,
    {
        assert(all[i as int] == emails@[i as int]@);
        self::add(props, guest_property(emails[i].as_str(), partstats));
        assert(guests(all.take(i + 1), partstats@) == guests(all.take(i as int), partstats@).push(
            guest(all[i as int], partstats@),
        ));
        i += 1;
    }
    assert(all.take(i as int) == all);
}

/// The properties of an event that come from the draft.
fn event_properties(draft: &EventDraft, ctx: &EventCtx, now: Instant) -> (r: Vec<Property>)
    requires
        draft.deep_view().ready(),
        now.valid(),
    ensures
        r.deep_view() == event_props(draft.deep_view(), ctx@, now),
        event_dates_compact(draft.deep_view(), now),
{
    let ghost d = draft.deep_view();
    let mut props: Vec<Property> = Vec::new();
    self::add(&mut props, plain_property("UID", ctx.uid.clone()));
    self::add(&mut props, stamped_property("DTSTAMP", now));
    assert(props.deep_view() == seq![plain("UID"@, ctx.uid@), plain("DTSTAMP"@, utc_stamp(now))]);
    if draft.all_day {
        self::add(&mut props, dated_property("DTSTART", draft.start_date));
        self::add(&mut props, dated_property("DTEND", draft.end_date.plus(1)));
    } else {
        let (start, end) = match (draft.start_time, draft.end_time) {
            (Some(s), Some(e)) => (s.instant(), e.instant()),
            _ => (now, now),
        };
        self::add(&mut props, stamped_property("DTSTART", start));
        self::add(&mut props, stamped_property("DTEND", end));
    }
    assert(props.deep_view() == seq![
        plain("UID"@, ctx.uid@),
        plain("DTSTAMP"@, utc_stamp(now)),
    ] + span(d));
    let ghost before = props.deep_view();
    self::add(&mut props, plain_property("SUMMARY", ics::ics_escape(draft.summary.as_str())));
    assert(props.deep_view() == before + seq![plain("SUMMARY"@, ics::escaped(d.summary))]);
    add_text(&mut props, "LOCATION", draft.location.as_str());
    add_text(&mut props, "DESCRIPTION", draft.description.as_str());
    add_guests(&mut props, &draft.attendees, &ctx.existing_partstat);
    props
}

/// The calendar object of an event, stamped with a given time.
pub fn build_vevent(draft: &EventDraft, ctx: &EventCtx, now: Instant) -> (r: String)
    requires
        draft.deep_view().ready(),
        now.valid(),
    ensures
        r@ == vevent_text(draft.deep_view(), ctx@, now),
        event_dates_compact(draft.deep_view(), now),
{
    let mut out =
        "BEGIN:VCALENDAR\r\nVERSION:2.0\r\nPRODID:-//waycal//caldav//EN\r\nBEGIN:VEVENT\r\n".to_owned();
    out.push_str(render_properties(&event_properties(draft, ctx, now)).as_str());
    if let Some(line) = &ctx.organizer_raw {
        out.push_str(line.as_str());
    } else {
        assert(out@ + Seq::<char>::empty() == out@);
    }
    out.push_str(ctx.kept_raw.as_str());
    let mut props: Vec<Property> = Vec::new();
    if let Some(n) = ctx.sequence {
        self::add(&mut props, plain_property("SEQUENCE", text::decimal(n as u64)));
    }
    assert(props.deep_view() == sequence_props(ctx.sequence));
    out.push_str(render_properties(&props).as_str());
    out.push_str(ctx.alarms_raw.as_str());
    out.push_str("END:VEVENT\r\nEND:VCALENDAR\r\n");
    out
}

/// The calendar object of an event, stamped with the time of writing.
pub fn build_vevent_ics(draft: &EventDraft, ctx: &EventCtx) -> (r: String)
    requires
        draft.deep_view().ready(),
    ensures
        exists|now: Instant|
            now.valid() && event_dates_compact(draft.deep_view(), now) && r@
                == #[trigger] vevent_text(draft.deep_view(), ctx@, now),
{
    let now = time::utc_now();
    build_vevent(draft, ctx, now)
}

// ---------------------------------------------------------------------
// Tasks
// ---------------------------------------------------------------------

/// The due day of a task, where it has one.
pub open spec fn due_props(due: Option<Date>) -> Seq<PropertyV> {
    match due {
        Some(day) => seq![dated("DUE"@, day)],
        None => Seq::empty(),
    }
}

/// The properties of a task.
pub open spec fn todo_props(
    d: TaskDraftView,
    uid: Seq<char>,
    status: Seq<char>,
    now: Instant,
) -> Seq<PropertyV> {
    seq![
        plain("UID"@, uid),
        plain("DTSTAMP"@, utc_stamp(now)),
        plain("SUMMARY"@, ics::escaped(d.title)),
    ] + optional_text("DESCRIPTION"@, d.notes) + due_props(d.due) + seq![plain("STATUS"@, status)]
}

/// The calendar object of a task, with further lines at its end.
pub open spec fn vtodo_text(
    d: TaskDraftView,
    uid: Seq<char>,
    status: Seq<char>,
    extra: Seq<char>,
    now: Instant,
) -> Seq<char> {
    ics::todo_head() + ics::lines_text(todo_props(d, uid, status, now)) + extra + ics::todo_tail()
}

/// The calendar object of a task, stamped with a given time.
pub fn build_vtodo(draft: &TaskDraft, uid: &str, status: &str, extra: &str, now: Instant) -> (r:
    String)
    requires
        draft.deep_view().ready(),
        now.valid(),
    ensures
        r@ == vtodo_text(draft.deep_view(), uid@, status@, extra@, now),
        todo_dates_compact(draft.deep_view(), now),
{
    let ghost d = draft.deep_view();
    let mut props: Vec<Property> = Vec::new();
    self::add(&mut props, plain_property("UID", uid.to_owned()));
    self::add(&mut props, stamped_property("DTSTAMP", now));
    self::add(&mut props, plain_property("SUMMARY", ics::ics_escape(draft.title.as_str())));
    assert(props.deep_view() == seq![
        plain("UID"@, uid@),
        plain("DTSTAMP"@, utc_stamp(now)),
        plain("SUMMARY"@, ics::escaped(d.title)),
    ]);
    add_text(&mut props, "DESCRIPTION", draft.notes.as_str());
    let ghost before = props.deep_view();
    if let Some(day) = draft.due {
        self::add(&mut props, dated_property("DUE", day));
    }
    assert(props.deep_view() == before + due_props(d.due));
    let ghost middle = props.deep_view();
    self::add(&mut props, plain_property("STATUS", status.to_owned()));
    assert(props.deep_view() == middle + seq![plain("STATUS"@, status@)]);
    let mut out =
        "BEGIN:VCALENDAR\r\nVERSION:2.0\r\nPRODID:-//waycal//caldav//EN\r\nBEGIN:VTODO\r\n".to_owned();
    out.push_str(render_properties(&props).as_str());
    out.push_str(extra);
    out.push_str("END:VTODO\r\nEND:VCALENDAR\r\n");
    out
}

/// The calendar object of a task, stamped with the time of writing.
pub fn build_vtodo_ics(draft: &TaskDraft, uid: &str, status: &str, extra: &str) -> (r: String)
    requires
        draft.deep_view().ready(),
    ensures
        exists|now: Instant|
            now.valid() && todo_dates_compact(draft.deep_view(), now) && r@ == #[trigger] vtodo_text(
                draft.deep_view(),
                uid@,
                status@,
                extra@,
                now,
            ),
{
    let now = time::utc_now();
    build_vtodo(draft, uid, status, extra, now)
}

/// What a task keeps over an edit, as it stands at its end: the properties that
/// the draft does not say, the given ones and its alarms.
pub open spec fn kept_text(
    todo: TodoV,
    due_said: bool,
    has_due: bool,
    done: Seq<PropertyV>,
) -> Seq<char> {
    ics::lines_text(todo_rest(todo.properties, due_said, has_due)) + ics::lines_text(done)
        + ics::alarms_text(todo.alarms)
}

/// What a task that is still to do keeps over an edit.
pub fn kept_lines(todo: &IcalTodo, due_said: bool, has_due: bool) -> (r: String)
    ensures
        r@ == kept_text(todo.deep_view(), due_said, has_due, Seq::empty()),
{
    let mut out = render_todo_rest(&todo.properties, due_said, has_due);
    assert(ics::lines_text(Seq::empty()) == Seq::<char>::empty()) by {
        assert(Seq::<PropertyV>::empty().map_values(
            |p: PropertyV| ics::folded(ics::property_line(p)),
        ) == Seq::<Seq<char>>::empty());
    }
    assert(out@ + Seq::<char>::empty() == out@);
    out.push_str(render_alarms(&todo.alarms).as_str());
    out
}

/// What a task keeps when it is completed, with when it was and that it is.
pub fn kept_and_completed_lines(
    todo: &IcalTodo,
    due_said: bool,
    has_due: bool,
    done: Instant,
) -> (r: String)
    requires
        done.valid(),
    ensures
        r@ == kept_text(todo.deep_view(), due_said, has_due, completed_props(done)),
        stamp_is_compact(done),
{
    let mut out = render_todo_rest(&todo.properties, due_said, has_due);
    out.push_str(completed_lines(done).as_str());
    out.push_str(render_alarms(&todo.alarms).as_str());
    out
}

/// What a completed task says at its end: when it was completed, and that it is.
pub open spec fn completed_props(now: Instant) -> Seq<PropertyV> {
    seq![plain("COMPLETED"@, utc_stamp(now)), plain("PERCENT-COMPLETE"@, "100"@)]
}

/// The lines at the end of a completed task.
pub fn completed_lines(now: Instant) -> (r: String)
    requires
        now.valid(),
    ensures
        r@ == ics::lines_text(completed_props(now)),
        stamp_is_compact(now),
{
    let mut props: Vec<Property> = Vec::new();
    self::add(&mut props, stamped_property("COMPLETED", now));
    self::add(&mut props, plain_property("PERCENT-COMPLETE", "100".to_owned()));
    assert(props.deep_view() == completed_props(now));
    render_properties(&props)
}

} // verus!
