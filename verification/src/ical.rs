//! Parsed iCalendar components and what their properties mean.

use vstd::prelude::*;

use ical::parser::ical::component::IcalAlarm as RawAlarm;
use ical::property::Property as RawProperty;
use ical::IcalParser;

use crate::ics;
use crate::text;
use crate::time;
use crate::time::{Date, Instant, Moment};

verus! {

/// One content line: name, parameters and value.
#[derive(Debug)]
pub struct Property {
    pub name: String,
    pub params: Option<Vec<(String, Vec<String>)>>,
    pub value: Option<String>,
}

/// A VALARM.
#[derive(Debug)]
pub struct IcalAlarm {
    pub properties: Vec<Property>,
}

/// A VEVENT.
#[derive(Debug)]
pub struct IcalEvent {
    pub properties: Vec<Property>,
    pub alarms: Vec<IcalAlarm>,
}

/// A VTODO.
#[derive(Debug)]
pub struct IcalTodo {
    pub properties: Vec<Property>,
    pub alarms: Vec<IcalAlarm>,
}

/// The events and tasks of a VCALENDAR.
#[derive(Debug)]
pub struct IcalCalendar {
    pub events: Vec<IcalEvent>,
    pub todos: Vec<IcalTodo>,
}

/// The model of a [`Property`].
#[verifier::ext_equal]
pub struct PropertyV {
    pub name: Seq<char>,
    pub params: Option<Seq<(Seq<char>, Seq<Seq<char>>)>>,
    pub value: Option<Seq<char>>,
}

/// The model of an [`IcalEvent`]: its properties and those of its alarms.
#[verifier::ext_equal]
pub struct EventV {
    pub properties: Seq<PropertyV>,
    pub alarms: Seq<Seq<PropertyV>>,
}

/// The model of an [`IcalTodo`]: its properties and those of its alarms.
#[verifier::ext_equal]
pub struct TodoV {
    pub properties: Seq<PropertyV>,
    pub alarms: Seq<Seq<PropertyV>>,
}

/// The model of an [`IcalCalendar`].
#[verifier::ext_equal]
pub struct CalendarV {
    pub events: Seq<EventV>,
    pub todos: Seq<TodoV>,
}

impl DeepView for Property {
    type V = PropertyV;

    open spec fn deep_view(&self) -> PropertyV {
        PropertyV {
            name: self.name@,
            params: self.params.deep_view(),
            value: self.value.deep_view(),
        }
    }
}

impl DeepView for IcalAlarm {
    type V = Seq<PropertyV>;

    open spec fn deep_view(&self) -> Seq<PropertyV> {
        self.properties.deep_view()
    }
}

impl DeepView for IcalEvent {
    type V = EventV;

    open spec fn deep_view(&self) -> EventV {
        EventV { properties: self.properties.deep_view(), alarms: self.alarms.deep_view() }
    }
}

impl DeepView for IcalTodo {
    type V = TodoV;

    open spec fn deep_view(&self) -> TodoV {
        TodoV { properties: self.properties.deep_view(), alarms: self.alarms.deep_view() }
    }
}

impl DeepView for IcalCalendar {
    type V = CalendarV;

    open spec fn deep_view(&self) -> CalendarV {
        CalendarV { events: self.events.deep_view(), todos: self.todos.deep_view() }
    }
}

// ---------------------------------------------------------------------
// Reading a calendar
// ---------------------------------------------------------------------

/// What `ical::IcalParser` makes of a text: the first calendar in it, `None`
/// where there is none or it cannot be parsed.
pub uninterp spec fn calendar_reading(text: Seq<char>) -> Option<CalendarV>;

/// A name of capital letters, digits and hyphens.
pub open spec fn plain_name(name: Seq<char>) -> bool {
    &&& name.len() > 0
    &&& forall|i: int|
        0 <= i < name.len() ==> ('A' <= #[trigger] name[i] <= 'Z' || text::is_digit(name[i])
            || name[i] == '-')
}

/// A parameter value that is read back from what is written for it: on one line,
/// with no quote in it where it is written in quotes, else with none in front.
pub open spec fn plain_param_value(v: Seq<char>) -> bool {
    &&& !v.contains('\n')
    &&& if ics::needs_quotes(v) {
        !v.contains('"')
    } else {
        v.len() > 0 ==> v[0] != '"'
    }
}

/// One to ten such values, none of them empty beside others.
pub open spec fn plain_param(param: (Seq<char>, Seq<Seq<char>>)) -> bool {
    &&& plain_name(param.0)
    &&& 1 <= param.1.len() <= 10
    &&& forall|i: int| 0 <= i < param.1.len() ==> plain_param_value(#[trigger] param.1[i])
    &&& param.1.len() > 1 ==> forall|i: int|
        0 <= i < param.1.len() ==> (#[trigger] param.1[i]).len() > 0
}

/// Whether a property comes back as it is from the line written for it: plain
/// name and parameters, a value that is not empty, does not start with a colon
/// and holds no line feed, and no white space at the end of a physical line.
pub open spec fn survives(p: PropertyV) -> bool {
    &&& plain_name(p.name) && p.name != "BEGIN"@ && p.name != "END"@
    &&& p.params matches Some(params) ==> params.len() > 0 && forall|i: int|
        0 <= i < params.len() ==> plain_param(#[trigger] params[i])
    &&& p.value matches Some(v) ==> v.len() > 0 && v[0] != ':' && !v.contains('\n')
    &&& forall|i: int|
        0 <= i < ics::line_pieces(ics::property_line(p)).len() ==> !text::white(
            (#[trigger] ics::line_pieces(ics::property_line(p))[i]).last(),
        )
}

/// Whether every property survives.
pub open spec fn all_survive(props: Seq<PropertyV>) -> bool {
    forall|i: int| 0 <= i < props.len() ==> survives(#[trigger] props[i])
}

/// An event whose properties survive is read back from the text written for it.
pub open spec fn events_read_back(text: Seq<char>, r: Option<CalendarV>) -> bool {
    forall|props: Seq<PropertyV>, alarms: Seq<Seq<PropertyV>>|
        all_survive(props) && (forall|i: int| 0 <= i < alarms.len() ==> all_survive(#[trigger] alarms[i]))
            && text == #[trigger] ics::event_text(props, alarms) ==> r == Some(
            (CalendarV {
                events: seq![EventV { properties: props, alarms }],
                todos: Seq::empty(),
            }),
        )
}

/// A task whose properties survive is read back from the text written for it.
pub open spec fn todos_read_back(text: Seq<char>, r: Option<CalendarV>) -> bool {
    forall|props: Seq<PropertyV>, alarms: Seq<Seq<PropertyV>>|
        all_survive(props) && (forall|i: int| 0 <= i < alarms.len() ==> all_survive(#[trigger] alarms[i]))
            && text == #[trigger] ics::todo_text(props, alarms) ==> r == Some(
            (CalendarV {
                events: Seq::empty(),
                todos: seq![TodoV { properties: props, alarms }],
            }),
        )
}

/// `ical::IcalParser::new(..).next()`: the first calendar of a text, its
/// properties, alarms and tasks as the crate reports them. The result is named;
/// beside the name stands that a calendar of one event, or of one task, is read
/// back when each of its properties survives (see [`survives`]): the parser
/// takes a name up to the first `;` or `:`, a parameter up to `=` and its values
/// up to `,`, `;` or `:`, or up to the closing quote, drops the colons before a
/// value, and trims each physical line at its end.
#[verifier::external_body]
pub(crate) fn parse_calendar(ics: &str) -> (r: Option<IcalCalendar>)
    ensures
        r.deep_view() == calendar_reading(ics@),
        events_read_back(ics@, r.deep_view()),
        todos_read_back(ics@, r.deep_view()),
{
    let cal = IcalParser::new(ics.as_bytes()).next()?.ok()?;
    let own = |ps: Vec<RawProperty>| ps.into_iter().map(|RawProperty { name, params, value }| Property { name, params, value }).collect();
    let alarms = |a: Vec<RawAlarm>| a.into_iter().map(|x| IcalAlarm { properties: own(x.properties) }).collect();
    let events = cal.events.into_iter().map(|e| IcalEvent { alarms: alarms(e.alarms), properties: own(e.properties) }).collect();
    let todos = cal.todos.into_iter().map(|t| IcalTodo { alarms: alarms(t.alarms), properties: own(t.properties) }).collect();
    Some(IcalCalendar { events, todos })
}

/// The first event of the first calendar in a text.
pub open spec fn first_event(reading: Option<CalendarV>) -> Option<EventV> {
    match reading {
        Some(cal) => if cal.events.len() > 0 {
            Some(cal.events[0])
        } else {
            None
        },
        None => None,
    }
}

/// The first task of the first calendar in a text.
pub open spec fn first_todo(reading: Option<CalendarV>) -> Option<TodoV> {
    match reading {
        Some(cal) => if cal.todos.len() > 0 {
            Some(cal.todos[0])
        } else {
            None
        },
        None => None,
    }
}

/// Takes the first event out of a parsed calendar.
pub fn take_event(cal: Option<IcalCalendar>) -> (r: Option<IcalEvent>)
    ensures
        r.deep_view() == first_event(cal.deep_view()),
{
    match cal {
        Some(cal) => {
            let mut events = cal.events;
            if events.len() > 0 {
                Some(events.remove(0))
            } else {
                None
            }
        },
        None => None,
    }
}

/// Takes the first task out of a parsed calendar.
pub fn take_todo(cal: Option<IcalCalendar>) -> (r: Option<IcalTodo>)
    ensures
        r.deep_view() == first_todo(cal.deep_view()),
{
    match cal {
        Some(cal) => {
            let mut todos = cal.todos;
            if todos.len() > 0 {
                Some(todos.remove(0))
            } else {
                None
            }
        },
        None => None,
    }
}

/// The first VEVENT of a text.
pub fn parse_first_event(ics: &str) -> (r: Option<IcalEvent>)
    ensures
        r.deep_view() == first_event(calendar_reading(ics@)),
        events_read_back(ics@, calendar_reading(ics@)),
{
    take_event(parse_calendar(ics))
}

/// The first VTODO of a text.
pub fn parse_first_todo(ics: &str) -> (r: Option<IcalTodo>)
    ensures
        r.deep_view() == first_todo(calendar_reading(ics@)),
        todos_read_back(ics@, calendar_reading(ics@)),
{
    take_todo(parse_calendar(ics))
}

// ---------------------------------------------------------------------
// Properties
// ---------------------------------------------------------------------

/// The first property of a name.
pub open spec fn first_named(props: Seq<PropertyV>, name: Seq<char>) -> Option<PropertyV>
    decreases props.len(),
{
    if props.len() == 0 {
        None
    } else if props[0].name == name {
        Some(props[0])
    } else {
        first_named(props.drop_first(), name)
    }
}

/// The value of the first property of a name.
pub open spec fn value_of(props: Seq<PropertyV>, name: Seq<char>) -> Option<Seq<char>> {
    match first_named(props, name) {
        Some(p) => p.value,
        None => None,
    }
}

/// The values of the first parameter of a key.
pub open spec fn first_keyed(
    params: Seq<(Seq<char>, Seq<Seq<char>>)>,
    key: Seq<char>,
) -> Option<Seq<Seq<char>>>
    decreases params.len(),
{
    if params.len() == 0 {
        None
    } else if params[0].0 == key {
        Some(params[0].1)
    } else {
        first_keyed(params.drop_first(), key)
    }
}

/// The first value of the first parameter of a key.
pub open spec fn param_of(p: PropertyV, key: Seq<char>) -> Option<Seq<char>> {
    match p.params {
        Some(params) => match first_keyed(params, key) {
            Some(values) => if values.len() > 0 {
                Some(values[0])
            } else {
                None
            },
            None => None,
        },
        None => None,
    }
}

/// The first property of a name.
pub fn ical_prop<'a>(props: &'a Vec<Property>, name: &str) -> (r: Option<&'a Property>)
    ensures
        r.deep_view() == first_named(props.deep_view(), name@),
        r matches Some(p) ==> props@.contains(*p),
{
    let ghost all = props.deep_view();
    let mut i: usize = 0;
    assert(all.skip(0) == all);
    while i < props.len()
        invariant
            i <= props@.len(),
            all == props.deep_view(),
            first_named(all, name@) == first_named(all.skip(i as int), name@),
        decreases props.len() - i,
    {
        assert(all.skip(i as int)[0] == props@[i as int].deep_view());
        assert(all.skip(i as int).drop_first() == all.skip(i + 1));
        if text::same(props[i].name.as_str(), name) {
            return Some(&props[i]);
        }
        i += 1;
    }
    None
}

/// The text of an optional string, borrowed.
pub fn borrowed(o: &Option<String>) -> (r: Option<&str>)
    ensures
        r.deep_view() == o.deep_view(),
{
    match o {
        Some(s) => Some(s.as_str()),
        None => None,
    }
}

/// The value of the first property of a name.
pub fn ical_value<'a>(props: &'a Vec<Property>, name: &str) -> (r: Option<&'a str>)
    ensures
        r.deep_view() == value_of(props.deep_view(), name@),
{
    match ical_prop(props, name) {
        Some(p) => borrowed(&p.value),
        None => None,
    }
}

/// The first value of the first parameter of a key.
pub fn ical_param<'a>(p: &'a Property, key: &str) -> (r: Option<&'a str>)
    ensures
        r.deep_view() == param_of(p.deep_view(), key@),
{
    match &p.params {
        Some(params) => {
            let ghost all = params.deep_view();
            assert(p.deep_view().params == Some(all));
            let mut i: usize = 0;
            assert(all.skip(0) == all);
            while i < params.len()
                invariant
                    i <= params@.len(),
                    all == params.deep_view(),
                    p.deep_view().params == Some(all),
                    first_keyed(all, key@) == first_keyed(all.skip(i as int), key@),
                decreases params.len() - i,
            {
                assert(all.skip(i as int)[0] == params@[i as int].deep_view());
                assert(all.skip(i as int).drop_first() == all.skip(i + 1));
                if text::same(params[i].0.as_str(), key) {
                    let values = &params[i].1;
                    assert(values.deep_view() == all[i as int].1);
                    if values.len() > 0 {
                        return Some(values[0].as_str());
                    }
                    return None;
                }
                i += 1;
            }
            None
        },
        None => None,
    }
}

/// An address without `mailto:` or `MAILTO:` in front.
pub open spec fn without_mailto(v: Seq<char>) -> Seq<char> {
    match text::after_prefix(v, "mailto:"@) {
        Some(rest) => rest,
        None => match text::after_prefix(v, "MAILTO:"@) {
            Some(rest) => rest,
            None => v,
        },
    }
}

/// Strips `mailto:` or `MAILTO:` from an address.
pub fn strip_mailto(value: &str) -> (r: String)
    ensures
        r@ == without_mailto(value@),
{
    match text::strip_prefix(value, "mailto:") {
        Some(rest) => rest,
        None => match text::strip_prefix(value, "MAILTO:") {
            Some(rest) => rest,
            None => value.to_owned(),
        },
    }
}

/// The response status that a PARTSTAT stands for.
pub open spec fn response_status(partstat: Option<Seq<char>>) -> Seq<char> {
    if partstat == Some("ACCEPTED"@) {
        "accepted"@
    } else if partstat == Some("DECLINED"@) {
        "declined"@
    } else if partstat == Some("TENTATIVE"@) {
        "tentative"@
    } else {
        "needsAction"@
    }
}

/// The response status that a PARTSTAT stands for.
pub fn partstat_to_google(partstat: Option<&str>) -> (r: String)
    ensures
        r@ == response_status(partstat.deep_view()),
{
    if text::is_text(partstat, "ACCEPTED") {
        "accepted".to_owned()
    } else if text::is_text(partstat, "DECLINED") {
        "declined".to_owned()
    } else if text::is_text(partstat, "TENTATIVE") {
        "tentative".to_owned()
    } else {
        "needsAction".to_owned()
    }
}

// ---------------------------------------------------------------------
// Dates and times
// ---------------------------------------------------------------------

/// What a DATE or DATE-TIME property says.
#[derive(Clone, Copy, Debug, PartialEq, Eq, Structural)]
pub enum When {
    /// Not a date, or a time that the named zone skips.
    Unreadable,
    /// A day without a time.
    Day(Date),
    /// A point in time.
    At(Instant),
    /// A local clock reading, as seconds since the epoch on that clock.
    Floating(Instant),
}

/// Eight ASCII digits.
pub open spec fn eight_digits(s: Seq<char>) -> bool {
    s.len() == 8 && text::all_digits(s)
}

/// What a date-time without a `Z` says, given the zone that its TZID names.
pub open spec fn zoned(t: Option<Instant>, zone: Option<Seq<char>>) -> When {
    match t {
        None => When::Unreadable,
        Some(t) => match zone {
            Some(id) => match time::zone_instant(id, t.secs) {
                Some(secs) => When::At(Instant { secs, nanos: t.nanos }),
                None => When::Unreadable,
            },
            None => When::Floating(t),
        },
    }
}

/// What a DTSTART, DTEND or DUE property says: a day where VALUE is DATE or the
/// value is eight digits; UTC where it ends in `Z`; the time of the zone that
/// TZID names where that zone is known; else a local clock reading.
pub open spec fn moment_meaning(p: PropertyV) -> When {
    match p.value {
        None => When::Unreadable,
        Some(v) => if param_of(p, "VALUE"@) == Some("DATE"@) || eight_digits(v) {
            match time::date_of(time::parsed_date(v, "%Y%m%d"@)) {
                Some(d) => When::Day(d),
                None => When::Unreadable,
            }
        } else if v.len() > 0 && v.last() == 'Z' {
            match time::instant_of(time::parsed_stamp(v.drop_last())) {
                Some(t) => When::At(t),
                None => When::Unreadable,
            }
        } else {
            zoned(
                time::instant_of(time::parsed_stamp(v)),
                match param_of(p, "TZID"@) {
                    Some(id) => if time::zone_exists(id) {
                        Some(id)
                    } else {
                        None
                    },
                    None => None,
                },
            )
        },
    }
}

/// Whether the value of a date property is read as a day.
pub open spec fn day_form(p: PropertyV) -> bool {
    p.value matches Some(v) && (param_of(p, "VALUE"@) == Some("DATE"@) || eight_digits(v))
}

/// Whether the value of a date property is read as UTC.
pub open spec fn utc_form(p: PropertyV) -> bool {
    !day_form(p) && (p.value matches Some(v) && v.len() > 0 && v.last() == 'Z')
}

/// A day, or a UTC time, is read as the one that was written.
pub open spec fn read_faithfully(p: PropertyV) -> bool {
    &&& day_form(p) ==> time::date_reads_back(
        p.value->0,
        "%Y%m%d"@,
        time::date_of(time::parsed_date(p.value->0, "%Y%m%d"@)),
    )
    &&& utc_form(p) ==> time::stamp_reads_back(
        p.value->0.drop_last(),
        time::instant_of(time::parsed_stamp(p.value->0.drop_last())),
    )
}

/// Whether the dates and instants in it are ones that chrono represents.
pub open spec fn when_valid(w: When) -> bool {
    match w {
        When::Unreadable => true,
        When::Day(d) => d.valid(),
        When::At(t) => t.valid(),
        When::Floating(t) => t.valid(),
    }
}

/// Decides [`eight_digits`].
fn is_eight_digits(cs: &Vec<char>) -> (r: bool)
    ensures
        r == eight_digits(cs@),
{
    if cs.len() != 8 {
        return false;
    }
    let mut i: usize = 0;
    while i < cs.len()
        invariant
            i <= cs@.len(),
            forall|j: int| 0 <= j < i ==> text::is_digit(#[trigger] cs@[j]),
        decreases cs.len() - i,
    {
        if !('0' <= cs[i] && cs[i] <= '9') {
            assert(!text::is_digit(cs@[i as int]));
            return false;
        }
        i += 1;
    }
    true
}

/// Reads what a DTSTART, DTEND or DUE property says.
pub fn ical_when(p: &Property) -> (r: When)
    ensures
        r == moment_meaning(p.deep_view()),
        when_valid(r),
        read_faithfully(p.deep_view()),
{
    match &p.value {
        None => When::Unreadable,
        Some(v) => {
            let cs = text::chars_of(v.as_str());
            if text::is_text(ical_param(p, "VALUE"), "DATE") || is_eight_digits(&cs) {
                match time::parse_date(v.as_str(), "%Y%m%d") {
                    Some(d) => When::Day(d),
                    None => When::Unreadable,
                }
            } else if cs.len() > 0 && cs[cs.len() - 1] == 'Z' {
                let utc = text::string_of(&cs, 0, cs.len() - 1);
                assert(utc@ == v@.drop_last());
                match time::parse_stamp(utc.as_str()) {
                    Some(t) => When::At(t),
                    None => When::Unreadable,
                }
            } else {
                match time::parse_stamp(v.as_str()) {
                    None => When::Unreadable,
                    Some(t) => {
                        let tzid = ical_param(p, "TZID");
                        match tzid {
                            Some(id) => if time::zone_known(id) {
                                match time::zone_earliest(id, t) {
                                    Some(secs) => When::At(Instant { secs, nanos: t.nanos }),
                                    None => When::Unreadable,
                                }
                            } else {
                                When::Floating(t)
                            },
                            None => When::Floating(t),
                        }
                    },
                }
            }
        },
    }
}

/// The day and time of a moment on the local clock.
pub open spec fn dated(m: Moment) -> (Date, Option<Moment>) {
    (m.local_date(), Some(m))
}

/// What is made of a date property once the local clock has answered: `local`
/// is the point in time with its local offset, or the moment at which the local
/// clock shows the reading, if there is one.
pub open spec fn placed(w: When, local: Option<Moment>) -> Option<(Date, Option<Moment>)> {
    match w {
        When::Unreadable => None,
        When::Day(d) => Some((d, None)),
        _ => match local {
            Some(m) => Some(dated(m)),
            None => None,
        },
    }
}

/// What the local clock may answer: a point in time always has a local offset;
/// a clock reading has a moment at which the clock shows it, or none.
pub open spec fn local_answer(w: When, local: Option<Moment>) -> bool {
    &&& local matches Some(m) ==> m.valid()
    &&& w matches When::At(t) ==> local matches Some(m) && m.at() == t
    &&& w matches When::Floating(t) ==> (local matches Some(m) ==> m.local_secs() == t.secs
        && m.nanos == t.nanos)
}

/// Whether `r` is what a date property can be read as, whatever the local zone.
pub open spec fn reads_as(w: When, r: Option<(Date, Option<Moment>)>) -> bool {
    exists|local: Option<Moment>| #[trigger] local_answer(w, local) && r == placed(w, local)
}

/// Places what a date property says, given the local clock's answer.
pub fn place(w: When, local: Option<Moment>) -> (r: Option<(Date, Option<Moment>)>)
    requires
        local_answer(w, local),
    ensures
        r == placed(w, local),
{
    match w {
        When::Unreadable => None,
        When::Day(d) => Some((d, None)),
        _ => match local {
            Some(m) => Some((m.date(), Some(m))),
            None => None,
        },
    }
}

/// Asks the local clock where a date property lies.
pub fn ask_local(w: When) -> (r: Option<Moment>)
    requires
        when_valid(w),
    ensures
        local_answer(w, r),
{
    match w {
        When::At(t) => Some(time::at_local(t)),
        When::Floating(t) => time::local_earliest(t),
        _ => None,
    }
}

/// Reads a DTSTART, DTEND or DUE property as a day, with a time where it has one.
pub fn parse_ical_moment(p: &Property) -> (r: Option<(Date, Option<Moment>)>)
    ensures
        reads_as(moment_meaning(p.deep_view()), r),
        read_faithfully(p.deep_view()),
{
    let w = ical_when(p);
    let local = ask_local(w);
    place(w, local)
}

// ---------------------------------------------------------------------
// Durations and alarms
// ---------------------------------------------------------------------

/// What a duration says, in minutes.
#[derive(Clone, Copy, Debug, PartialEq, Eq, Structural)]
pub enum Minutes {
    /// Not a duration.
    Unreadable,
    /// More than 64 bits hold, in the end or on the way.
    TooLong,
    /// The signed number of minutes.
    Exactly(i64),
}

/// Whether a number fits 64 bits with a sign.
pub open spec fn fits(n: int) -> bool {
    i64::MIN <= n <= i64::MAX
}

/// `s` without plus and minus signs in front.
pub open spec fn without_signs(s: Seq<char>) -> Seq<char>
    decreases s.len(),
{
    if s.len() > 0 && (s[0] == '+' || s[0] == '-') {
        without_signs(s.drop_first())
    } else {
        s
    }
}

/// A signed decimal that fits 64 bits.
pub open spec fn number(s: Seq<char>) -> Option<int> {
    match text::integer_value(s) {
        Some(n) => if fits(n) {
            Some(n)
        } else {
            None
        },
        None => None,
    }
}

/// The number `s` of a unit of `minutes` minutes, added to a sum.
pub open spec fn counted(sum: Minutes, s: Seq<char>, minutes: int) -> Minutes {
    match sum {
        Minutes::Exactly(m) => match number(s) {
            Some(n) => if fits(n * minutes) && fits(m + n * minutes) {
                Minutes::Exactly((m + n * minutes) as i64)
            } else {
                Minutes::TooLong
            },
            None => Minutes::Unreadable,
        },
        _ => sum,
    }
}

/// The opposite of a sum.
pub open spec fn negated(sum: Minutes) -> Minutes {
    match sum {
        Minutes::Exactly(m) => if fits(-m) {
            Minutes::Exactly((-m) as i64)
        } else {
            Minutes::TooLong
        },
        _ => sum,
    }
}

/// Up to the first `c`; all of `s` where there is none.
pub open spec fn before(s: Seq<char>, c: char) -> Seq<char>
    decreases s.len(),
{
    if s.len() == 0 || s[0] == c {
        Seq::empty()
    } else {
        seq![s[0]] + before(s.drop_first(), c)
    }
}

/// Behind the first `c`.
pub open spec fn behind(s: Seq<char>, c: char) -> Seq<char> {
    s.skip(before(s, c).len() as int + 1)
}

/// The whole minutes of a number of seconds.
pub open spec fn whole_minutes(seconds: int) -> int {
    if seconds < 0 {
        -((-seconds) / 60)
    } else {
        seconds / 60
    }
}

/// The whole minutes of the number `s` of seconds, added to a sum. What is no
/// number, and what the sum cannot hold, does not count.
pub open spec fn counted_seconds(sum: Minutes, s: Seq<char>) -> Minutes {
    match sum {
        Minutes::Exactly(m) => match number(s) {
            Some(n) => if fits(m + whole_minutes(n)) {
                Minutes::Exactly((m + whole_minutes(n)) as i64)
            } else {
                sum
            },
            None => sum,
        },
        _ => sum,
    }
}

/// What is left of a time part behind hours and minutes: a number without a sign
/// before a final `S`. Anything else does not count.
pub open spec fn seconds_minutes(sum: Minutes, s: Seq<char>) -> Minutes {
    if s.len() > 0 && s.last() == 'S' && text::is_digit(s[0]) {
        counted_seconds(sum, s.drop_last())
    } else {
        sum
    }
}

/// A time part: a number before `H`, a number before `M`, a number before a
/// final `S`. Of the seconds the whole minutes count.
pub open spec fn time_minutes(sum: Minutes, s: Seq<char>) -> Minutes {
    let (sum, s) = if s.contains('H') {
        (counted(sum, before(s, 'H'), 60), behind(s, 'H'))
    } else {
        (sum, s)
    };
    let (sum, s) = if s.contains('M') {
        (counted(sum, before(s, 'M'), 1), behind(s, 'M'))
    } else {
        (sum, s)
    };
    seconds_minutes(sum, s)
}

/// The unsigned part of a duration, behind the `P`: weeks before a final `W`, or
/// days before a `D` and hours, minutes and seconds behind a `T`.
pub open spec fn magnitude(s: Seq<char>) -> Minutes {
    if s.len() > 0 && s.last() == 'W' {
        counted(Minutes::Exactly(0), s.drop_last(), 10_080)
    } else {
        let days = before(s, 'T');
        let sum = if days.len() == 0 {
            Minutes::Exactly(0)
        } else if days.last() == 'D' {
            counted(Minutes::Exactly(0), days.drop_last(), 1_440)
        } else {
            Minutes::Unreadable
        };
        if s.contains('T') {
            time_minutes(sum, behind(s, 'T'))
        } else {
            sum
        }
    }
}

/// What a duration such as `-PT10M`, `-P1D` or `PT15M` says.
pub open spec fn duration_meaning(s: Seq<char>) -> Minutes {
    let rest = without_signs(s);
    if rest.len() == 0 || rest[0] != 'P' {
        Minutes::Unreadable
    } else if s[0] == '-' {
        negated(magnitude(rest.drop_first()))
    } else {
        magnitude(rest.drop_first())
    }
}

pub proof fn lemma_before(s: Seq<char>, c: char, k: int)
    requires
        0 <= k <= s.len(),
        forall|j: int| 0 <= j < k ==> s[j] != c,
        k < s.len() ==> s[k] == c,
    ensures
        before(s, c) == s.take(k),
        s.contains(c) == (k < s.len()),
    decreases k,
{
    if k == 0 {
        assert(s.take(0) == Seq::<char>::empty());
        if s.len() > 0 {
            assert(s[0] == c);
        }
    } else {
        let t = s.drop_first();
        lemma_before(t, c, k - 1);
        assert(s.take(k) == seq![s[0]] + t.take(k - 1));
        if k < s.len() {
            assert(s[k] == c);
        }
        if s.contains(c) {
            let j = choose|j: int| 0 <= j < s.len() && s[j] == c;
            assert(j >= k);
        }
    }
}

/// Adds a number of units to a sum of minutes.
fn count(sum: Minutes, s: &str, minutes: i64) -> (r: Minutes)
    requires
        1 <= minutes <= 10_080,
    ensures
        r == counted(sum, s@, minutes as int),
{
    match sum {
        Minutes::Exactly(m) => match text::parse_i64(s) {
            Some(n) => {
                assert(-0x8000_0000_0000_0000 * 10_080 <= n * minutes <= 0x8000_0000_0000_0000
                    * 10_080) by (nonlinear_arith)
                    requires
                        -0x8000_0000_0000_0000 <= n <= 0x7fff_ffff_ffff_ffff,
                        1 <= minutes <= 10_080,
                ;
                let term: i128 = n as i128 * minutes as i128;
                let total: i128 = m as i128 + term;
                let low: i128 = i64::MIN as i128;
                let high: i128 = i64::MAX as i128;
                if low <= term && term <= high && low <= total && total <= high {
                    Minutes::Exactly(total as i64)
                } else {
                    Minutes::TooLong
                }
            },
            None => Minutes::Unreadable,
        },
        _ => sum,
    }
}

/// Adds the whole minutes of a number of seconds to a sum of minutes.
fn count_seconds(sum: Minutes, s: &str) -> (r: Minutes)
    ensures
        r == counted_seconds(sum, s@),
{
    match sum {
        Minutes::Exactly(m) => match text::parse_i64(s) {
            Some(n) => {
                let wide: i128 = n as i128;
                let whole: i128 = if wide < 0 {
                    -((-wide) / 60)
                } else {
                    wide / 60
                };
                let total: i128 = m as i128 + whole;
                if i64::MIN as i128 <= total && total <= i64::MAX as i128 {
                    Minutes::Exactly(total as i64)
                } else {
                    sum
                }
            },
            None => sum,
        },
        _ => sum,
    }
}

/// The opposite of a sum of minutes.
fn negate(sum: Minutes) -> (r: Minutes)
    ensures
        r == negated(sum),
{
    match sum {
        Minutes::Exactly(m) => if m == i64::MIN {
            Minutes::TooLong
        } else {
            Minutes::Exactly(-m)
        },
        _ => sum,
    }
}

/// Seconds of the time part `cs[from..]`.
fn count_last(sum: Minutes, cs: &Vec<char>, from: usize) -> (r: Minutes)
    requires
        from <= cs@.len(),
    ensures
        r == seconds_minutes(sum, cs@.skip(from as int)),
{
    let ghost all = cs@.skip(from as int);
    if from < cs.len() && cs[cs.len() - 1] == 'S' && '0' <= cs[from] && cs[from] <= '9' {
        let secs = text::string_of(cs, from, cs.len() - 1);
        assert(secs@ == all.drop_last());
        count_seconds(sum, secs.as_str())
    } else {
        sum
    }
}

/// Hours, minutes and seconds of the time part `cs[from..]`.
fn count_time(sum: Minutes, cs: &Vec<char>, from: usize) -> (r: Minutes)
    requires
        from <= cs@.len(),
    ensures
        r == time_minutes(sum, cs@.skip(from as int)),
{
    let ghost all = cs@.skip(from as int);
    let h = text::find_from(cs, from, 'H');
    proof {
        lemma_before(all, 'H', h - from);
    }
    let mut sum = sum;
    let mut start: usize = from;
    if h < cs.len() {
        let hours = text::string_of(cs, from, h);
        assert(hours@ == all.take(h - from));
        sum = count(sum, hours.as_str(), 60);
        start = h + 1;
        assert(behind(all, 'H') == cs@.skip(start as int));
    }
    let ghost rest = cs@.skip(start as int);
    let m = text::find_from(cs, start, 'M');
    proof {
        lemma_before(rest, 'M', m - start);
    }
    let mut start: usize = start;
    if m < cs.len() {
        let mins = text::string_of(cs, start, m);
        assert(mins@ == rest.take(m - start));
        sum = count(sum, mins.as_str(), 1);
        assert(behind(rest, 'M') == cs@.skip(m + 1));
        start = m + 1;
    }
    count_last(sum, cs, start)
}

/// The unsigned part `cs[from..]` of a duration.
fn read_magnitude(cs: &Vec<char>, from: usize) -> (r: Minutes)
    requires
        from <= cs@.len(),
    ensures
        r == magnitude(cs@.skip(from as int)),
{
    let ghost rest = cs@.skip(from as int);
    if from < cs.len() && cs[cs.len() - 1] == 'W' {
        let weeks = text::string_of(cs, from, cs.len() - 1);
        assert(weeks@ == rest.drop_last());
        return count(Minutes::Exactly(0), weeks.as_str(), 10_080);
    }
    let t = text::find_from(cs, from, 'T');
    proof {
        lemma_before(rest, 'T', t - from);
    }
    let sum = if t == from {
        Minutes::Exactly(0)
    } else if cs[t - 1] == 'D' {
        let days = text::string_of(cs, from, t - 1);
        assert(days@ == rest.take(t - from).drop_last());
        count(Minutes::Exactly(0), days.as_str(), 1_440)
    } else {
        Minutes::Unreadable
    };
    if t < cs.len() {
        assert(behind(rest, 'T') == cs@.skip(t + 1));
        count_time(sum, cs, t + 1)
    } else {
        sum
    }
}

/// Reads what a duration says.
pub fn read_duration(s: &str) -> (r: Minutes)
    ensures
        r == duration_meaning(s@),
{
    let cs = text::chars_of(s);
    let mut i: usize = 0;
    assert(s@.skip(0) == s@);
    while i < cs.len() && (cs[i] == '+' || cs[i] == '-')
        invariant
            cs@ == s@,
            i <= cs@.len(),
            without_signs(s@) == without_signs(s@.skip(i as int)),
        decreases cs.len() - i,
    {
        assert(s@.skip(i as int).drop_first() == s@.skip(i + 1));
        i += 1;
    }
    if i == cs.len() || cs[i] != 'P' {
        return Minutes::Unreadable;
    }
    assert(s@.skip(i as int).drop_first() == s@.skip(i + 1));
    let sum = read_magnitude(&cs, i + 1);
    if cs[0] == '-' {
        negate(sum)
    } else {
        sum
    }
}

/// The number of minutes, if it is one.
pub open spec fn exact(m: Minutes) -> Option<i64> {
    match m {
        Minutes::Exactly(n) => Some(n),
        _ => None,
    }
}

/// Reads a duration in signed minutes.
pub fn parse_ical_duration_minutes(s: &str) -> (r: Option<i64>)
    requires
        duration_meaning(s@) != Minutes::TooLong,
    ensures
        r == exact(duration_meaning(s@)),
{
    match read_duration(s) {
        Minutes::Exactly(n) => Some(n),
        _ => None,
    }
}

/// The minutes before the start at which an alarm rings. Only alarms that are
/// displayed or sound count, and not those at a fixed date and time.
pub open spec fn alarm_meaning(alarm: Seq<PropertyV>) -> Minutes {
    let action = value_of(alarm, "ACTION"@);
    if action != Some("DISPLAY"@) && action != Some("AUDIO"@) {
        Minutes::Unreadable
    } else {
        match first_named(alarm, "TRIGGER"@) {
            None => Minutes::Unreadable,
            Some(trigger) => if param_of(trigger, "VALUE"@) == Some("DATE-TIME"@) {
                Minutes::Unreadable
            } else {
                match trigger.value {
                    Some(v) => negated(duration_meaning(v)),
                    None => Minutes::Unreadable,
                }
            },
        }
    }
}

/// Reads the minutes before the start at which an alarm rings.
pub fn read_alarm(alarm: &IcalAlarm) -> (r: Minutes)
    ensures
        r == alarm_meaning(alarm.deep_view()),
{
    let action = ical_value(&alarm.properties, "ACTION");
    if !text::is_text(action, "DISPLAY") && !text::is_text(action, "AUDIO") {
        return Minutes::Unreadable;
    }
    match ical_prop(&alarm.properties, "TRIGGER") {
        None => Minutes::Unreadable,
        Some(trigger) => if text::is_text(ical_param(trigger, "VALUE"), "DATE-TIME") {
            Minutes::Unreadable
        } else {
            match &trigger.value {
                Some(v) => negate(read_duration(v.as_str())),
                None => Minutes::Unreadable,
            }
        },
    }
}

/// Minutes before the event start for one alarm, or `None` for alarms that are
/// not shown as a popup.
pub fn alarm_minutes(alarm: &IcalAlarm) -> (r: Option<i64>)
    requires
        alarm_meaning(alarm.deep_view()) != Minutes::TooLong,
    ensures
        r == exact(alarm_meaning(alarm.deep_view())),
{
    match read_alarm(alarm) {
        Minutes::Exactly(n) => Some(n),
        _ => None,
    }
}

} // verus!
