//! Laws of the Nextcloud backend: what its objects say, what it asks for, and what is
//! made of the answers.

use vstd::prelude::*;

use crate::backend::{EventDraftView, TaskDraftView};
use crate::caldav;
use crate::caldav::{EditView, NcView, RequestView};
use crate::compose;
use crate::ical;
use crate::ical::{EventV, PropertyV, TodoV};
use crate::ics;
use crate::model;
use crate::model::TaskView;
use crate::text;
use crate::time;
use crate::time::{Date, Instant};

verus! {

// ---------------------------------------------------------------------
// Properties and their parameters
// ---------------------------------------------------------------------

/// Whether a property is the first of a name.
pub open spec fn first_of_name(props: Seq<PropertyV>, name: Seq<char>, k: int) -> bool {
    &&& 0 <= k < props.len()
    &&& props[k].name == name
    &&& forall|i: int| 0 <= i < k ==> (#[trigger] props[i]).name != name
}

/// A name means the first property that has it, and its value; without one there is
/// none.
pub proof fn law_first_of_a_name(props: Seq<PropertyV>, name: Seq<char>)
    ensures
        forall|k: int| #[trigger]
            first_of_name(props, name, k) ==> ical::first_named(props, name) == Some(props[k])
                && ical::value_of(props, name) == props[k].value,
        (forall|k: int| !#[trigger] first_of_name(props, name, k)) ==> ical::first_named(
            props,
            name,
        ) is None && ical::value_of(props, name) is None,
    decreases props.len(),
{
    if props.len() > 0 {
        let rest = props.drop_first();
        law_first_of_a_name(rest, name);
        if props[0].name == name {
            assert(first_of_name(props, name, 0));
            assert forall|k: int| #[trigger] first_of_name(props, name, k) implies k == 0 by {
                if k > 0 {
                    assert(props[0].name != name);
                }
            }
        } else {
            assert forall|k: int| #[trigger] first_of_name(props, name, k) implies ical::first_named(
                props,
                name,
            ) == Some(props[k]) by {
                assert forall|i: int| 0 <= i < k - 1 implies (#[trigger] rest[i]).name != name by {
                    assert(rest[i] == props[i + 1]);
                }
                assert(first_of_name(rest, name, k - 1));
            }
            if forall|k: int| !#[trigger] first_of_name(props, name, k) {
                assert forall|k: int| !#[trigger] first_of_name(rest, name, k) by {
                    if first_of_name(rest, name, k) {
                        assert forall|i: int| 0 <= i < k + 1 implies (#[trigger] props[i]).name
                            != name by {
                            if i > 0 {
                                assert(props[i] == rest[i - 1]);
                            }
                        }
                        assert(first_of_name(props, name, k + 1));
                    }
                }
            }
        }
    }
}

/// Whether a parameter is the first of a key.
pub open spec fn first_of_key(
    params: Seq<(Seq<char>, Seq<Seq<char>>)>,
    key: Seq<char>,
    k: int,
) -> bool {
    &&& 0 <= k < params.len()
    &&& params[k].0 == key
    &&& forall|i: int| 0 <= i < k ==> (#[trigger] params[i]).0 != key
}

/// Whether a property has a parameter of a key, at whatever place, and `s` is its
/// first value.
pub open spec fn has_param(p: PropertyV, key: Seq<char>, s: Seq<char>) -> bool {
    p.params matches Some(params) && exists|k: int| #[trigger]
        first_of_key(params, key, k) && params[k].1.len() > 0 && params[k].1[0] == s
}

proof fn lemma_first_keyed(params: Seq<(Seq<char>, Seq<Seq<char>>)>, key: Seq<char>)
    ensures
        forall|k: int| #[trigger]
            first_of_key(params, key, k) ==> ical::first_keyed(params, key) == Some(params[k].1),
        ical::first_keyed(params, key) is Some ==> exists|k: int| #[trigger]
            first_of_key(params, key, k),
    decreases params.len(),
{
    if params.len() > 0 {
        let rest = params.drop_first();
        lemma_first_keyed(rest, key);
        if params[0].0 == key {
            assert(first_of_key(params, key, 0));
            assert forall|k: int| #[trigger] first_of_key(params, key, k) implies k == 0 by {
                if k > 0 {
                    assert(params[0].0 != key);
                }
            }
        } else {
            assert forall|k: int| #[trigger] first_of_key(params, key, k) implies ical::first_keyed(
                params,
                key,
            ) == Some(params[k].1) by {
                assert forall|i: int| 0 <= i < k - 1 implies (#[trigger] rest[i]).0 != key by {
                    assert(rest[i] == params[i + 1]);
                }
                assert(first_of_key(rest, key, k - 1));
            }
            if ical::first_keyed(params, key) is Some {
                let k = choose|k: int| #[trigger] first_of_key(rest, key, k);
                assert forall|i: int| 0 <= i < k + 1 implies (#[trigger] params[i]).0 != key by {
                    if i > 0 {
                        assert(params[i] == rest[i - 1]);
                    }
                }
                assert(first_of_key(params, key, k + 1));
            }
        }
    }
}

/// A parameter is found by its key wherever it stands, and means its first value.
pub proof fn law_parameter_is_found_by_its_key(p: PropertyV, key: Seq<char>, s: Seq<char>)
    ensures
        ical::param_of(p, key) == Some(s) <==> has_param(p, key, s),
{
    if p.params is Some {
        let params = p.params->0;
        lemma_first_keyed(params, key);
        if ical::param_of(p, key) == Some(s) {
            let k = choose|k: int| #[trigger] first_of_key(params, key, k);
            assert(first_of_key(params, key, k) && params[k].1[0] == s);
        }
        if has_param(p, key, s) {
            let k = choose|k: int| #[trigger]
                first_of_key(params, key, k) && params[k].1.len() > 0 && params[k].1[0] == s;
            assert(first_of_key(params, key, k));
        }
    }
}

/// An address without the scheme in front.
pub open spec fn bare(v: Seq<char>) -> Seq<char> {
    if v.len() >= 7 && (v.take(7) == "mailto:"@ || v.take(7) == "MAILTO:"@) {
        v.skip(7)
    } else {
        v
    }
}

/// The scheme of an address counts in small or in capital letters.
pub proof fn law_bare_address(v: Seq<char>)
    ensures
        ical::without_mailto(v) == bare(v),
{
    reveal_strlit("mailto:");
    reveal_strlit("MAILTO:");
    assert("mailto:"@.len() == 7 && "MAILTO:"@.len() == 7);
    if v.len() >= 7 {
        assert("mailto:"@.is_prefix_of(v) <==> v.take(7) == "mailto:"@);
        assert("MAILTO:"@.is_prefix_of(v) <==> v.take(7) == "MAILTO:"@);
    }
}

/// How a participation is named to the user: each of the three answers under its own
/// name, and anything else as no answer.
pub proof fn law_answers_are_named(partstat: Option<Seq<char>>)
    ensures
        ical::response_status(Some("ACCEPTED"@)) == "accepted"@,
        ical::response_status(Some("DECLINED"@)) == "declined"@,
        ical::response_status(Some("TENTATIVE"@)) == "tentative"@,
        partstat != Some("ACCEPTED"@) && partstat != Some("DECLINED"@) && partstat != Some(
            "TENTATIVE"@,
        ) ==> ical::response_status(partstat) == "needsAction"@,
{
    reveal_strlit("ACCEPTED");
    reveal_strlit("DECLINED");
    reveal_strlit("TENTATIVE");
    assert("ACCEPTED"@[0] == 'A' && "DECLINED"@[0] == 'D' && "TENTATIVE"@[0] == 'T');
}

// ---------------------------------------------------------------------
// Lines
// ---------------------------------------------------------------------

/// A property is written as its name, its parameters each behind a semicolon, a
/// colon, and its value; a parameter value with a mark in it stands in quotes.
pub proof fn law_property_line(
    name: Seq<char>,
    params: Seq<(Seq<char>, Seq<Seq<char>>)>,
    key: Seq<char>,
    s: Seq<char>,
    value: Seq<char>,
)
    ensures
        ics::property_line(PropertyV { name, params: None, value: Some(value) }) == name + seq![':']
            + value,
        ics::property_line(PropertyV { name, params: None, value: None }) == name + seq![':'],
        ics::params_text(Some(params.push((key, seq![s])))) == ics::params_text(Some(params))
            + seq![';'] + key + seq!['='] + (if s.contains(',') || s.contains(';') || s.contains(
            ':',
        ) {
            seq!['"'] + s + seq!['"']
        } else {
            s
        }),
{
    let e = Seq::<char>::empty();
    let f = |param: (Seq<char>, Seq<Seq<char>>)| ics::param_text(param);
    assert(ics::property_line(PropertyV { name, params: None, value: Some(value) }) =~= name
        + seq![':'] + value);
    assert(ics::property_line(PropertyV { name, params: None, value: None }) =~= name + seq![':']);
    let one = (key, seq![s]);
    assert(params.push(one).map_values(f) == params.map_values(f).push(f(one)));
    assert(params.map_values(f).push(f(one)).drop_last() == params.map_values(f));
    let g = |v: Seq<char>| ics::param_value_text(v);
    assert(seq![s].map_values(g) == seq![ics::param_value_text(s)]);
    assert(ics::params_text(Some(params.push(one))) == ics::params_text(Some(params))
        + ics::param_text(one));
    assert(ics::params_text(Some(params)) + ics::param_text(one) =~= ics::params_text(Some(params))
        + seq![';'] + key + seq!['='] + ics::param_value_text(s));
}

/// An object is its frame with a line for each property and a block for each alarm in
/// it, in their order.
pub proof fn law_object_text(
    props: Seq<PropertyV>,
    alarms: Seq<Seq<PropertyV>>,
    p: PropertyV,
    alarm: Seq<PropertyV>,
)
    ensures
        ics::event_text(props, alarms)
            == "BEGIN:VCALENDAR\r\nVERSION:2.0\r\nPRODID:-//waycal//caldav//EN\r\nBEGIN:VEVENT\r\n"@
            + ics::lines_text(props) + ics::alarms_text(alarms)
            + "END:VEVENT\r\nEND:VCALENDAR\r\n"@,
        ics::todo_text(props, alarms)
            == "BEGIN:VCALENDAR\r\nVERSION:2.0\r\nPRODID:-//waycal//caldav//EN\r\nBEGIN:VTODO\r\n"@
            + ics::lines_text(props) + ics::alarms_text(alarms) + "END:VTODO\r\nEND:VCALENDAR\r\n"@,
        ics::lines_text(Seq::empty()) == Seq::<char>::empty(),
        ics::lines_text(props.push(p)) == ics::lines_text(props) + ics::folded(
            ics::property_line(p),
        ),
        ics::alarms_text(Seq::empty()) == Seq::<char>::empty(),
        ics::alarms_text(alarms.push(alarm)) == ics::alarms_text(alarms) + "BEGIN:VALARM\r\n"@
            + ics::lines_text(alarm) + "END:VALARM\r\n"@,
{
    compose::lemma_lines_push(props, p);
    lemma_nothing_written();
    let f = |a: Seq<PropertyV>| ics::alarm_text(a);
    assert(alarms.push(alarm).map_values(f) == alarms.map_values(f).push(f(alarm)));
    assert(alarms.map_values(f).push(f(alarm)).drop_last() == alarms.map_values(f));
    assert(ics::alarms_text(alarms.push(alarm)) =~= ics::alarms_text(alarms) + "BEGIN:VALARM\r\n"@
        + ics::lines_text(alarm) + "END:VALARM\r\n"@);
}

proof fn lemma_nothing_written()
    ensures
        ics::lines_text(Seq::empty()) == Seq::<char>::empty(),
        ics::alarms_text(Seq::empty()) == Seq::<char>::empty(),
{
    assert(Seq::<PropertyV>::empty().map_values(
        |p: PropertyV| ics::folded(ics::property_line(p)),
    ) == Seq::<Seq<char>>::empty());
    assert(Seq::<Seq<PropertyV>>::empty().map_values(|a: Seq<PropertyV>| ics::alarm_text(a))
        == Seq::<Seq<char>>::empty());
}

// ---------------------------------------------------------------------
// Guests keep their answers
// ---------------------------------------------------------------------

/// Whether a property lists a guest of an address, whatever its case.
pub open spec fn lists_guest(p: PropertyV, email: Seq<char>) -> bool {
    p.name == "ATTENDEE"@ && (p.value matches Some(v) && text::lowercase(bare(v))
        == text::lowercase(email))
}

/// Whether a property is the last that lists a guest of an address.
pub open spec fn last_listed(props: Seq<PropertyV>, email: Seq<char>, i: int) -> bool {
    &&& 0 <= i < props.len()
    &&& lists_guest(props[i], email)
    &&& forall|j: int| i < j < props.len() ==> !lists_guest(#[trigger] props[j], email)
}

/// Whether `s` is the answer that the guest of an address has given so far: what the
/// property that lists it last says, and no answer where none lists it or says so.
pub open spec fn answer_so_far(props: Seq<PropertyV>, email: Seq<char>, s: Seq<char>) -> bool {
    ||| exists|i: int| #[trigger] last_listed(props, email, i) && has_param(props[i], "PARTSTAT"@, s)
    ||| s == "NEEDS-ACTION"@ && forall|i: int, t: Seq<char>| #[trigger]
        last_listed(props, email, i) ==> !#[trigger] has_param(props[i], "PARTSTAT"@, t)
}

/// The property that invites a guest who has answered `s`: asked for an answer only
/// where there is none.
pub open spec fn invitation(email: Seq<char>, s: Seq<char>) -> PropertyV {
    PropertyV {
        name: "ATTENDEE"@,
        params: Some(
            if s == "NEEDS-ACTION"@ {
                seq![("PARTSTAT"@, seq![s]), ("RSVP"@, seq!["TRUE"@])]
            } else {
                seq![("PARTSTAT"@, seq![s])]
            },
        ),
        value: Some("mailto:"@ + email),
    }
}

proof fn lemma_partstats(props: Seq<PropertyV>, email: Seq<char>)
    ensures
        compose::partstats_of(props).contains_key(text::lowercase(email)) ==> exists|i: int|
            {
                &&& #[trigger] last_listed(props, email, i)
                &&& compose::partstats_of(props)[text::lowercase(email)] == compose::partstat_of(
                    props[i],
                )
            },
        (exists|i: int| #[trigger] last_listed(props, email, i)) ==> compose::partstats_of(
            props,
        ).contains_key(text::lowercase(email)),
    decreases props.len(),
{
    let key = text::lowercase(email);
    if props.len() > 0 {
        let front = props.drop_last();
        let n = props.len() - 1;
        let p = props[n];
        lemma_partstats(front, email);
        if p.value is Some {
            law_bare_address(p.value->0);
        }
        let all = compose::partstats_of(props);
        if lists_guest(p, email) {
            assert(last_listed(props, email, n));
            assert(all[key] == compose::partstat_of(p));
        } else {
            assert(all.contains_key(key) <==> compose::partstats_of(front).contains_key(key));
            if all.contains_key(key) {
                let i = choose|i: int|
                    {
                        &&& #[trigger] last_listed(front, email, i)
                        &&& compose::partstats_of(front)[key] == compose::partstat_of(front[i])
                    };
                assert forall|j: int| i < j < props.len() implies !lists_guest(
                    #[trigger] props[j],
                    email,
                ) by {
                    if j < n {
                        assert(front[j] == props[j]);
                    }
                }
                assert(front[i] == props[i]);
                assert(last_listed(props, email, i));
            }
            if exists|i: int| #[trigger] last_listed(props, email, i) {
                let i = choose|i: int| #[trigger] last_listed(props, email, i);
                assert(i < n);
                assert(front[i] == props[i]);
                assert forall|j: int| i < j < front.len() implies !lists_guest(
                    #[trigger] front[j],
                    email,
                ) by {
                    assert(front[j] == props[j]);
                }
                assert(last_listed(front, email, i));
            }
        }
    }
}

proof fn lemma_last_listed_once(props: Seq<PropertyV>, email: Seq<char>, i: int, j: int)
    requires
        last_listed(props, email, i),
        last_listed(props, email, j),
    ensures
        i == j,
{
    if i < j {
        assert(!lists_guest(props[j], email));
    } else if j < i {
        assert(!lists_guest(props[i], email));
    }
}

proof fn lemma_partstat_of(p: PropertyV, s: Seq<char>)
    ensures
        has_param(p, "PARTSTAT"@, s) ==> compose::partstat_of(p) == s,
        compose::partstat_of(p) == "NEEDS-ACTION"@ || has_param(
            p,
            "PARTSTAT"@,
            compose::partstat_of(p),
        ),
        (forall|t: Seq<char>| !#[trigger] has_param(p, "PARTSTAT"@, t)) ==> compose::partstat_of(p)
            == "NEEDS-ACTION"@,
{
    law_parameter_is_found_by_its_key(p, "PARTSTAT"@, s);
    law_parameter_is_found_by_its_key(p, "PARTSTAT"@, compose::partstat_of(p));
}

/// An edit does not reset an answer: the guest of an address is written with the
/// answer that the event says of it so far, wherever in the property it stands, and
/// is asked for one only where there is none.
pub proof fn law_guest_keeps_the_answer(props: Seq<PropertyV>, email: Seq<char>, s: Seq<char>)
    requires
        answer_so_far(props, email, s),
    ensures
        compose::guest(email, compose::partstats_of(props)) == invitation(email, s),
{
    let key = text::lowercase(email);
    let stats = compose::partstats_of(props);
    lemma_partstats(props, email);
    if exists|i: int| #[trigger]
        last_listed(props, email, i) && has_param(props[i], "PARTSTAT"@, s) {
        let i = choose|i: int| #[trigger]
            last_listed(props, email, i) && has_param(props[i], "PARTSTAT"@, s);
        let j = choose|j: int|
            {
                &&& #[trigger] last_listed(props, email, j)
                &&& stats[key] == compose::partstat_of(props[j])
            };
        lemma_last_listed_once(props, email, i, j);
        lemma_partstat_of(props[i], s);
        assert(compose::known_partstat(email, stats) == s);
    } else if stats.contains_key(key) {
        let j = choose|j: int|
            {
                &&& #[trigger] last_listed(props, email, j)
                &&& stats[key] == compose::partstat_of(props[j])
            };
        assert forall|t: Seq<char>| !#[trigger] has_param(props[j], "PARTSTAT"@, t) by {
            assert(last_listed(props, email, j));
        }
        lemma_partstat_of(props[j], s);
        assert(compose::known_partstat(email, stats) == s);
    } else {
        assert(compose::known_partstat(email, stats) == s);
    }
}

/// Every guest of every event has given some answer so far, or none.
pub proof fn law_there_is_an_answer(props: Seq<PropertyV>, email: Seq<char>)
    ensures
        answer_so_far(
            props,
            email,
            compose::known_partstat(email, compose::partstats_of(props)),
        ),
{
    let key = text::lowercase(email);
    let stats = compose::partstats_of(props);
    let s = compose::known_partstat(email, stats);
    lemma_partstats(props, email);
    if stats.contains_key(key) {
        let j = choose|j: int|
            {
                &&& #[trigger] last_listed(props, email, j)
                &&& stats[key] == compose::partstat_of(props[j])
            };
        lemma_partstat_of(props[j], s);
        if !has_param(props[j], "PARTSTAT"@, s) {
            assert forall|i: int, t: Seq<char>| #[trigger] last_listed(props, email, i) implies !#[trigger] has_param(
                props[i],
                "PARTSTAT"@,
                t,
            ) by {
                lemma_last_listed_once(props, email, i, j);
                lemma_partstat_of(props[j], t);
            }
        }
    }
}

// ---------------------------------------------------------------------
// Events as they are written
// ---------------------------------------------------------------------

/// A property without parameters.
pub open spec fn bare_property(name: Seq<char>, value: Seq<char>) -> PropertyV {
    PropertyV { name, params: None, value: Some(value) }
}

/// A day as a property.
pub open spec fn day_property(name: Seq<char>, days: int) -> PropertyV {
    PropertyV {
        name,
        params: Some(seq![("VALUE"@, seq!["DATE"@])]),
        value: Some(time::date_text(days as i32, "%Y%m%d"@)),
    }
}

/// A UTC time as written.
pub open spec fn stamp(secs: i64, nanos: u32) -> Seq<char> {
    time::stamp_text(secs, nanos).push('Z')
}

/// A text as a property, left out where there is none.
pub open spec fn text_property(name: Seq<char>, s: Seq<char>) -> Seq<PropertyV> {
    if s.len() == 0 {
        Seq::empty()
    } else {
        seq![bare_property(name, ics::escaped(s))]
    }
}

/// The properties that say when an event takes place: its days, the one behind the
/// last as its end, or its times.
pub open spec fn when_properties(d: EventDraftView) -> Seq<PropertyV> {
    if d.all_day {
        seq![
            day_property("DTSTART"@, d.start_date.days as int),
            day_property("DTEND"@, d.end_date.days + 1),
        ]
    } else {
        seq![
            bare_property("DTSTART"@, stamp(d.start_time->0.secs, d.start_time->0.nanos)),
            bare_property("DTEND"@, stamp(d.end_time->0.secs, d.end_time->0.nanos)),
        ]
    }
}

/// The properties of an event that its draft says, with the answers of its guests.
pub open spec fn said_properties(
    d: EventDraftView,
    uid: Seq<char>,
    answers: Seq<Seq<char>>,
    now: Instant,
) -> Seq<PropertyV> {
    seq![bare_property("UID"@, uid), bare_property("DTSTAMP"@, stamp(now.secs, now.nanos))]
        + when_properties(d) + seq![bare_property("SUMMARY"@, ics::escaped(d.summary))]
        + text_property("LOCATION"@, d.location) + text_property("DESCRIPTION"@, d.description)
        + Seq::new(d.attendees.len(), |k: int| invitation(d.attendees[k], answers[k]))
}

/// Whether a property of an event is said by its draft, or counted, and so not kept as
/// it is.
pub open spec fn replaced_in_event(p: PropertyV) -> bool {
    seq![
        "UID"@,
        "DTSTAMP"@,
        "DTSTART"@,
        "DTEND"@,
        "DURATION"@,
        "SUMMARY"@,
        "LOCATION"@,
        "DESCRIPTION"@,
        "ATTENDEE"@,
        "ORGANIZER"@,
        "SEQUENCE"@,
    ].contains(p.name)
}

/// The value of the first property of a name, empty where there is none.
pub open spec fn value_or_nothing(props: Seq<PropertyV>, name: Seq<char>, v: Seq<char>) -> bool {
    ||| exists|k: int| #[trigger] first_of_name(props, name, k) && props[k].value == Some(v)
    ||| v.len() == 0 && forall|k: int| #[trigger]
        first_of_name(props, name, k) ==> props[k].value is None
}

proof fn lemma_replaced_in_event(p: PropertyV)
    ensures
        replaced_in_event(p) == compose::event_says(p.name),
{
    let names = seq![
        "UID"@,
        "DTSTAMP"@,
        "DTSTART"@,
        "DTEND"@,
        "DURATION"@,
        "SUMMARY"@,
        "LOCATION"@,
        "DESCRIPTION"@,
        "ATTENDEE"@,
        "ORGANIZER"@,
        "SEQUENCE"@,
    ];
    assert(names[0] == "UID"@ && names[1] == "DTSTAMP"@ && names[2] == "DTSTART"@ && names[3]
        == "DTEND"@ && names[4] == "DURATION"@ && names[5] == "SUMMARY"@ && names[6]
        == "LOCATION"@ && names[7] == "DESCRIPTION"@ && names[8] == "ATTENDEE"@ && names[9]
        == "ORGANIZER"@ && names[10] == "SEQUENCE"@);
    if compose::event_says(p.name) {
        assert(names.contains(p.name));
    }
    if names.contains(p.name) {
        let i = choose|i: int| 0 <= i < names.len() && names[i] == p.name;
        assert(names.len() == 11);
    }
}

proof fn lemma_said(d: EventDraftView, ctx: compose::EventCtxView, answers: Seq<Seq<char>>, now: Instant)
    requires
        answers.len() == d.attendees.len(),
        forall|k: int|
            0 <= k < d.attendees.len() ==> compose::guest(
                #[trigger] d.attendees[k],
                ctx.existing_partstat,
            ) == invitation(d.attendees[k], answers[k]),
    ensures
        compose::event_props(d, ctx, now) == said_properties(d, ctx.uid, answers, now),
{
    let a = compose::guests(d.attendees, ctx.existing_partstat);
    let b = Seq::new(d.attendees.len(), |k: int| invitation(d.attendees[k], answers[k]));
    assert(a == b) by {
        assert forall|k: int| 0 <= k < a.len() implies a[k] == b[k] by {
            assert(a[k] == compose::guest(d.attendees[k], ctx.existing_partstat));
        }
    }
    assert(compose::span(d) == when_properties(d));
    assert(compose::optional_text("LOCATION"@, d.location) == text_property(
        "LOCATION"@,
        d.location,
    ));
    assert(compose::optional_text("DESCRIPTION"@, d.description) == text_property(
        "DESCRIPTION"@,
        d.description,
    ));
}

/// A new event is put as a new object of its collection, under its UID: it says its
/// draft, nobody has answered yet, and it has no alarm.
pub proof fn law_new_event(
    nc: NcView,
    calendar_id: Seq<char>,
    d: EventDraftView,
    uid: Seq<char>,
    now: Instant,
)
    ensures
        caldav::new_event_request(nc, calendar_id, d, uid, now) == put(
            nc,
            (if calendar_id.len() > 0 && calendar_id.last() == '/' {
                calendar_id
            } else {
                calendar_id.push('/')
            }) + uid + ".ics"@,
            ics::event_text(
                said_properties(
                    d,
                    uid,
                    Seq::new(d.attendees.len(), |k: int| "NEEDS-ACTION"@),
                    now,
                ),
                Seq::empty(),
            ),
        ),
{
    let ctx = compose::create_ctx(uid);
    let answers = Seq::new(d.attendees.len(), |k: int| "NEEDS-ACTION"@);
    lemma_said(d, ctx, answers, now);
    lemma_nothing_written();
    reveal_strlit("/");
    assert(calendar_id + "/"@ == calendar_id.push('/'));
    let (h, l, t) = (
        ics::event_head(),
        ics::lines_text(compose::event_props(d, ctx, now)),
        ics::event_tail(),
    );
    let e = Seq::<char>::empty();
    assert(h + l + e + e + e + e + t == h + l + e + t);
    lemma_put(
        nc,
        caldav::item_href(calendar_id, uid),
        compose::vevent_text(d, ctx, now),
    );
}

/// A request that puts an object: the whole of it, as a calendar, at its address.
pub open spec fn put(nc: NcView, href: Seq<char>, object: Seq<char>) -> RequestView {
    RequestView {
        method: "PUT"@,
        url: address(nc, href),
        headers: seq![
            ("Authorization"@, password_header(nc)),
            ("Content-Type"@, "text/calendar; charset=utf-8"@),
        ],
        body: object,
    }
}

/// The address of a path: a whole one as it is, another below the server.
pub open spec fn address(nc: NcView, path: Seq<char>) -> Seq<char> {
    if path.len() >= 4 && path.take(4) == "http"@ {
        path
    } else {
        nc.base + path
    }
}

/// The name and the password of an account, as a header.
pub open spec fn password_header(nc: NcView) -> Seq<char> {
    "Basic "@ + caldav::base64_text(nc.username + ":"@ + nc.password)
}

proof fn lemma_address(nc: NcView, path: Seq<char>)
    ensures
        caldav::resolved(nc, path) == address(nc, path),
{
    reveal_strlit("http");
    assert("http"@.len() == 4);
    if path.len() >= 4 {
        assert("http"@.is_prefix_of(path) <==> path.take(4) == "http"@);
    }
}

proof fn lemma_methods()
    ensures
        "PROPFIND"@.len() == 8,
        "REPORT"@.len() == 6 && "REPORT"@[0] == 'R',
        "PUT"@.len() == 3 && "PUT"@[0] == 'P',
        "GET"@.len() == 3 && "GET"@[0] == 'G',
        "DELETE"@.len() == 6 && "DELETE"@[0] == 'D',
{
    reveal_strlit("PROPFIND");
    reveal_strlit("REPORT");
    reveal_strlit("PUT");
    reveal_strlit("GET");
    reveal_strlit("DELETE");
}

proof fn lemma_put(nc: NcView, href: Seq<char>, object: Seq<char>)
    ensures
        caldav::put_request(nc, href, object) == put(nc, href, object),
{
    lemma_address(nc, href);
    lemma_methods();
    assert(caldav::put_request(nc, href, object).headers =~= put(nc, href, object).headers);
}

/// Every request goes to its address with the name and the password of its account;
/// what is asked of a collection is asked of what lies directly in it.
pub proof fn law_requests(
    nc: NcView,
    method: Seq<char>,
    path: Seq<char>,
    content_type: Seq<char>,
    body: Seq<char>,
)
    ensures
        ({
            let r = caldav::request_of(nc, method, path, Some(content_type), body);
            &&& r.method == method && r.url == address(nc, path) && r.body == body
            &&& r.headers == if method == "PROPFIND"@ || method == "REPORT"@ {
                seq![
                    ("Authorization"@, password_header(nc)),
                    ("Content-Type"@, content_type),
                    ("Depth"@, "1"@),
                ]
            } else {
                seq![("Authorization"@, password_header(nc)), ("Content-Type"@, content_type)]
            }
        }),
        caldav::get_request(nc, path) == (RequestView {
            method: "GET"@,
            url: address(nc, path),
            headers: seq![("Authorization"@, password_header(nc))],
            body: Seq::empty(),
        }),
        caldav::delete_request(nc, path) == (RequestView {
            method: "DELETE"@,
            url: address(nc, path),
            headers: seq![("Authorization"@, password_header(nc))],
            body: Seq::empty(),
        }),
        caldav::put_request(nc, path, body) == put(nc, path, body),
{
    lemma_address(nc, path);
    lemma_methods();
    lemma_put(nc, path, body);
    let r = caldav::request_of(nc, method, path, Some(content_type), body);
    assert(r.headers =~= if method == "PROPFIND"@ || method == "REPORT"@ {
        seq![
            ("Authorization"@, password_header(nc)),
            ("Content-Type"@, content_type),
            ("Depth"@, "1"@),
        ]
    } else {
        seq![("Authorization"@, password_header(nc)), ("Content-Type"@, content_type)]
    });
    assert(caldav::get_request(nc, path).headers =~= seq![
        ("Authorization"@, password_header(nc)),
    ]);
    assert(caldav::delete_request(nc, path).headers =~= seq![
        ("Authorization"@, password_header(nc)),
    ]);
}

/// Whether `n` is the sequence number of an event: the number that it says, and zero
/// where it says none that fits.
pub open spec fn sequence_number(props: Seq<PropertyV>, n: int) -> bool {
    ||| exists|k: int, v: Seq<char>| #[trigger]
        first_of_name(props, "SEQUENCE"@, k) && props[k].value == Some(v)
            && #[trigger] text::natural_value(v) == Some(n as nat) && 0 <= n <= u32::MAX
    ||| n == 0 && forall|k: int, v: Seq<char>| #[trigger]
        first_of_name(props, "SEQUENCE"@, k) && props[k].value == Some(v) ==> match #[trigger]
            text::natural_value(v) {
            Some(m) => m > u32::MAX,
            None => true,
        }
}

/// The properties that an edited event keeps: its organizer, every property that its
/// draft does not say, as it is and in its order, and its sequence number, one up.
pub open spec fn kept_properties(old: EventV, n: int, organizer: Seq<PropertyV>) -> Seq<PropertyV> {
    organizer + old.properties.filter(|p: PropertyV| !replaced_in_event(p)) + seq![
        bare_property("SEQUENCE"@, text::numeral((n + 1) as nat)),
    ]
}

/// Whether a list holds the first organizer of an event and nothing else.
pub open spec fn organizer_alone(props: Seq<PropertyV>, organizer: Seq<PropertyV>) -> bool {
    ||| exists|k: int| #[trigger]
        first_of_name(props, "ORGANIZER"@, k) && organizer == seq![props[k]]
    ||| organizer.len() == 0 && forall|k: int| !#[trigger] first_of_name(props, "ORGANIZER"@, k)
}

/// Whether answers are those that guests have given so far.
pub open spec fn answers_so_far(
    props: Seq<PropertyV>,
    emails: Seq<Seq<char>>,
    answers: Seq<Seq<char>>,
) -> bool {
    &&& answers.len() == emails.len()
    &&& forall|k: int|
        0 <= k < emails.len() ==> answer_so_far(props, #[trigger] emails[k], answers[k])
}

proof fn lemma_rest_of_event(props: Seq<PropertyV>)
    ensures
        compose::event_rest(props) == props.filter(|p: PropertyV| !replaced_in_event(p)),
    decreases props.len(),
{
    reveal(Seq::filter);
    let f = |p: PropertyV| !compose::event_says(p.name);
    let g = |p: PropertyV| !replaced_in_event(p);
    if props.len() > 0 {
        lemma_rest_of_event(props.drop_last());
        lemma_replaced_in_event(props.last());
        assert(props.drop_last().filter(f) == props.drop_last().filter(g));
    }
}

/// An edit puts the event back where it was fetched from, whole: with the UID, the
/// organizer, the alarms and every property that the draft does not say, with the
/// answers of its guests, and with its sequence number one up.
#[verifier::rlimit(30)]
pub proof fn law_edited_event(
    nc: NcView,
    event_id: Seq<char>,
    d: EventDraftView,
    status: u16,
    body: Seq<char>,
    old: EventV,
    now: Instant,
    uid: Seq<char>,
    n: int,
    organizer: Seq<PropertyV>,
    answers: Seq<Seq<char>>,
)
    requires
        200 <= status < 300,
        ical::calendar_reading(body) matches Some(c) && c.events.len() > 0 && c.events[0] == old,
        value_or_nothing(old.properties, "UID"@, uid),
        sequence_number(old.properties, n),
        organizer_alone(old.properties, organizer),
        answers_so_far(old.properties, d.attendees, answers),
    ensures
        n < u32::MAX ==> caldav::event_edit(nc, event_id, d, Ok((status, body)), now)
            == EditView::Put(
            put(
                nc,
                event_id,
                ics::event_text(
                    said_properties(d, uid, answers, now) + kept_properties(old, n, organizer),
                    old.alarms,
                ),
            ),
        ),
        n >= u32::MAX ==> caldav::event_edit(nc, event_id, d, Ok((status, body)), now)
            == EditView::OutOfRange,
{
    let ctx = compose::edit_ctx(old);
    let props = old.properties;
    law_first_of_a_name(props, "UID"@);
    law_first_of_a_name(props, "SEQUENCE"@);
    law_first_of_a_name(props, "ORGANIZER"@);
    assert(ctx.uid == uid) by {
        if exists|k: int| #[trigger] first_of_name(props, "UID"@, k) && props[k].value == Some(
            uid,
        ) {
            let k = choose|k: int| #[trigger]
                first_of_name(props, "UID"@, k) && props[k].value == Some(uid);
            assert(first_of_name(props, "UID"@, k));
        } else {
            assert(uid =~= Seq::empty());
        }
    }
    lemma_sequence_of(props, n);
    assert forall|k: int| 0 <= k < d.attendees.len() implies compose::guest(
        #[trigger] d.attendees[k],
        ctx.existing_partstat,
    ) == invitation(d.attendees[k], answers[k]) by {
        law_guest_keeps_the_answer(props, d.attendees[k], answers[k]);
    }
    lemma_said(d, ctx, answers, now);
    lemma_rest_of_event(props);
    if n < u32::MAX {
        let said = said_properties(d, uid, answers, now);
        let rest = props.filter(|p: PropertyV| !replaced_in_event(p));
        let seq1 = seq![bare_property("SEQUENCE"@, text::numeral((n + 1) as nat))];
        assert(compose::sequence_props(ctx.sequence) == seq1);
        let line = match ctx.organizer_raw {
            Some(line) => line,
            None => Seq::empty(),
        };
        lemma_nothing_written();
        assert(ics::lines_text(organizer) == line) by {
            if exists|k: int| #[trigger]
                first_of_name(props, "ORGANIZER"@, k) && organizer == seq![props[k]] {
                let k = choose|k: int| #[trigger]
                    first_of_name(props, "ORGANIZER"@, k) && organizer == seq![props[k]];
                assert(first_of_name(props, "ORGANIZER"@, k));
                let e = Seq::<PropertyV>::empty();
                compose::lemma_lines_push(e, props[k]);
                assert(e.push(props[k]) == organizer);
                assert(Seq::<char>::empty() + line == line);
            } else {
                assert(organizer =~= Seq::<PropertyV>::empty());
            }
        }
        compose::lemma_lines_add(organizer, rest);
        compose::lemma_lines_add(organizer + rest, seq1);
        compose::lemma_lines_add(said, kept_properties(old, n, organizer));
        let (h, l, r, s, m, t) = (
            ics::event_head(),
            ics::lines_text(said),
            ics::lines_text(rest),
            ics::lines_text(seq1),
            ics::alarms_text(old.alarms),
            ics::event_tail(),
        );
        assert(h + l + line + r + s + m + t == h + (l + (line + r + s)) + m + t);
        lemma_put(nc, event_id, compose::vevent_text(d, ctx, now));
    }
}

proof fn lemma_sequence_of(props: Seq<PropertyV>, n: int)
    requires
        sequence_number(props, n),
    ensures
        compose::sequence_of(props) == n,
{
    law_first_of_a_name(props, "SEQUENCE"@);
    if exists|k: int, v: Seq<char>| #[trigger]
        first_of_name(props, "SEQUENCE"@, k) && props[k].value == Some(v)
            && #[trigger] text::natural_value(v) == Some(n as nat) && 0 <= n <= u32::MAX {
        let (k, v) = choose|k: int, v: Seq<char>| #[trigger]
            first_of_name(props, "SEQUENCE"@, k) && props[k].value == Some(v)
                && #[trigger] text::natural_value(v) == Some(n as nat) && 0 <= n <= u32::MAX;
        assert(first_of_name(props, "SEQUENCE"@, k));
    } else if exists|k: int| #[trigger] first_of_name(props, "SEQUENCE"@, k) {
        let k = choose|k: int| #[trigger] first_of_name(props, "SEQUENCE"@, k);
        if props[k].value is Some {
            let v = props[k].value->0;
            assert(text::natural_value(v) is None || text::natural_value(v)->0 > u32::MAX);
        }
    }
}

// ---------------------------------------------------------------------
// Tasks as they are written
// ---------------------------------------------------------------------

/// The properties of a task that its draft and its status say.
pub open spec fn said_of_task(
    d: TaskDraftView,
    uid: Seq<char>,
    status: Seq<char>,
    now: Instant,
) -> Seq<PropertyV> {
    seq![
        bare_property("UID"@, uid),
        bare_property("DTSTAMP"@, stamp(now.secs, now.nanos)),
        bare_property("SUMMARY"@, ics::escaped(d.title)),
    ] + text_property("DESCRIPTION"@, d.notes) + (match d.due {
        Some(day) => seq![day_property("DUE"@, day.days as int)],
        None => Seq::empty(),
    }) + seq![bare_property("STATUS"@, status)]
}

/// Whether a property of a task is said by its draft or its status, and so not kept as
/// it is. When it is due is said by the draft where `due_said`; a duration gives way to
/// a due day.
pub open spec fn replaced_in_task(p: PropertyV, due_said: bool, has_due: bool) -> bool {
    ||| seq![
        "UID"@,
        "DTSTAMP"@,
        "SUMMARY"@,
        "DESCRIPTION"@,
        "STATUS"@,
        "COMPLETED"@,
        "PERCENT-COMPLETE"@,
    ].contains(p.name)
    ||| due_said && p.name == "DUE"@
    ||| has_due && p.name == "DURATION"@
}

/// The properties that a task keeps, as they are and in their order.
pub open spec fn kept_of_task(old: TodoV, due_said: bool, has_due: bool) -> Seq<PropertyV> {
    old.properties.filter(|p: PropertyV| !replaced_in_task(p, due_said, has_due))
}

proof fn lemma_replaced_in_task(p: PropertyV, due_said: bool, has_due: bool)
    ensures
        replaced_in_task(p, due_said, has_due) == compose::todo_says(p.name, due_said, has_due),
{
    let names = seq![
        "UID"@,
        "DTSTAMP"@,
        "SUMMARY"@,
        "DESCRIPTION"@,
        "STATUS"@,
        "COMPLETED"@,
        "PERCENT-COMPLETE"@,
    ];
    assert(names[0] == "UID"@ && names[1] == "DTSTAMP"@ && names[2] == "SUMMARY"@ && names[3]
        == "DESCRIPTION"@ && names[4] == "STATUS"@ && names[5] == "COMPLETED"@ && names[6]
        == "PERCENT-COMPLETE"@ && names.len() == 7);
    if compose::todo_says(p.name, false, false) {
        assert(names.contains(p.name));
    }
    if names.contains(p.name) {
        let i = choose|i: int| 0 <= i < names.len() && names[i] == p.name;
        assert(names[i] == p.name);
    }
}

proof fn lemma_rest_of_task(props: Seq<PropertyV>, due_said: bool, has_due: bool)
    ensures
        compose::todo_rest(props, due_said, has_due) == props.filter(
            |p: PropertyV| !replaced_in_task(p, due_said, has_due),
        ),
    decreases props.len(),
{
    reveal(Seq::filter);
    let f = |p: PropertyV| !compose::todo_says(p.name, due_said, has_due);
    let g = |p: PropertyV| !replaced_in_task(p, due_said, has_due);
    if props.len() > 0 {
        lemma_rest_of_task(props.drop_last(), due_said, has_due);
        lemma_replaced_in_task(props.last(), due_said, has_due);
        assert(props.drop_last().filter(f) == props.drop_last().filter(g));
    }
}

proof fn lemma_said_of_task(d: TaskDraftView, uid: Seq<char>, status: Seq<char>, now: Instant)
    ensures
        compose::todo_props(d, uid, status, now) == said_of_task(d, uid, status, now),
{
    assert(compose::optional_text("DESCRIPTION"@, d.notes) == text_property(
        "DESCRIPTION"@,
        d.notes,
    ));
    assert(compose::due_props(d.due) == match d.due {
        Some(day) => seq![day_property("DUE"@, day.days as int)],
        None => Seq::<PropertyV>::empty(),
    });
}

/// A new task is put at its address: it says its draft and that it is still to do, and
/// it has no alarm.
pub proof fn law_new_task(
    nc: NcView,
    href: Seq<char>,
    d: TaskDraftView,
    uid: Seq<char>,
    now: Instant,
)
    ensures
        caldav::open_task_request(nc, href, d, uid, now) == put(
            nc,
            href,
            ics::todo_text(said_of_task(d, uid, "NEEDS-ACTION"@, now), Seq::empty()),
        ),
{
    lemma_said_of_task(d, uid, "NEEDS-ACTION"@, now);
    lemma_nothing_written();
    lemma_put(
        nc,
        href,
        compose::vtodo_text(d, uid, "NEEDS-ACTION"@, Seq::empty(), now),
    );
}

proof fn lemma_task_text(
    d: TaskDraftView,
    uid: Seq<char>,
    status: Seq<char>,
    old: TodoV,
    due_said: bool,
    done: Seq<PropertyV>,
    now: Instant,
)
    ensures
        compose::vtodo_text(
            d,
            uid,
            status,
            compose::kept_text(old, due_said, d.due is Some, done),
            now,
        ) == ics::todo_text(
            said_of_task(d, uid, status, now) + kept_of_task(old, due_said, d.due is Some) + done,
            old.alarms,
        ),
{
    let said = said_of_task(d, uid, status, now);
    let rest = kept_of_task(old, due_said, d.due is Some);
    lemma_said_of_task(d, uid, status, now);
    lemma_rest_of_task(old.properties, due_said, d.due is Some);
    compose::lemma_lines_add(said, rest);
    compose::lemma_lines_add(said + rest, done);
    let (h, l, r, x, m, t) = (
        ics::todo_head(),
        ics::lines_text(said),
        ics::lines_text(rest),
        ics::lines_text(done),
        ics::alarms_text(old.alarms),
        ics::todo_tail(),
    );
    assert(h + l + (r + x + m) + t == h + (l + r + x) + m + t);
}

proof fn lemma_uid(props: Seq<PropertyV>, uid: Seq<char>)
    requires
        value_or_nothing(props, "UID"@, uid),
    ensures
        caldav::todo_uid(props) == uid,
{
    law_first_of_a_name(props, "UID"@);
    if exists|k: int| #[trigger] first_of_name(props, "UID"@, k) && props[k].value == Some(uid) {
        let k = choose|k: int| #[trigger]
            first_of_name(props, "UID"@, k) && props[k].value == Some(uid);
        assert(first_of_name(props, "UID"@, k));
    } else {
        assert(uid =~= Seq::empty());
    }
}

/// An edit puts the task back where it was fetched from, whole: with its UID, its
/// alarms and every property that the draft does not say. It is then still to do.
pub proof fn law_edited_task(
    nc: NcView,
    task_id: Seq<char>,
    d: TaskDraftView,
    status: u16,
    body: Seq<char>,
    old: TodoV,
    now: Instant,
    uid: Seq<char>,
)
    requires
        200 <= status < 300,
        ical::calendar_reading(body) matches Some(c) && c.todos.len() > 0 && c.todos[0] == old,
        value_or_nothing(old.properties, "UID"@, uid),
    ensures
        caldav::task_edit(nc, task_id, d, Ok((status, body)), now) == EditView::Put(
            put(
                nc,
                task_id,
                ics::todo_text(
                    said_of_task(d, uid, "NEEDS-ACTION"@, now) + kept_of_task(
                        old,
                        true,
                        d.due is Some,
                    ),
                    old.alarms,
                ),
            ),
        ),
{
    lemma_uid(old.properties, uid);
    let none = Seq::<PropertyV>::empty();
    lemma_task_text(d, uid, "NEEDS-ACTION"@, old, true, none, now);
    let said = said_of_task(d, uid, "NEEDS-ACTION"@, now);
    let rest = kept_of_task(old, true, d.due is Some);
    assert(said + rest + none == said + rest);
    lemma_put(nc, task_id, ics::todo_text(said + rest, old.alarms));
}

/// Completing a task changes its status, says when it was completed, and changes
/// nothing else: its title, its notes, when it is due, its alarms and all other
/// properties stay.
pub proof fn law_completed_task(
    nc: NcView,
    task_id: Seq<char>,
    old: TodoV,
    task: TaskView,
    done: Instant,
    now: Instant,
    uid: Seq<char>,
    notes: Seq<char>,
    due: Option<Date>,
)
    requires
        value_or_nothing(old.properties, "UID"@, uid),
        task.notes matches Some(n) ==> notes == n,
        task.notes is None ==> notes.len() == 0,
        due matches Some(day) ==> model::moment_at(old.properties, "DUE"@) == ical::When::Day(day),
        due is None ==> !(model::moment_at(old.properties, "DUE"@) is Day),
    ensures
        ({
            let d = TaskDraftView { title: task.title, notes, due };
            caldav::completion(nc, task_id, old, task, done, now) == put(
                nc,
                task_id,
                ics::todo_text(
                    said_of_task(d, uid, "COMPLETED"@, now) + kept_of_task(
                        old,
                        due is Some,
                        due is Some,
                    ) + seq![
                        bare_property("COMPLETED"@, stamp(done.secs, done.nanos)),
                        bare_property("PERCENT-COMPLETE"@, "100"@),
                    ],
                    old.alarms,
                ),
            )
        }),
{
    lemma_uid(old.properties, uid);
    let d = TaskDraftView { title: task.title, notes, due };
    if task.notes is None {
        assert(notes =~= Seq::empty());
    }
    assert(caldav::completed_draft(old.properties, task) == d);
    let end = seq![
        bare_property("COMPLETED"@, stamp(done.secs, done.nanos)),
        bare_property("PERCENT-COMPLETE"@, "100"@),
    ];
    assert(compose::completed_props(done) == end);
    lemma_task_text(d, uid, "COMPLETED"@, old, due is Some, end, now);
    lemma_put(
        nc,
        task_id,
        ics::todo_text(
            said_of_task(d, uid, "COMPLETED"@, now) + kept_of_task(old, due is Some, due is Some)
                + end,
            old.alarms,
        ),
    );
}

// ---------------------------------------------------------------------
// Replies
// ---------------------------------------------------------------------

/// A change has worked exactly where the server says so by its status; what is gone
/// already counts as deleted. What kept the request from being answered is passed on.
pub proof fn law_outcomes(href: Seq<char>, status: u16, body: Seq<char>, e: Seq<char>)
    ensures
        caldav::put_outcome(href, Ok((status, body))) is Ok <==> 200 <= status < 300,
        caldav::delete_outcome(href, Ok((status, body))) is Ok <==> 200 <= status < 300 || status
            == 404,
        !(200 <= status < 300) ==> caldav::put_outcome(href, Ok((status, body))) == Err::<
            (),
            Seq<char>,
        >("PUT "@ + href + ": HTTP "@ + text::numeral(status as nat)),
        !(200 <= status < 300 || status == 404) ==> caldav::delete_outcome(
            href,
            Ok((status, body)),
        ) == Err::<(), Seq<char>>("DELETE "@ + href + ": HTTP "@ + text::numeral(status as nat)),
        caldav::put_outcome(href, Err(e)) == Err::<(), Seq<char>>(e),
        caldav::delete_outcome(href, Err(e)) == Err::<(), Seq<char>>(e),
{
    reveal_strlit("PUT ");
    reveal_strlit("DELETE ");
    reveal_strlit("PUT");
    reveal_strlit("DELETE");
    reveal_strlit(" ");
    assert("PUT"@ + " "@ =~= "PUT "@);
    assert("DELETE"@ + " "@ =~= "DELETE "@);
}

/// An edit goes by the first event, or the first task, that the server has at the
/// address; without one, or without a successful answer, it fails and says why.
pub proof fn law_current_object(href: Seq<char>, status: u16, body: Seq<char>, e: Seq<char>)
    ensures
        caldav::current_event(href, Err(e)) == Err::<EventV, Seq<char>>(e),
        caldav::current_todo(href, Err(e)) == Err::<TodoV, Seq<char>>(e),
        !(200 <= status < 300) ==> caldav::current_event(href, Ok((status, body))) == Err::<
            EventV,
            Seq<char>,
        >("GET "@ + href + ": HTTP "@ + text::numeral(status as nat)) && caldav::current_todo(
            href,
            Ok((status, body)),
        ) == Err::<TodoV, Seq<char>>("GET "@ + href + ": HTTP "@ + text::numeral(status as nat)),
        200 <= status < 300 ==> caldav::current_event(href, Ok((status, body)))
            == match ical::calendar_reading(body) {
            Some(c) => if c.events.len() > 0 {
                Ok::<EventV, Seq<char>>(c.events[0])
            } else {
                Err("GET "@ + href + ": no VEVENT in response"@)
            },
            None => Err("GET "@ + href + ": no VEVENT in response"@),
        },
        200 <= status < 300 ==> caldav::current_todo(href, Ok((status, body)))
            == match ical::calendar_reading(body) {
            Some(c) => if c.todos.len() > 0 {
                Ok::<TodoV, Seq<char>>(c.todos[0])
            } else {
                Err("GET "@ + href + ": no VTODO in response"@)
            },
            None => Err("GET "@ + href + ": no VTODO in response"@),
        },
{
    reveal_strlit("GET ");
    reveal_strlit("GET");
    reveal_strlit(" ");
    assert("GET"@ + " "@ =~= "GET "@);
}

/// An edit of what could not be had changes nothing.
pub proof fn law_failed_edit(
    nc: NcView,
    href: Seq<char>,
    d: EventDraftView,
    t: TaskDraftView,
    reply: Result<(u16, Seq<char>), Seq<char>>,
    now: Instant,
)
    requires
        !(reply matches Ok((status, _)) && 200 <= status < 300),
    ensures
        caldav::event_edit(nc, href, d, reply, now) is Failed,
        caldav::task_edit(nc, href, t, reply, now) is Failed,
{
}

} // verus!
