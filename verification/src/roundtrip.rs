//! What is read back from the calendar objects that drafts are written as.

use vstd::prelude::*;

use crate::backend::{EventDraftView, TaskDraftView};
use crate::compose;
use crate::compose::EventCtxView;
use crate::ical;
use crate::ical::{CalendarV, EventV, PropertyV, TodoV, When};
use crate::ics;
use crate::model;
use crate::model::{AttendeeView, EventView, TaskView};
use crate::text;
use crate::time;
use crate::time::{Date, Instant, Moment};

verus! {

// ---------------------------------------------------------------------
// Names and lists of properties
// ---------------------------------------------------------------------

/// The property names differ: by length, or by a character.
proof fn lemma_names()
    ensures
        "UID"@.len() == 3 && "UID"@[0] == 'U',
        "DUE"@.len() == 3 && "DUE"@[0] == 'D',
        "END"@.len() == 3 && "END"@[0] == 'E',
        "DTEND"@.len() == 5 && "DTEND"@[0] == 'D',
        "BEGIN"@.len() == 5 && "BEGIN"@[0] == 'B',
        "STATUS"@.len() == 6,
        "DTSTAMP"@.len() == 7 && "DTSTAMP"@[5] == 'M',
        "DTSTART"@.len() == 7 && "DTSTART"@[5] == 'R',
        "SUMMARY"@.len() == 7 && "SUMMARY"@[5] == 'R' && "SUMMARY"@[0] == 'S' && "DTSTART"@[0] == 'D',
        "LOCATION"@.len() == 8 && "LOCATION"@[0] == 'L',
        "ATTENDEE"@.len() == 8 && "ATTENDEE"@[0] == 'A',
        "SEQUENCE"@.len() == 8 && "SEQUENCE"@[0] == 'S',
        "ORGANIZER"@.len() == 9 && "ORGANIZER"@[0] == 'O',
        "COMPLETED"@.len() == 9 && "COMPLETED"@[0] == 'C',
        "DESCRIPTION"@.len() == 11,
        "PERCENT-COMPLETE"@.len() == 16,
        "DURATION"@.len() == 8 && "DURATION"@[0] == 'D',
        "VALUE"@.len() == 5,
        "DATE"@.len() == 4,
        "PARTSTAT"@.len() == 8,
        "RSVP"@.len() == 4,
        "CN"@.len() == 2,
        "TRUE"@.len() == 4,
{
    reveal_strlit("UID");
    reveal_strlit("DUE");
    reveal_strlit("END");
    reveal_strlit("DTEND");
    reveal_strlit("BEGIN");
    reveal_strlit("STATUS");
    reveal_strlit("DTSTAMP");
    reveal_strlit("DTSTART");
    reveal_strlit("SUMMARY");
    reveal_strlit("LOCATION");
    reveal_strlit("ATTENDEE");
    reveal_strlit("SEQUENCE");
    reveal_strlit("ORGANIZER");
    reveal_strlit("COMPLETED");
    reveal_strlit("DESCRIPTION");
    reveal_strlit("PERCENT-COMPLETE");
    reveal_strlit("DURATION");
    reveal_strlit("VALUE");
    reveal_strlit("DATE");
    reveal_strlit("PARTSTAT");
    reveal_strlit("RSVP");
    reveal_strlit("CN");
    reveal_strlit("TRUE");
}

/// The first property of a name in two lists is that of the first, else that of
/// the second.
proof fn lemma_first_named_add(a: Seq<PropertyV>, b: Seq<PropertyV>, name: Seq<char>)
    ensures
        ical::first_named(a + b, name) == match ical::first_named(a, name) {
            Some(p) => Some(p),
            None => ical::first_named(b, name),
        },
    decreases a.len(),
{
    if a.len() == 0 {
        assert(a + b == b);
    } else {
        assert((a + b).drop_first() == a.drop_first() + b);
        lemma_first_named_add(a.drop_first(), b, name);
    }
}

/// A list of one property has that property.
proof fn lemma_first_named_one(p: PropertyV, name: Seq<char>)
    ensures
        ical::first_named(seq![p], name) == if p.name == name {
            Some(p)
        } else {
            None
        },
{
    assert(seq![p].drop_first() == Seq::<PropertyV>::empty());
    assert(ical::first_named(Seq::<PropertyV>::empty(), name) is None);
}

/// A list of two properties has the first of them, else the second.
proof fn lemma_first_named_two(p: PropertyV, q: PropertyV, name: Seq<char>)
    ensures
        ical::first_named(seq![p, q], name) == if p.name == name {
            Some(p)
        } else if q.name == name {
            Some(q)
        } else {
            None
        },
{
    assert(seq![p, q] == seq![p] + seq![q]);
    lemma_first_named_add(seq![p], seq![q], name);
    lemma_first_named_one(p, name);
    lemma_first_named_one(q, name);
}

/// Where no property has a name, none is found.
proof fn lemma_first_named_none(props: Seq<PropertyV>, name: Seq<char>)
    requires
        forall|i: int| 0 <= i < props.len() ==> (#[trigger] props[i]).name != name,
    ensures
        ical::first_named(props, name) is None,
    decreases props.len(),
{
    if props.len() > 0 {
        let rest = props.drop_first();
        assert(props[0].name != name);
        assert forall|i: int| 0 <= i < rest.len() implies (#[trigger] rest[i]).name != name by {
            assert(rest[i] == props[i + 1]);
        }
        lemma_first_named_none(rest, name);
    }
}

/// What is kept passes, and what is kept of two lists follows each other.
proof fn lemma_filter_add(a: Seq<PropertyV>, b: Seq<PropertyV>, f: spec_fn(PropertyV) -> bool)
    ensures
        (a + b).filter(f) == a.filter(f) + b.filter(f),
    decreases b.len(),
{
    reveal(Seq::filter);
    if b.len() == 0 {
        assert(a + b == a);
        assert(a.filter(f) + b.filter(f) == a.filter(f));
    } else {
        let front = b.drop_last();
        lemma_filter_add(a, front, f);
        compose::lemma_filter_push(front, b.last(), f);
        compose::lemma_filter_push(a + front, b.last(), f);
        assert(front.push(b.last()) == b);
        assert((a + front).push(b.last()) == a + b);
        if f(b.last()) {
            assert((a.filter(f) + front.filter(f)).push(b.last()) == a.filter(f) + front.filter(
                f,
            ).push(b.last()));
        }
    }
}

/// Where every property passes all are kept, where none does none is; and what is
/// kept passes.
proof fn lemma_filter_all(props: Seq<PropertyV>, f: spec_fn(PropertyV) -> bool)
    ensures
        (forall|i: int| 0 <= i < props.len() ==> f(#[trigger] props[i])) ==> props.filter(f)
            == props,
        (forall|i: int| 0 <= i < props.len() ==> !f(#[trigger] props[i])) ==> props.filter(f)
            == Seq::<PropertyV>::empty(),
        forall|i: int| 0 <= i < props.filter(f).len() ==> f(#[trigger] props.filter(f)[i]),
    decreases props.len(),
{
    reveal(Seq::filter);
    if props.len() > 0 {
        let front = props.drop_last();
        let p = props[props.len() - 1];
        lemma_filter_all(front, f);
        compose::lemma_filter_push(front, p, f);
        assert(front.push(p) == props);
        if forall|i: int| 0 <= i < props.len() ==> f(#[trigger] props[i]) {
            assert forall|i: int| 0 <= i < front.len() implies f(#[trigger] front[i]) by {
                assert(front[i] == props[i]);
            }
            assert(f(p));
        }
        if forall|i: int| 0 <= i < props.len() ==> !f(#[trigger] props[i]) {
            assert forall|i: int| 0 <= i < front.len() implies !f(#[trigger] front[i]) by {
                assert(front[i] == props[i]);
            }
            assert(!f(p));
        }
        assert forall|i: int| 0 <= i < props.filter(f).len() implies f(
            #[trigger] props.filter(f)[i],
        ) by {
            if i < front.filter(f).len() {
                assert(props.filter(f)[i] == front.filter(f)[i]);
            }
        }
    }
}

/// Where every property of a name passes, the first of that name is kept.
proof fn lemma_filter_first(
    props: Seq<PropertyV>,
    f: spec_fn(PropertyV) -> bool,
    name: Seq<char>,
)
    requires
        forall|p: PropertyV| p.name == name ==> #[trigger] f(p),
    ensures
        ical::first_named(props.filter(f), name) == ical::first_named(props, name),
    decreases props.len(),
{
    reveal(Seq::filter);
    if props.len() > 0 {
        let front = props.drop_last();
        let p = props.last();
        lemma_filter_first(front, f, name);
        compose::lemma_filter_push(front, p, f);
        assert(front.push(p) == props);
        assert(props == front + seq![p]);
        lemma_first_named_add(front, seq![p], name);
        lemma_first_named_one(p, name);
        if f(p) {
            assert(front.filter(f).push(p) == front.filter(f) + seq![p]);
            lemma_first_named_add(front.filter(f), seq![p], name);
        }
    } else {
        assert(props.filter(f) == props);
    }
}

/// Where no property of a name passes, none of that name is kept.
proof fn lemma_filter_none(
    props: Seq<PropertyV>,
    f: spec_fn(PropertyV) -> bool,
    name: Seq<char>,
)
    requires
        forall|p: PropertyV| p.name == name ==> !(#[trigger] f(p)),
    ensures
        ical::first_named(props.filter(f), name) is None,
        forall|i: int|
            0 <= i < props.filter(f).len() ==> (#[trigger] props.filter(f)[i]).name != name,
{
    lemma_filter_all(props, f);
    lemma_first_named_none(props.filter(f), name);
}

/// What stands before the guests of a written event.
spec fn event_front(d: EventDraftView, ctx: EventCtxView, now: Instant) -> Seq<PropertyV> {
    seq![compose::plain("UID"@, ctx.uid), compose::plain("DTSTAMP"@, compose::utc_stamp(now))]
        + compose::span(d) + seq![compose::plain("SUMMARY"@, ics::escaped(d.summary))]
        + compose::optional_text("LOCATION"@, d.location) + compose::optional_text(
        "DESCRIPTION"@,
        d.description,
    )
}

/// The property of a name in a written event, up to its guests.
proof fn lemma_event_front(d: EventDraftView, ctx: EventCtxView, now: Instant, name: Seq<char>)
    ensures
        ical::first_named(event_front(d, ctx, now), name) == if name == "UID"@ {
            Some(compose::plain("UID"@, ctx.uid))
        } else if name == "DTSTAMP"@ {
            Some(compose::plain("DTSTAMP"@, compose::utc_stamp(now)))
        } else if name == "DTSTART"@ {
            Some(compose::span(d)[0])
        } else if name == "DTEND"@ {
            Some(compose::span(d)[1])
        } else if name == "SUMMARY"@ {
            Some(compose::plain("SUMMARY"@, ics::escaped(d.summary)))
        } else if name == "LOCATION"@ && d.location.len() > 0 {
            Some(compose::plain("LOCATION"@, ics::escaped(d.location)))
        } else if name == "DESCRIPTION"@ && d.description.len() > 0 {
            Some(compose::plain("DESCRIPTION"@, ics::escaped(d.description)))
        } else {
            None
        },
{
    lemma_names();
    let uid = compose::plain("UID"@, ctx.uid);
    let stamp = compose::plain("DTSTAMP"@, compose::utc_stamp(now));
    let a = seq![uid, stamp];
    let b = compose::span(d);
    let summary = compose::plain("SUMMARY"@, ics::escaped(d.summary));
    let c = seq![summary];
    let l = compose::optional_text("LOCATION"@, d.location);
    let e = compose::optional_text("DESCRIPTION"@, d.description);
    lemma_first_named_two(uid, stamp, name);
    assert(b == seq![b[0], b[1]]);
    lemma_first_named_two(b[0], b[1], name);
    lemma_first_named_one(summary, name);
    if d.location.len() > 0 {
        lemma_first_named_one(compose::plain("LOCATION"@, ics::escaped(d.location)), name);
    } else {
        lemma_first_named_none(l, name);
    }
    if d.description.len() > 0 {
        lemma_first_named_one(compose::plain("DESCRIPTION"@, ics::escaped(d.description)), name);
    } else {
        lemma_first_named_none(e, name);
    }
    lemma_first_named_add(a, b, name);
    lemma_first_named_add(a + b, c, name);
    lemma_first_named_add(a + b + c, l, name);
    lemma_first_named_add(a + b + c + l, e, name);
}

/// What follows the guests in a written event: the organizer, the properties that
/// a draft does not say, and the sequence number.
pub open spec fn kept_props(old: EventV) -> Seq<PropertyV> {
    (match ical::first_named(old.properties, "ORGANIZER"@) {
        Some(p) => seq![p],
        None => Seq::empty(),
    }) + compose::event_rest(old.properties) + compose::sequence_props(compose::edit_ctx(old).sequence)
}

/// A guest is found under no name but its own.
proof fn lemma_guests_named(
    emails: Seq<Seq<char>>,
    partstats: Map<Seq<char>, Seq<char>>,
    name: Seq<char>,
)
    requires
        name != "ATTENDEE"@,
    ensures
        ical::first_named(compose::guests(emails, partstats), name) is None,
{
    lemma_first_named_none(compose::guests(emails, partstats), name);
}

/// Properties that are no guests give none.
proof fn lemma_no_guests(props: Seq<PropertyV>, organizer: Option<Seq<char>>)
    requires
        forall|i: int| 0 <= i < props.len() ==> (#[trigger] props[i]).name != "ATTENDEE"@,
    ensures
        model::ical_guests(props, organizer) == Seq::<AttendeeView>::empty(),
    decreases props.len(),
{
    if props.len() > 0 {
        let front = props.drop_last();
        assert forall|i: int| 0 <= i < front.len() implies (#[trigger] front[i]).name
            != "ATTENDEE"@ by {
            assert(front[i] == props[i]);
        }
        lemma_no_guests(front, organizer);
        assert(props.last() == props[props.len() - 1]);
    }
}

/// The guests of two lists of properties follow each other.
proof fn lemma_guests_add(a: Seq<PropertyV>, b: Seq<PropertyV>, organizer: Option<Seq<char>>)
    ensures
        model::ical_guests(a + b, organizer) == model::ical_guests(a, organizer)
            + model::ical_guests(b, organizer),
    decreases b.len(),
{
    if b.len() == 0 {
        assert(a + b == a);
        assert(model::ical_guests(a, organizer) + model::ical_guests(b, organizer)
            == model::ical_guests(a, organizer));
    } else {
        assert((a + b).drop_last() == a + b.drop_last());
        assert((a + b).last() == b.last());
        lemma_guests_add(a, b.drop_last(), organizer);
        let whole = model::ical_guests(a, organizer);
        let front = model::ical_guests(b.drop_last(), organizer);
        match model::ical_guest(b.last(), organizer) {
            Some(g) => {
                assert((whole + front) + seq![g] == whole + (front + seq![g]));
            },
            None => {},
        }
    }
}

/// A written guest as it is read.
pub open spec fn guest_read(
    email: Seq<char>,
    partstats: Map<Seq<char>, Seq<char>>,
    organizer: Option<Seq<char>>,
) -> AttendeeView {
    AttendeeView {
        email,
        name: None,
        status: ical::response_status(Some(compose::known_partstat(email, partstats))),
        organizer: organizer matches Some(o) && text::same_ignoring_ascii_case(o, email),
        is_self: false,
    }
}

/// Written guests as they are read.
pub open spec fn guests_read(
    emails: Seq<Seq<char>>,
    partstats: Map<Seq<char>, Seq<char>>,
    organizer: Option<Seq<char>>,
) -> Seq<AttendeeView> {
    emails.map_values(|email: Seq<char>| guest_read(email, partstats, organizer))
}

proof fn lemma_guest_read(
    email: Seq<char>,
    partstats: Map<Seq<char>, Seq<char>>,
    organizer: Option<Seq<char>>,
)
    ensures
        model::ical_guest(compose::guest(email, partstats), organizer) == Some(
            guest_read(email, partstats, organizer),
        ),
        ical::param_of(compose::guest(email, partstats), "PARTSTAT"@) == Some(
            compose::known_partstat(email, partstats),
        ),
{
    lemma_names();
    let p = compose::guest(email, partstats);
    let partstat = compose::known_partstat(email, partstats);
    let params = p.params->0;
    assert(params[0] == ("PARTSTAT"@, seq![partstat]));
    assert(ical::first_keyed(params, "PARTSTAT"@) == Some(seq![partstat]));
    assert(ical::first_keyed(params, "CN"@) is None) by {
        let rest = params.drop_first();
        assert(params[0].0 != "CN"@);
        if rest.len() > 0 {
            assert(rest[0].0 == "RSVP"@);
            assert(rest.drop_first() == Seq::<(Seq<char>, Seq<Seq<char>>)>::empty());
            assert(ical::first_keyed(rest.drop_first(), "CN"@) is None);
            assert(ical::first_keyed(rest, "CN"@) is None);
        } else {
            assert(ical::first_keyed(rest, "CN"@) is None);
        }
    }
    let v = "mailto:"@ + email;
    assert("mailto:"@.is_prefix_of(v)) by {
        assert(v.subrange(0, "mailto:"@.len() as int) == "mailto:"@);
    }
    assert(v.skip("mailto:"@.len() as int) == email);
}

proof fn lemma_guests_read(
    emails: Seq<Seq<char>>,
    partstats: Map<Seq<char>, Seq<char>>,
    organizer: Option<Seq<char>>,
)
    ensures
        model::ical_guests(compose::guests(emails, partstats), organizer) == guests_read(
            emails,
            partstats,
            organizer,
        ),
    decreases emails.len(),
{
    let written = compose::guests(emails, partstats);
    if emails.len() > 0 {
        let front = emails.drop_last();
        lemma_guests_read(front, partstats, organizer);
        lemma_guest_read(emails.last(), partstats, organizer);
        assert(written.drop_last() == compose::guests(front, partstats));
        assert(written.last() == compose::guest(emails.last(), partstats));
        assert(guests_read(emails, partstats, organizer) == guests_read(front, partstats, organizer)
            + seq![guest_read(emails.last(), partstats, organizer)]);
    } else {
        assert(written == Seq::<PropertyV>::empty());
        assert(guests_read(emails, partstats, organizer) == Seq::<AttendeeView>::empty());
    }
}

// ---------------------------------------------------------------------
// Lines that survive
// ---------------------------------------------------------------------

/// Whether a text holds no white space.
spec fn solid(s: Seq<char>) -> bool {
    forall|i: int| 0 <= i < s.len() ==> !text::white(#[trigger] s[i])
}

proof fn lemma_solid_pieces(line: Seq<char>, budget: int)
    requires
        solid(line),
        line.len() > 0,
        budget >= 4,
    ensures
        forall|i: int|
            0 <= i < ics::pieces(line, budget).len() ==> !text::white(
                (#[trigger] ics::pieces(line, budget)[i]).last(),
            ),
    decreases line.len(),
{
    text::lemma_fitting(line, budget);
    let k = text::fitting(line, budget) as int;
    if text::octets(line) <= budget || k <= 0 || k > line.len() {
        assert(!text::white(line[line.len() - 1]));
    } else {
        let (a, b) = (line.take(k), line.skip(k));
        assert(k < line.len());
        assert forall|i: int| 0 <= i < b.len() implies !text::white(#[trigger] b[i]) by {
            assert(b[i] == line[i + k]);
        }
        lemma_solid_pieces(b, ics::LINE_OCTETS - 1);
        let rest = ics::pieces(b, ics::LINE_OCTETS - 1);
        let all = seq![a] + rest;
        assert forall|i: int| 0 <= i < all.len() implies !text::white((#[trigger] all[i]).last()) by {
            if i == 0 {
                assert(a.last() == line[k - 1]);
            } else {
                assert(all[i] == rest[i - 1]);
            }
        }
    }
}

/// A value without white space survives.
proof fn lemma_solid_survives(name: Seq<char>, v: Seq<char>)
    requires
        ical::plain_name(name),
        name != "BEGIN"@,
        name != "END"@,
        v.len() > 0,
        v[0] != ':',
        solid(v),
    ensures
        ical::survives(compose::plain(name, v)),
{
    let p = compose::plain(name, v);
    let line = ics::property_line(p);
    assert(line == name + seq![':'] + v);
    assert(solid(line)) by {
        assert forall|i: int| 0 <= i < line.len() implies !text::white(#[trigger] line[i]) by {
            if i < name.len() {
                assert(line[i] == name[i]);
            } else if i > name.len() {
                assert(line[i] == v[i - name.len() - 1]);
            }
        }
    }
    assert(!v.contains('\n')) by {
        assert forall|i: int| 0 <= i < v.len() implies v[i] != '\n' by {
            assert(!text::white(v[i]));
        }
    }
    lemma_solid_pieces(line, ics::LINE_OCTETS as int);
}

/// A stamp survives.
proof fn lemma_stamp_survives(name: Seq<char>, t: Instant)
    requires
        ical::plain_name(name),
        name != "BEGIN"@,
        name != "END"@,
        time::compact(time::stamp_text(t.secs, t.nanos)),
    ensures
        ical::survives(compose::plain(name, compose::utc_stamp(t))),
{
    let stamp = time::stamp_text(t.secs, t.nanos);
    let v = compose::utc_stamp(t);
    assert(v[0] == stamp[0]);
    assert forall|i: int| 0 <= i < v.len() implies !text::white(#[trigger] v[i]) by {
        if i < stamp.len() {
            assert(v[i] == stamp[i]);
        }
    }
    lemma_solid_survives(name, v);
}

/// A day survives.
proof fn lemma_day_survives(name: Seq<char>, day: Date)
    requires
        ical::plain_name(name),
        name != "BEGIN"@,
        name != "END"@,
        time::compact(time::date_text(day.days, "%Y%m%d"@)),
    ensures
        ical::survives(compose::dated(name, day)),
{
    reveal_strlit("VALUE");
    reveal_strlit("DATE");
    let p = compose::dated(name, day);
    let v = time::date_text(day.days, "%Y%m%d"@);
    let param = ("VALUE"@, seq!["DATE"@]);
    let line = ics::property_line(p);
    assert(p.params->0 == seq![param]);
    assert(p.params->0.map_values(|x: (Seq<char>, Seq<Seq<char>>)| ics::param_text(x)) == seq![
        ics::param_text(param),
    ]);
    text::lemma_flat_one(ics::param_text(param));
    assert(ics::params_text(p.params) == ics::param_text(param));
    assert(!ics::needs_quotes("DATE"@)) by {
        assert("DATE"@ == seq!['D', 'A', 'T', 'E']);
    }
    assert(param.1.map_values(|x: Seq<char>| ics::param_value_text(x)) == seq!["DATE"@]);
    assert(text::joined(seq!["DATE"@], seq![',']) == "DATE"@);
    let middle = seq![';'] + "VALUE"@ + seq!['='] + "DATE"@;
    assert(line == name + middle + seq![':'] + v);
    assert(solid(line)) by {
        assert forall|i: int| 0 <= i < line.len() implies !text::white(#[trigger] line[i]) by {
            if i < name.len() {
                assert(line[i] == name[i]);
            } else if i < name.len() + middle.len() {
                assert(line[i] == middle[i - name.len()]);
            } else if i > name.len() + middle.len() {
                assert(line[i] == v[i - name.len() - middle.len() - 1]);
            }
        }
    }
    assert(!v.contains('\n')) by {
        assert forall|i: int| 0 <= i < v.len() implies v[i] != '\n' by {}
    }
    assert(ical::plain_param_value("DATE"@));
    assert(ical::plain_param(param));
    assert forall|i: int| 0 <= i < p.params->0.len() implies ical::plain_param(
        #[trigger] p.params->0[i],
    ) by {}
    lemma_solid_pieces(line, ics::LINE_OCTETS as int);
}

/// Whether the texts of an event draft survive as they are written.
pub open spec fn event_texts_survive(d: EventDraftView, ctx: EventCtxView) -> bool {
    &&& ical::survives(compose::plain("UID"@, ctx.uid))
    &&& ical::survives(compose::plain("SUMMARY"@, ics::escaped(d.summary)))
    &&& ical::all_survive(compose::optional_text("LOCATION"@, d.location))
    &&& ical::all_survive(compose::optional_text("DESCRIPTION"@, d.description))
    &&& ical::all_survive(compose::guests(d.attendees, ctx.existing_partstat))
}

/// Whether the years of an event draft and of its stamp have four digits.
pub open spec fn event_years(d: EventDraftView, now: Instant) -> bool {
    &&& time::four_digit_instant(now.secs as int)
    &&& d.all_day ==> time::four_digit_day(d.start_date.days as int) && time::four_digit_day(
        d.end_date.days + 1,
    )
    &&& !d.all_day ==> time::four_digit_instant(d.start_time->0.secs as int)
        && time::four_digit_instant(d.end_time->0.secs as int)
}

proof fn lemma_all_survive_add(a: Seq<PropertyV>, b: Seq<PropertyV>)
    requires
        ical::all_survive(a),
        ical::all_survive(b),
    ensures
        ical::all_survive(a + b),
{
    assert forall|i: int| 0 <= i < (a + b).len() implies ical::survives(#[trigger] (a + b)[i]) by {
        if i < a.len() {
            assert((a + b)[i] == a[i]);
        } else {
            assert((a + b)[i] == b[i - a.len()]);
        }
    }
}

proof fn lemma_plain_names()
    ensures
        ical::plain_name("DTSTAMP"@),
        ical::plain_name("DTSTART"@),
        ical::plain_name("DTEND"@),
        ical::plain_name("DUE"@),
        ical::plain_name("COMPLETED"@),
        ical::plain_name("STATUS"@),
        ical::plain_name("SEQUENCE"@),
        ical::plain_name("PERCENT-COMPLETE"@),
{
    reveal_strlit("SEQUENCE");
    reveal_strlit("PERCENT-COMPLETE");
    reveal_strlit("DTSTAMP");
    reveal_strlit("DTSTART");
    reveal_strlit("DTEND");
    reveal_strlit("DUE");
    reveal_strlit("COMPLETED");
    reveal_strlit("STATUS");
}

proof fn lemma_event_props_survive(d: EventDraftView, ctx: EventCtxView, now: Instant)
    requires
        d.ready(),
        compose::event_dates_compact(d, now),
        event_years(d, now),
        event_texts_survive(d, ctx),
    ensures
        ical::all_survive(compose::event_props(d, ctx, now)),
{
    lemma_names();
    lemma_plain_names();
    let uid = compose::plain("UID"@, ctx.uid);
    let stamp = compose::plain("DTSTAMP"@, compose::utc_stamp(now));
    lemma_stamp_survives("DTSTAMP"@, now);
    let a = seq![uid, stamp];
    assert(ical::all_survive(a));
    let b = compose::span(d);
    if d.all_day {
        lemma_day_survives("DTSTART"@, d.start_date);
        lemma_day_survives("DTEND"@, compose::exclusive_end(d));
    } else {
        lemma_stamp_survives("DTSTART"@, d.start_time->0.at());
        lemma_stamp_survives("DTEND"@, d.end_time->0.at());
    }
    assert(ical::all_survive(b));
    let c = seq![compose::plain("SUMMARY"@, ics::escaped(d.summary))];
    assert(ical::all_survive(c));
    let l = compose::optional_text("LOCATION"@, d.location);
    let e = compose::optional_text("DESCRIPTION"@, d.description);
    let g = compose::guests(d.attendees, ctx.existing_partstat);
    lemma_all_survive_add(a, b);
    lemma_all_survive_add(a + b, c);
    lemma_all_survive_add(a + b + c, l);
    lemma_all_survive_add(a + b + c + l, e);
    lemma_all_survive_add(a + b + c + l + e, g);
}

// ---------------------------------------------------------------------
// Events
// ---------------------------------------------------------------------

/// The event that a new event's calendar object holds.
pub open spec fn created(d: EventDraftView, uid: Seq<char>, now: Instant) -> EventV {
    EventV {
        properties: compose::event_props(d, compose::create_ctx(uid), now),
        alarms: Seq::empty(),
    }
}

/// A new event is read back property for property: whoever parses its calendar
/// object finds the event that was written.
pub proof fn law_new_event_is_read_back(
    d: EventDraftView,
    uid: Seq<char>,
    now: Instant,
    reading: Option<CalendarV>,
)
    requires
        d.ready(),
        compose::event_dates_compact(d, now),
        event_years(d, now),
        event_texts_survive(d, compose::create_ctx(uid)),
        ical::events_read_back(compose::vevent_text(d, compose::create_ctx(uid), now), reading),
    ensures
        ical::first_event(reading) == Some(created(d, uid, now)),
{
    let ctx = compose::create_ctx(uid);
    let props = compose::event_props(d, ctx, now);
    let none = Seq::<Seq<PropertyV>>::empty();
    lemma_event_props_survive(d, ctx, now);
    assert(compose::sequence_props(None) == Seq::<PropertyV>::empty());
    assert(ics::lines_text(compose::sequence_props(None)) == Seq::<char>::empty());
    assert(ics::alarms_text(none) == Seq::<char>::empty());
    assert(compose::vevent_text(d, ctx, now) == ics::event_text(props, none));
}

/// The properties of a written event under the names that are read from it.
proof fn lemma_written_event(
    d: EventDraftView,
    ctx: EventCtxView,
    now: Instant,
    kept: Seq<PropertyV>,
    name: Seq<char>,
)
    requires
        name != "ATTENDEE"@,
    ensures
        ical::first_named(compose::event_props(d, ctx, now) + kept, name)
            == match ical::first_named(event_front(d, ctx, now), name) {
            Some(p) => Some(p),
            None => ical::first_named(kept, name),
        },
{
    let front = event_front(d, ctx, now);
    let g = compose::guests(d.attendees, ctx.existing_partstat);
    assert(compose::event_props(d, ctx, now) == front + g);
    lemma_guests_named(d.attendees, ctx.existing_partstat, name);
    lemma_first_named_add(front, g, name);
    lemma_first_named_add(front + g, kept, name);
}

/// The guests of a written event.
proof fn lemma_written_guests(
    d: EventDraftView,
    ctx: EventCtxView,
    now: Instant,
    kept: Seq<PropertyV>,
    organizer: Option<Seq<char>>,
)
    requires
        forall|i: int| 0 <= i < kept.len() ==> (#[trigger] kept[i]).name != "ATTENDEE"@,
    ensures
        model::ical_guests(compose::event_props(d, ctx, now) + kept, organizer) == guests_read(
            d.attendees,
            ctx.existing_partstat,
            organizer,
        ),
{
    lemma_names();
    let front = event_front(d, ctx, now);
    let g = compose::guests(d.attendees, ctx.existing_partstat);
    assert(compose::event_props(d, ctx, now) == front + g);
    lemma_guests_add(front, g, organizer);
    lemma_guests_add(front + g, kept, organizer);
    lemma_guests_read(d.attendees, ctx.existing_partstat, organizer);
    assert forall|i: int| 0 <= i < front.len() implies (#[trigger] front[i]).name
        != "ATTENDEE"@ by {
        let b = compose::span(d);
        let l = compose::optional_text("LOCATION"@, d.location);
        assert(b.len() == 2);
        if i == 0 {
        } else if i == 1 {
        } else if i < 4 {
            assert(front[i] == b[i - 2]);
        } else if i == 4 {
        } else if i < 5 + l.len() {
            assert(front[i] == l[i - 5]);
        } else {
            assert(front[i] == compose::optional_text("DESCRIPTION"@, d.description)[i - 5
                - l.len()]);
        }
    }
    lemma_no_guests(front, organizer);
    lemma_no_guests(kept, organizer);
    let r = guests_read(d.attendees, ctx.existing_partstat, organizer);
    let e = Seq::<AttendeeView>::empty();
    assert(e + r + e == r);
}

/// Whether a read event has the texts and the time of a draft: the summary as it
/// is, location and description trimmed, the same days, or the same points in
/// time to the second.
pub open spec fn shows_draft(d: EventDraftView, e: EventView) -> bool {
    &&& e.summary == d.summary
    &&& e.location == text::non_blank(d.location)
    &&& e.description == text::non_blank(d.description)
    &&& e.all_day == d.all_day
    &&& d.all_day ==> e.start_date == d.start_date && e.end_date == d.end_date.latest(d.start_date)
        && e.start_time is None && e.end_time is None
    &&& !d.all_day ==> {
        &&& e.start_time matches Some(m) && m.secs == d.start_time->0.secs && m.nanos == 0
            && e.start_date == m.local_date()
        &&& e.end_time matches Some(m) && m.secs == d.end_time->0.secs && m.nanos == 0
            && e.end_date == m.local_date()
    }
}

/// Whether no time of a draft lies within a leap second.
pub open spec fn no_leap(d: EventDraftView) -> bool {
    !d.all_day ==> d.start_time->0.nanos < 1_000_000_000 && d.end_time->0.nanos < 1_000_000_000
}

proof fn lemma_day_meaning(name: Seq<char>, day: Date)
    requires
        time::four_digit_day(day.days as int),
        ical::read_faithfully(compose::dated(name, day)),
    ensures
        ical::moment_meaning(compose::dated(name, day)) == When::Day(day),
{
    let p = compose::dated(name, day);
    assert(p.params->0[0] == ("VALUE"@, seq!["DATE"@]));
    assert(ical::first_keyed(p.params->0, "VALUE"@) == Some(seq!["DATE"@]));
    assert(ical::param_of(p, "VALUE"@) == Some("DATE"@));
    assert(time::date_of(time::parsed_date(p.value->0, "%Y%m%d"@)) == Some(day));
}

proof fn lemma_stamp_meaning(name: Seq<char>, t: Instant)
    requires
        time::four_digit_instant(t.secs as int),
        t.nanos < 1_000_000_000,
        ical::read_faithfully(compose::plain(name, compose::utc_stamp(t))),
    ensures
        ical::moment_meaning(compose::plain(name, compose::utc_stamp(t))) == When::At(
            (Instant { secs: t.secs, nanos: 0 }),
        ),
{
    let p = compose::plain(name, compose::utc_stamp(t));
    let v = compose::utc_stamp(t);
    assert(v.drop_last() == time::stamp_text(t.secs, t.nanos));
    assert(!text::is_digit('Z'));
    assert(!ical::eight_digits(v)) by {
        if ical::eight_digits(v) {
            assert(text::is_digit(v[v.len() - 1]));
        }
    }
    assert(ical::utc_form(p));
}

/// What a written event, with what it keeps, is read as.
#[verifier::rlimit(40)]
proof fn lemma_event_shows_draft(
    d: EventDraftView,
    ctx: EventCtxView,
    now: Instant,
    ev: EventV,
    kept: Seq<PropertyV>,
    start: Option<Moment>,
    end: Option<Moment>,
    account: Seq<char>,
    calendar_id: Seq<char>,
    calendar_name: Seq<char>,
    href: Seq<char>,
)
    requires
        d.ready(),
        no_leap(d),
        event_years(d, now),
        ev.properties == compose::event_props(d, ctx, now) + kept,
        model::faithful_at(ev.properties, "DTSTART"@),
        model::faithful_at(ev.properties, "DTEND"@),
        ical::first_named(kept, "LOCATION"@) is None,
        ical::first_named(kept, "DESCRIPTION"@) is None,
        ical::local_answer(model::moment_at(ev.properties, "DTSTART"@), start),
        ical::local_answer(model::moment_at(ev.properties, "DTEND"@), end),
    ensures
        ({
            let s = ical::placed(model::moment_at(ev.properties, "DTSTART"@), start);
            let e = ical::placed(model::moment_at(ev.properties, "DTEND"@), end);
            let r = model::event_from_ical(
                account,
                calendar_id,
                calendar_name,
                href,
                ev,
                s,
                model::ical_end(ev.properties, s, e),
            );
            r is Some && shows_draft(d, r->0)
        }),
{
    lemma_names();
    let props = ev.properties;
    lemma_written_event(d, ctx, now, kept, "DTSTART"@);
    lemma_event_front(d, ctx, now, "DTSTART"@);
    lemma_written_event(d, ctx, now, kept, "DTEND"@);
    lemma_event_front(d, ctx, now, "DTEND"@);
    lemma_written_event(d, ctx, now, kept, "SUMMARY"@);
    lemma_event_front(d, ctx, now, "SUMMARY"@);
    lemma_written_event(d, ctx, now, kept, "LOCATION"@);
    lemma_event_front(d, ctx, now, "LOCATION"@);
    lemma_written_event(d, ctx, now, kept, "DESCRIPTION"@);
    lemma_event_front(d, ctx, now, "DESCRIPTION"@);
    ics::law_unescape_undoes_escape(d.summary);
    ics::law_unescape_undoes_escape(d.location);
    ics::law_unescape_undoes_escape(d.description);
    assert(d.location.len() == 0 ==> text::non_blank(d.location) is None);
    assert(d.description.len() == 0 ==> text::non_blank(d.description) is None);
    let b = compose::span(d);
    if d.all_day {
        lemma_day_meaning("DTSTART"@, d.start_date);
        lemma_day_meaning("DTEND"@, compose::exclusive_end(d));
    } else {
        lemma_stamp_meaning("DTSTART"@, d.start_time->0.at());
        lemma_stamp_meaning("DTEND"@, d.end_time->0.at());
    }
}

proof fn lemma_guests_that_plain(guests: Seq<AttendeeView>, organizer: bool, is_self: bool)
    requires
        forall|i: int|
            0 <= i < guests.len() ==> !(#[trigger] guests[i]).organizer && !guests[i].is_self,
    ensures
        model::guests_that(guests, organizer, is_self) == if !organizer && !is_self {
            guests
        } else {
            Seq::<AttendeeView>::empty()
        },
    decreases guests.len(),
{
    reveal(Seq::filter);
    if guests.len() > 0 {
        let front = guests.drop_last();
        let g = guests[guests.len() - 1];
        assert forall|i: int| 0 <= i < front.len() implies !(#[trigger] front[i]).organizer
            && !front[i].is_self by {
            assert(front[i] == guests[i]);
        }
        lemma_guests_that_plain(front, organizer, is_self);
        assert(guests == front.push(g));
        model::lemma_guests_push(front, g, organizer, is_self);
    }
}

/// Guests of whom none is an organizer or the account itself keep their order.
pub proof fn lemma_ranked_plain(guests: Seq<AttendeeView>)
    requires
        forall|i: int|
            0 <= i < guests.len() ==> !(#[trigger] guests[i]).organizer && !guests[i].is_self,
    ensures
        model::ranked(guests) == guests,
{
    lemma_guests_that_plain(guests, true, true);
    lemma_guests_that_plain(guests, true, false);
    lemma_guests_that_plain(guests, false, true);
    lemma_guests_that_plain(guests, false, false);
    let e = Seq::<AttendeeView>::empty();
    assert(e + e + e + guests == guests);
}

/// The guests of a new event as they are read.
proof fn lemma_created_guests(d: EventDraftView, uid: Seq<char>, now: Instant)
    ensures
        model::ranked(
            model::ical_guests(
                created(d, uid, now).properties,
                model::organizer_of(created(d, uid, now).properties),
            ),
        ) == guests_read(d.attendees, Map::empty(), None),
{
    let ctx = compose::create_ctx(uid);
    let written = compose::event_props(d, ctx, now);
    let kept = Seq::<PropertyV>::empty();
    assert(written + kept == written);
    assert(model::organizer_of(written) is None) by {
        lemma_names();
        lemma_written_event(d, ctx, now, kept, "ORGANIZER"@);
        lemma_event_front(d, ctx, now, "ORGANIZER"@);
    }
    let none: Option<Seq<char>> = None;
    let read = guests_read(d.attendees, ctx.existing_partstat, none);
    assert(model::ical_guests(written, none) == read) by {
        lemma_written_guests(d, ctx, now, kept, none);
    }
    assert(model::ranked(read) == read) by {
        lemma_ranked_plain(read);
    }
    assert(ctx.existing_partstat == Map::<Seq<char>, Seq<char>>::empty());
}

/// A new event comes back as its draft: same summary, location and description
/// trimmed, same time, and the same guests in the same order, each still to
/// answer. `r` is what `Event::from_ical` makes of the event that was written.
pub proof fn law_new_event_shows_its_draft(
    d: EventDraftView,
    uid: Seq<char>,
    now: Instant,
    account: Seq<char>,
    calendar_id: Seq<char>,
    calendar_name: Seq<char>,
    href: Seq<char>,
    r: Option<EventView>,
)
    requires
        d.ready(),
        no_leap(d),
        event_years(d, now),
        model::faithful_at(created(d, uid, now).properties, "DTSTART"@),
        model::faithful_at(created(d, uid, now).properties, "DTEND"@),
        model::ical_event_read(
            account,
            calendar_id,
            calendar_name,
            href,
            created(d, uid, now),
            r,
        ),
    ensures
        r matches Some(e) && shows_draft(d, e) && e.id == href && e.reminder_overrides is None
            && e.attendees == guests_read(d.attendees, Map::empty(), None),
{
    let ctx = compose::create_ctx(uid);
    let ev = created(d, uid, now);
    let kept = Seq::<PropertyV>::empty();
    assert(ev.properties == compose::event_props(d, ctx, now) + kept);
    let (start, end) = choose|start: Option<Moment>, end: Option<Moment>| #[trigger]
        ical::local_answer(model::moment_at(ev.properties, "DTSTART"@), start)
            && #[trigger] ical::local_answer(model::moment_at(ev.properties, "DTEND"@), end) && r
            == model::event_from_ical(
            account,
            calendar_id,
            calendar_name,
            href,
            ev,
            ical::placed(model::moment_at(ev.properties, "DTSTART"@), start),
            model::ical_end(
                ev.properties,
                ical::placed(model::moment_at(ev.properties, "DTSTART"@), start),
                ical::placed(model::moment_at(ev.properties, "DTEND"@), end),
            ),
        );
    lemma_event_shows_draft(
        d,
        ctx,
        now,
        ev,
        kept,
        start,
        end,
        account,
        calendar_id,
        calendar_name,
        href,
    );
    lemma_created_guests(d, uid, now);
    assert(model::alarm_mins(ev.alarms).len() == 0);
}

/// Writing a new event and reading it gives its draft back: the text parses, and
/// what `Event::from_ical` makes of its first event shows the draft. `reading`
/// is what the parser makes of the text, `r` what is made of the first event in
/// it.
pub proof fn law_new_event_round_trips(
    d: EventDraftView,
    uid: Seq<char>,
    now: Instant,
    reading: Option<CalendarV>,
    account: Seq<char>,
    calendar_id: Seq<char>,
    calendar_name: Seq<char>,
    href: Seq<char>,
    r: Option<EventView>,
)
    requires
        d.ready(),
        no_leap(d),
        compose::event_dates_compact(d, now),
        event_years(d, now),
        event_texts_survive(d, compose::create_ctx(uid)),
        ical::events_read_back(compose::vevent_text(d, compose::create_ctx(uid), now), reading),
        ical::first_event(reading) matches Some(ev) ==> {
            &&& model::faithful_at(ev.properties, "DTSTART"@)
            &&& model::faithful_at(ev.properties, "DTEND"@)
            &&& model::ical_event_read(account, calendar_id, calendar_name, href, ev, r)
        },
    ensures
        ical::first_event(reading) is Some,
        r matches Some(e) && shows_draft(d, e) && e.id == href && e.reminder_overrides is None
            && e.attendees == guests_read(d.attendees, Map::empty(), None),
{
    law_new_event_is_read_back(d, uid, now, reading);
    law_new_event_shows_its_draft(
        d,
        uid,
        now,
        account,
        calendar_id,
        calendar_name,
        href,
        r,
    );
}

/// The property that is found under a name has that name.
proof fn lemma_first_named_name(props: Seq<PropertyV>, name: Seq<char>)
    ensures
        ical::first_named(props, name) matches Some(p) ==> p.name == name,
    decreases props.len(),
{
    if props.len() > 0 {
        lemma_first_named_name(props.drop_first(), name);
    }
}

/// A numeral is made of digits, and its digits stand for the number.
pub proof fn lemma_numeral(n: nat)
    ensures
        text::numeral(n).len() > 0,
        text::all_digits(text::numeral(n)),
        text::digits_value(text::numeral(n)) == n,
    decreases n,
{
    let s = text::numeral(n);
    if n < 10 {
        assert(s.drop_last() == Seq::<char>::empty());
        assert(text::digits_value(s.drop_last()) == 0);
        assert(s.last() as int == n + 48);
    } else {
        lemma_numeral(n / 10);
        assert(s.drop_last() == text::numeral(n / 10));
        assert(s.last() as int == (n % 10) + 48);
        assert forall|i: int| 0 <= i < s.len() implies text::is_digit(#[trigger] s[i]) by {
            if i < s.len() - 1 {
                assert(s[i] == text::numeral(n / 10)[i]);
            }
        }
    }
}

/// The event that an edited event's calendar object holds.
pub open spec fn edited(d: EventDraftView, old: EventV, now: Instant) -> EventV {
    EventV {
        properties: compose::event_props(d, compose::edit_ctx(old), now) + kept_props(old),
        alarms: old.alarms,
    }
}

proof fn lemma_kept(old: EventV, name: Seq<char>)
    ensures
        ical::first_named(kept_props(old), name) == if name == "ORGANIZER"@ {
            ical::first_named(old.properties, "ORGANIZER"@)
        } else if name == "SEQUENCE"@ {
            Some(compose::sequence_props(compose::edit_ctx(old).sequence)[0])
        } else if compose::event_says(name) {
            None
        } else {
            ical::first_named(old.properties, name)
        },
        forall|i: int|
            0 <= i < kept_props(old).len() ==> (#[trigger] kept_props(old)[i]).name != "ATTENDEE"@,
{
    lemma_names();
    lemma_first_named_name(old.properties, "ORGANIZER"@);
    let org = ical::first_named(old.properties, "ORGANIZER"@);
    let a = match org {
        Some(p) => seq![p],
        None => Seq::<PropertyV>::empty(),
    };
    let f = |p: PropertyV| !compose::event_says(p.name);
    let k = compose::event_rest(old.properties);
    let b = compose::sequence_props(compose::edit_ctx(old).sequence);
    lemma_first_named_add(a, k, name);
    lemma_first_named_add(a + k, b, name);
    assert(b == seq![b[0]]);
    lemma_first_named_one(b[0], name);
    if org is Some {
        lemma_first_named_one(org->0, name);
    } else {
        lemma_first_named_none(a, name);
    }
    if compose::event_says(name) {
        lemma_filter_none(old.properties, f, name);
    } else {
        lemma_filter_first(old.properties, f, name);
    }
    lemma_filter_none(old.properties, f, "ATTENDEE"@);
    let all = kept_props(old);
    assert(all == a + k + b);
    assert forall|i: int| 0 <= i < all.len() implies (#[trigger] all[i]).name != "ATTENDEE"@ by {
        if i < a.len() {
            assert(all[i] == a[i]);
        } else if i < a.len() + k.len() {
            assert(all[i] == k[i - a.len()]);
        } else {
            assert(all[i] == b[i - a.len() - k.len()]);
        }
    }
}

/// An edited event is read back property for property, with the organizer, the
/// alarms and all else of the event before, wherever these survive.
pub proof fn law_edited_event_is_read_back(
    d: EventDraftView,
    old: EventV,
    now: Instant,
    reading: Option<CalendarV>,
)
    requires
        d.ready(),
        compose::event_dates_compact(d, now),
        event_years(d, now),
        event_texts_survive(d, compose::edit_ctx(old)),
        ical::first_named(old.properties, "ORGANIZER"@) matches Some(p) ==> ical::survives(p),
        ical::all_survive(compose::event_rest(old.properties)),
        forall|i: int| 0 <= i < old.alarms.len() ==> ical::all_survive(#[trigger] old.alarms[i]),
        ical::events_read_back(compose::vevent_text(d, compose::edit_ctx(old), now), reading),
    ensures
        ical::first_event(reading) == Some(edited(d, old, now)),
{
    let ctx = compose::edit_ctx(old);
    let props = compose::event_props(d, ctx, now);
    let org = ical::first_named(old.properties, "ORGANIZER"@);
    let a = match org {
        Some(p) => seq![p],
        None => Seq::<PropertyV>::empty(),
    };
    let n = ctx.sequence->0 as nat;
    let k = compose::event_rest(old.properties);
    let b = compose::sequence_props(ctx.sequence);
    assert(kept_props(old) == a + k + b);
    lemma_event_props_survive(d, ctx, now);
    assert(ical::all_survive(b)) by {
        lemma_names();
        lemma_plain_names();
        lemma_numeral(n);
        let v = text::numeral(n);
        assert forall|i: int| 0 <= i < v.len() implies !text::white(#[trigger] v[i]) by {
            assert(text::is_digit(v[i]));
        }
        assert(text::is_digit(v[0]));
        lemma_solid_survives("SEQUENCE"@, v);
    }
    assert(ical::all_survive(a));
    lemma_all_survive_add(a, k);
    lemma_all_survive_add(a + k, b);
    lemma_all_survive_add(props, a + k + b);
    let line = match org {
        Some(p) => ics::folded(ics::property_line(p)),
        None => Seq::<char>::empty(),
    };
    assert(ics::lines_text(a) == line) by {
        let e = Seq::<PropertyV>::empty();
        assert(ics::lines_text(e) == Seq::<char>::empty());
        if org is Some {
            compose::lemma_lines_push(e, org->0);
            assert(e.push(org->0) == a);
            assert(Seq::<char>::empty() + line == line);
        }
    }
    compose::lemma_lines_add(a, k);
    compose::lemma_lines_add(a + k, b);
    compose::lemma_lines_add(props, a + k + b);
    let (h, l, r, s, m, t) = (
        ics::event_head(),
        ics::lines_text(props),
        ics::lines_text(k),
        ics::lines_text(b),
        ics::alarms_text(old.alarms),
        ics::event_tail(),
    );
    assert(h + l + line + r + s + m + t == h + (l + (line + r + s)) + m + t);
    assert(compose::vevent_text(d, ctx, now) == ics::event_text(props + (a + k + b), old.alarms));
}

/// Everything that a written event says before what it keeps, a draft says.
proof fn lemma_event_props_said(d: EventDraftView, ctx: EventCtxView, now: Instant)
    ensures
        compose::event_rest(compose::event_props(d, ctx, now)) == Seq::<PropertyV>::empty(),
{
    let props = compose::event_props(d, ctx, now);
    let f = |p: PropertyV| !compose::event_says(p.name);
    let b = compose::span(d);
    let l = compose::optional_text("LOCATION"@, d.location);
    let e = compose::optional_text("DESCRIPTION"@, d.description);
    let g = compose::guests(d.attendees, ctx.existing_partstat);
    assert(b.len() == 2);
    assert forall|i: int| 0 <= i < props.len() implies !f(#[trigger] props[i]) by {
        if i == 0 {
        } else if i == 1 {
        } else if i < 4 {
            assert(props[i] == b[i - 2]);
        } else if i == 4 {
        } else if i < 5 + l.len() {
            assert(props[i] == l[i - 5]);
        } else if i < 5 + l.len() + e.len() {
            assert(props[i] == e[i - 5 - l.len()]);
        } else {
            assert(props[i] == g[i - 5 - l.len() - e.len()]);
        }
    }
    lemma_filter_all(props, f);
}

/// An edited event has the properties that the draft does not say, in their order.
proof fn lemma_edited_rest(d: EventDraftView, old: EventV, now: Instant)
    ensures
        compose::event_rest(edited(d, old, now).properties) == compose::event_rest(old.properties),
{
    let ctx = compose::edit_ctx(old);
    let kept = kept_props(old);
    let written = compose::event_props(d, ctx, now);
    let f = |p: PropertyV| !compose::event_says(p.name);
    let org = match ical::first_named(old.properties, "ORGANIZER"@) {
        Some(p) => seq![p],
        None => Seq::<PropertyV>::empty(),
    };
    let rest = compose::event_rest(old.properties);
    let last = compose::sequence_props(ctx.sequence);
    lemma_first_named_name(old.properties, "ORGANIZER"@);
    lemma_event_props_said(d, ctx, now);
    lemma_filter_add(written, kept, f);
    lemma_filter_add(org + rest, last, f);
    lemma_filter_add(org, rest, f);
    lemma_filter_all(org, f);
    lemma_filter_all(last, f);
    lemma_filter_all(old.properties, f);
    lemma_filter_all(rest, f);
    let e = Seq::<PropertyV>::empty();
    assert(e + (e + rest + e) == rest);
}

/// The first property of a name that the draft does not say is the one it was.
proof fn lemma_edited_named(d: EventDraftView, old: EventV, now: Instant, name: Seq<char>)
    requires
        !compose::event_says(name),
    ensures
        ical::first_named(edited(d, old, now).properties, name) == ical::first_named(
            old.properties,
            name,
        ),
{
    let ctx = compose::edit_ctx(old);
    lemma_written_event(d, ctx, now, kept_props(old), name);
    lemma_event_front(d, ctx, now, name);
    lemma_kept(old, name);
}

/// UID, organizer and sequence number of an edited event.
proof fn lemma_edited_fields(d: EventDraftView, old: EventV, now: Instant)
    requires
        compose::sequence_of(old.properties) < u32::MAX,
    ensures
        ical::value_of(old.properties, "UID"@) matches Some(uid) ==> ical::value_of(
            edited(d, old, now).properties,
            "UID"@,
        ) == Some(uid),
        ical::first_named(edited(d, old, now).properties, "ORGANIZER"@) == ical::first_named(
            old.properties,
            "ORGANIZER"@,
        ),
        compose::sequence_of(edited(d, old, now).properties) == compose::sequence_of(old.properties)
            + 1,
{
    lemma_names();
    let ctx = compose::edit_ctx(old);
    let kept = kept_props(old);
    lemma_written_event(d, ctx, now, kept, "UID"@);
    lemma_event_front(d, ctx, now, "UID"@);
    lemma_written_event(d, ctx, now, kept, "ORGANIZER"@);
    lemma_event_front(d, ctx, now, "ORGANIZER"@);
    lemma_kept(old, "ORGANIZER"@);
    lemma_written_event(d, ctx, now, kept, "SEQUENCE"@);
    lemma_event_front(d, ctx, now, "SEQUENCE"@);
    lemma_kept(old, "SEQUENCE"@);
    let n = (compose::sequence_of(old.properties) + 1) as nat;
    lemma_numeral(n);
    assert(text::is_digit(text::numeral(n)[0]));
}

/// An edit keeps the UID, the organizer, the alarms and the participation of the
/// guests that stay, and counts the sequence number up by one. Every property that
/// the draft does not say is kept as it is, and in its order: a recurrence rule,
/// for one.
pub proof fn law_edit_keeps_what_the_draft_does_not_say(
    d: EventDraftView,
    old: EventV,
    now: Instant,
)
    requires
        compose::sequence_of(old.properties) < u32::MAX,
    ensures
        ical::value_of(old.properties, "UID"@) matches Some(uid) ==> ical::value_of(
            edited(d, old, now).properties,
            "UID"@,
        ) == Some(uid),
        ical::first_named(edited(d, old, now).properties, "ORGANIZER"@) == ical::first_named(
            old.properties,
            "ORGANIZER"@,
        ),
        edited(d, old, now).alarms == old.alarms,
        compose::event_rest(edited(d, old, now).properties) == compose::event_rest(old.properties),
        forall|name: Seq<char>|
            !compose::event_says(name) ==> #[trigger] ical::first_named(
                edited(d, old, now).properties,
                name,
            ) == ical::first_named(old.properties, name),
        compose::sequence_of(edited(d, old, now).properties) == compose::sequence_of(old.properties)
            + 1,
        forall|i: int|
            0 <= i < d.attendees.len() ==> ical::param_of(
                #[trigger] compose::guests(d.attendees, compose::partstats_of(old.properties))[i],
                "PARTSTAT"@,
            ) == Some(
                compose::known_partstat(d.attendees[i], compose::partstats_of(old.properties)),
            ),
{
    lemma_edited_fields(d, old, now);
    lemma_edited_rest(d, old, now);
    assert forall|name: Seq<char>| !compose::event_says(name) implies #[trigger] ical::first_named(
        edited(d, old, now).properties,
        name,
    ) == ical::first_named(old.properties, name) by {
        lemma_edited_named(d, old, now, name);
    }
    let stats = compose::partstats_of(old.properties);
    assert forall|i: int| 0 <= i < d.attendees.len() implies ical::param_of(
        #[trigger] compose::guests(d.attendees, stats)[i],
        "PARTSTAT"@,
    ) == Some(compose::known_partstat(d.attendees[i], stats)) by {
        lemma_guest_read(d.attendees[i], stats, None);
    }
}

/// An edited event comes back as its draft, with its guests' answers kept and
/// the organizer in front.
#[verifier::rlimit(40)]
pub proof fn law_edited_event_shows_its_draft(
    d: EventDraftView,
    old: EventV,
    now: Instant,
    account: Seq<char>,
    calendar_id: Seq<char>,
    calendar_name: Seq<char>,
    href: Seq<char>,
    r: Option<EventView>,
)
    requires
        d.ready(),
        no_leap(d),
        event_years(d, now),
        model::faithful_at(edited(d, old, now).properties, "DTSTART"@),
        model::faithful_at(edited(d, old, now).properties, "DTEND"@),
        model::ical_event_read(
            account,
            calendar_id,
            calendar_name,
            href,
            edited(d, old, now),
            r,
        ),
    ensures
        r matches Some(e) && shows_draft(d, e) && e.attendees == model::ranked(
            guests_read(
                d.attendees,
                compose::partstats_of(old.properties),
                model::organizer_of(old.properties),
            ),
        ),
{
    let ctx = compose::edit_ctx(old);
    let kept = kept_props(old);
    let ev = edited(d, old, now);
    let (start, end) = choose|start: Option<Moment>, end: Option<Moment>| #[trigger]
        ical::local_answer(model::moment_at(ev.properties, "DTSTART"@), start)
            && #[trigger] ical::local_answer(model::moment_at(ev.properties, "DTEND"@), end) && r
            == model::event_from_ical(
            account,
            calendar_id,
            calendar_name,
            href,
            ev,
            ical::placed(model::moment_at(ev.properties, "DTSTART"@), start),
            model::ical_end(
                ev.properties,
                ical::placed(model::moment_at(ev.properties, "DTSTART"@), start),
                ical::placed(model::moment_at(ev.properties, "DTEND"@), end),
            ),
        );
    assert(ical::first_named(kept, "LOCATION"@) is None) by {
        lemma_names();
        lemma_kept(old, "LOCATION"@);
    }
    assert(ical::first_named(kept, "DESCRIPTION"@) is None) by {
        lemma_names();
        lemma_kept(old, "DESCRIPTION"@);
    }
    lemma_event_shows_draft(
        d,
        ctx,
        now,
        ev,
        kept,
        start,
        end,
        account,
        calendar_id,
        calendar_name,
        href,
    );
    let organizer = model::organizer_of(old.properties);
    assert(model::organizer_of(ev.properties) == organizer) by {
        lemma_names();
        lemma_written_event(d, ctx, now, kept, "ORGANIZER"@);
        lemma_event_front(d, ctx, now, "ORGANIZER"@);
        lemma_kept(old, "ORGANIZER"@);
    }
    assert(model::ical_guests(ev.properties, organizer) == guests_read(
        d.attendees,
        ctx.existing_partstat,
        organizer,
    )) by {
        lemma_kept(old, "ATTENDEE"@);
        lemma_written_guests(d, ctx, now, kept, organizer);
    }
}

/// Editing an event and reading it gives the draft back, with its guests' answers
/// kept and the organizer in front. `reading` is what the parser makes of the
/// text that an edit of `old` writes, `r` what is made of the first event in it.
pub proof fn law_edited_event_round_trips(
    d: EventDraftView,
    old: EventV,
    now: Instant,
    reading: Option<CalendarV>,
    account: Seq<char>,
    calendar_id: Seq<char>,
    calendar_name: Seq<char>,
    href: Seq<char>,
    r: Option<EventView>,
)
    requires
        d.ready(),
        no_leap(d),
        compose::event_dates_compact(d, now),
        event_years(d, now),
        event_texts_survive(d, compose::edit_ctx(old)),
        ical::first_named(old.properties, "ORGANIZER"@) matches Some(p) ==> ical::survives(p),
        ical::all_survive(compose::event_rest(old.properties)),
        forall|i: int| 0 <= i < old.alarms.len() ==> ical::all_survive(#[trigger] old.alarms[i]),
        ical::events_read_back(compose::vevent_text(d, compose::edit_ctx(old), now), reading),
        ical::first_event(reading) matches Some(ev) ==> {
            &&& model::faithful_at(ev.properties, "DTSTART"@)
            &&& model::faithful_at(ev.properties, "DTEND"@)
            &&& model::ical_event_read(account, calendar_id, calendar_name, href, ev, r)
        },
    ensures
        ical::first_event(reading) is Some,
        r matches Some(e) && shows_draft(d, e) && e.attendees == model::ranked(
            guests_read(
                d.attendees,
                compose::partstats_of(old.properties),
                model::organizer_of(old.properties),
            ),
        ),
{
    law_edited_event_is_read_back(d, old, now, reading);
    law_edited_event_shows_its_draft(
        d,
        old,
        now,
        account,
        calendar_id,
        calendar_name,
        href,
        r,
    );
}

// ---------------------------------------------------------------------
// Tasks
// ---------------------------------------------------------------------

/// What stands at the end of a task that is done, and of one that is not.
pub open spec fn done_props(done: Option<Instant>) -> Seq<PropertyV> {
    match done {
        Some(t) => compose::completed_props(t),
        None => Seq::empty(),
    }
}

/// The properties of a written task: what the draft says, what it does not say,
/// and when it was completed.
pub open spec fn task_props(
    d: TaskDraftView,
    uid: Seq<char>,
    status: Seq<char>,
    rest: Seq<PropertyV>,
    done: Option<Instant>,
    now: Instant,
) -> Seq<PropertyV> {
    compose::todo_props(d, uid, status, now) + rest + done_props(done)
}

/// What stands behind the properties of the draft in a written task.
pub open spec fn task_end(
    rest: Seq<PropertyV>,
    done: Option<Instant>,
    alarms: Seq<Seq<PropertyV>>,
) -> Seq<char> {
    ics::lines_text(rest) + ics::lines_text(done_props(done)) + ics::alarms_text(alarms)
}

/// Nothing stands behind the properties of the draft in a new task.
pub proof fn lemma_new_task_end()
    ensures
        task_end(Seq::empty(), None, Seq::empty()) == Seq::<char>::empty(),
{
    let none = Seq::<PropertyV>::empty();
    assert(none.map_values(|p: PropertyV| ics::folded(ics::property_line(p))) == Seq::<
        Seq<char>,
    >::empty());
    assert(Seq::<Seq<PropertyV>>::empty().map_values(|a: Seq<PropertyV>| ics::alarm_text(a))
        == Seq::<Seq<char>>::empty());
}

/// Whether properties are none that a draft says in a task, but for when it is due.
pub open spec fn unsaid(rest: Seq<PropertyV>) -> bool {
    forall|i: int|
        0 <= i < rest.len() ==> !compose::todo_says((#[trigger] rest[i]).name, false, false)
}

/// Whether the years of a task draft and of its stamps have four digits.
pub open spec fn task_years(d: TaskDraftView, done: Option<Instant>, now: Instant) -> bool {
    &&& time::four_digit_instant(now.secs as int)
    &&& done matches Some(t) ==> time::four_digit_instant(t.secs as int)
    &&& d.due matches Some(day) ==> time::four_digit_day(day.days as int)
}

/// Whether the texts of a task draft survive as they are written.
pub open spec fn task_texts_survive(d: TaskDraftView, uid: Seq<char>, status: Seq<char>) -> bool {
    &&& ical::survives(compose::plain("UID"@, uid))
    &&& ical::survives(compose::plain("SUMMARY"@, ics::escaped(d.title)))
    &&& ical::all_survive(compose::optional_text("DESCRIPTION"@, d.notes))
    &&& ical::survives(compose::plain("STATUS"@, status))
}

/// A task is read back property for property: whoever parses its calendar object
/// finds the task that was written, done or not, with all that it keeps.
pub proof fn law_task_is_read_back(
    d: TaskDraftView,
    uid: Seq<char>,
    status: Seq<char>,
    rest: Seq<PropertyV>,
    done: Option<Instant>,
    alarms: Seq<Seq<PropertyV>>,
    now: Instant,
    reading: Option<CalendarV>,
)
    requires
        compose::todo_dates_compact(d, now),
        done matches Some(t) ==> compose::stamp_is_compact(t),
        task_years(d, done, now),
        task_texts_survive(d, uid, status),
        ical::all_survive(rest),
        forall|i: int| 0 <= i < alarms.len() ==> ical::all_survive(#[trigger] alarms[i]),
        ical::todos_read_back(
            compose::vtodo_text(d, uid, status, task_end(rest, done, alarms), now),
            reading,
        ),
    ensures
        ical::first_todo(reading) == Some(
            (TodoV { properties: task_props(d, uid, status, rest, done, now), alarms }),
        ),
{
    lemma_names();
    lemma_plain_names();
    let a = seq![
        compose::plain("UID"@, uid),
        compose::plain("DTSTAMP"@, compose::utc_stamp(now)),
        compose::plain("SUMMARY"@, ics::escaped(d.title)),
    ];
    lemma_stamp_survives("DTSTAMP"@, now);
    assert(ical::all_survive(a));
    let b = compose::optional_text("DESCRIPTION"@, d.notes);
    let c = compose::due_props(d.due);
    if d.due is Some {
        lemma_day_survives("DUE"@, d.due->0);
    }
    assert(ical::all_survive(c));
    let s = seq![compose::plain("STATUS"@, status)];
    assert(ical::all_survive(s));
    let m = done_props(done);
    assert(ical::all_survive(m)) by {
        if done is Some {
            lemma_stamp_survives("COMPLETED"@, done->0);
            reveal_strlit("100");
            lemma_solid_survives("PERCENT-COMPLETE"@, "100"@);
        }
    }
    lemma_all_survive_add(a, b);
    lemma_all_survive_add(a + b, c);
    lemma_all_survive_add(a + b + c, s);
    lemma_all_survive_add(a + b + c + s, rest);
    lemma_all_survive_add(a + b + c + s + rest, m);
    let props = compose::todo_props(d, uid, status, now);
    compose::lemma_lines_add(props, rest);
    compose::lemma_lines_add(props + rest, m);
    let (h, l, k, x, v, t) = (
        ics::todo_head(),
        ics::lines_text(props),
        ics::lines_text(rest),
        ics::lines_text(m),
        ics::alarms_text(alarms),
        ics::todo_tail(),
    );
    assert(h + l + (k + x + v) + t == h + (l + k + x) + v + t);
    assert(compose::vtodo_text(d, uid, status, task_end(rest, done, alarms), now)
        == ics::todo_text(props + rest + m, alarms));
}

/// The property of a name among those of the draft in a written task.
proof fn lemma_todo_props(
    d: TaskDraftView,
    uid: Seq<char>,
    status: Seq<char>,
    now: Instant,
    name: Seq<char>,
)
    ensures
        ical::first_named(compose::todo_props(d, uid, status, now), name) == if name == "UID"@ {
            Some(compose::plain("UID"@, uid))
        } else if name == "DTSTAMP"@ {
            Some(compose::plain("DTSTAMP"@, compose::utc_stamp(now)))
        } else if name == "SUMMARY"@ {
            Some(compose::plain("SUMMARY"@, ics::escaped(d.title)))
        } else if name == "DESCRIPTION"@ && d.notes.len() > 0 {
            Some(compose::plain("DESCRIPTION"@, ics::escaped(d.notes)))
        } else if name == "DUE"@ && d.due is Some {
            Some(compose::dated("DUE"@, d.due->0))
        } else if name == "STATUS"@ {
            Some(compose::plain("STATUS"@, status))
        } else {
            None
        },
{
    lemma_names();
    let p = compose::plain("UID"@, uid);
    let q = compose::plain("DTSTAMP"@, compose::utc_stamp(now));
    let r = compose::plain("SUMMARY"@, ics::escaped(d.title));
    let a = seq![p, q, r];
    assert(a == seq![p, q] + seq![r]);
    lemma_first_named_add(seq![p, q], seq![r], name);
    lemma_first_named_two(p, q, name);
    lemma_first_named_one(r, name);
    let b = compose::optional_text("DESCRIPTION"@, d.notes);
    if d.notes.len() > 0 {
        lemma_first_named_one(compose::plain("DESCRIPTION"@, ics::escaped(d.notes)), name);
    } else {
        lemma_first_named_none(b, name);
    }
    let c = compose::due_props(d.due);
    if d.due is Some {
        lemma_first_named_one(compose::dated("DUE"@, d.due->0), name);
    } else {
        lemma_first_named_none(c, name);
    }
    let s = compose::plain("STATUS"@, status);
    lemma_first_named_one(s, name);
    lemma_first_named_add(a, b, name);
    lemma_first_named_add(a + b, c, name);
    lemma_first_named_add(a + b + c, seq![s], name);
}

/// The property of a name in a written task: that of the draft, else that of what
/// it keeps, else that of its completion.
proof fn lemma_task_props(
    d: TaskDraftView,
    uid: Seq<char>,
    status: Seq<char>,
    rest: Seq<PropertyV>,
    done: Option<Instant>,
    now: Instant,
    name: Seq<char>,
)
    ensures
        ical::first_named(task_props(d, uid, status, rest, done, now), name)
            == match ical::first_named(compose::todo_props(d, uid, status, now), name) {
            Some(p) => Some(p),
            None => match ical::first_named(rest, name) {
                Some(p) => Some(p),
                None => if name == "COMPLETED"@ && done is Some {
                    Some(compose::plain("COMPLETED"@, compose::utc_stamp(done->0)))
                } else if name == "PERCENT-COMPLETE"@ && done is Some {
                    Some(compose::plain("PERCENT-COMPLETE"@, "100"@))
                } else {
                    None
                },
            },
        },
        unsaid(rest) && compose::todo_says(name, false, false) ==> ical::first_named(
            rest,
            name,
        ) is None,
{
    lemma_names();
    let m = done_props(done);
    if done is Some {
        lemma_first_named_two(
            compose::plain("COMPLETED"@, compose::utc_stamp(done->0)),
            compose::plain("PERCENT-COMPLETE"@, "100"@),
            name,
        );
    } else {
        lemma_first_named_none(m, name);
    }
    let props = compose::todo_props(d, uid, status, now);
    lemma_first_named_add(props, rest, name);
    lemma_first_named_add(props + rest, m, name);
    if unsaid(rest) && compose::todo_says(name, false, false) {
        lemma_first_named_none(rest, name);
    }
}

/// A task comes back as its draft: title and notes trimmed, a blank title as
/// `(untitled)`, the same due day where nothing else says when it is due; it is
/// completed exactly when it was written with the status COMPLETED or with a time
/// of completion. `rest` is what is kept beside the draft.
pub proof fn law_task_shows_its_draft(
    d: TaskDraftView,
    uid: Seq<char>,
    status: Seq<char>,
    rest: Seq<PropertyV>,
    done: Option<Instant>,
    now: Instant,
    account: Seq<char>,
    tasklist_id: Seq<char>,
    tasklist_title: Seq<char>,
    href: Seq<char>,
    r: TaskView,
)
    requires
        unsaid(rest),
        task_years(d, done, now),
        model::faithful_at(task_props(d, uid, status, rest, done, now), "DUE"@),
        model::ical_task_read(
            account,
            tasklist_id,
            tasklist_title,
            href,
            task_props(d, uid, status, rest, done, now),
            r,
        ),
    ensures
        r.title == model::or_text(text::non_blank(d.title), "(untitled)"@),
        r.notes == text::non_blank(d.notes),
        d.due is Some || ical::first_named(rest, "DUE"@) is None ==> r.due == d.due,
        r.completed == (status == "COMPLETED"@ || done is Some),
        r.id == href,
{
    lemma_names();
    let props = task_props(d, uid, status, rest, done, now);
    lemma_todo_props(d, uid, status, now, "SUMMARY"@);
    lemma_todo_props(d, uid, status, now, "DESCRIPTION"@);
    lemma_todo_props(d, uid, status, now, "DUE"@);
    lemma_todo_props(d, uid, status, now, "STATUS"@);
    lemma_todo_props(d, uid, status, now, "COMPLETED"@);
    lemma_task_props(d, uid, status, rest, done, now, "SUMMARY"@);
    lemma_task_props(d, uid, status, rest, done, now, "DESCRIPTION"@);
    lemma_task_props(d, uid, status, rest, done, now, "DUE"@);
    lemma_task_props(d, uid, status, rest, done, now, "STATUS"@);
    lemma_task_props(d, uid, status, rest, done, now, "COMPLETED"@);
    ics::law_unescape_undoes_escape(d.title);
    ics::law_unescape_undoes_escape(d.notes);
    assert(d.notes.len() == 0 ==> text::non_blank(d.notes) is None);
    if d.due is Some {
        lemma_day_meaning("DUE"@, d.due->0);
        assert(model::moment_at(props, "DUE"@) == When::Day(d.due->0));
    } else if ical::first_named(rest, "DUE"@) is None {
        assert(model::moment_at(props, "DUE"@) == When::Unreadable);
    }
}

/// Writing a new task and reading it gives its draft back: the text parses, and
/// what `Task::from_ical` makes of its first task has the title, the notes and the
/// due day of the draft, and is open. `reading` is what the parser makes of the
/// text, `r` what is made of the first task in it.
pub proof fn law_new_task_round_trips(
    d: TaskDraftView,
    uid: Seq<char>,
    now: Instant,
    reading: Option<CalendarV>,
    account: Seq<char>,
    tasklist_id: Seq<char>,
    tasklist_title: Seq<char>,
    href: Seq<char>,
    r: TaskView,
)
    requires
        compose::todo_dates_compact(d, now),
        task_years(d, None, now),
        task_texts_survive(d, uid, "NEEDS-ACTION"@),
        ical::todos_read_back(
            compose::vtodo_text(d, uid, "NEEDS-ACTION"@, Seq::empty(), now),
            reading,
        ),
        ical::first_todo(reading) matches Some(todo) ==> model::faithful_at(
            todo.properties,
            "DUE"@,
        ) && model::ical_task_read(
            account,
            tasklist_id,
            tasklist_title,
            href,
            todo.properties,
            r,
        ),
    ensures
        ical::first_todo(reading) is Some,
        r.title == model::or_text(text::non_blank(d.title), "(untitled)"@),
        r.notes == text::non_blank(d.notes),
        r.due == d.due,
        !r.completed,
        r.id == href,
{
    let none = Seq::<PropertyV>::empty();
    lemma_new_task_end();
    law_task_is_read_back(
        d,
        uid,
        "NEEDS-ACTION"@,
        none,
        None,
        Seq::empty(),
        now,
        reading,
    );
    law_task_shows_its_draft(
        d,
        uid,
        "NEEDS-ACTION"@,
        none,
        None,
        now,
        account,
        tasklist_id,
        tasklist_title,
        href,
        r,
    );
    reveal_strlit("NEEDS-ACTION");
    reveal_strlit("COMPLETED");
    assert("NEEDS-ACTION"@.len() == 12 && "COMPLETED"@.len() == 9);
}

/// The task that an edited task's calendar object holds.
pub open spec fn edited_task(d: TaskDraftView, old: TodoV, now: Instant) -> TodoV {
    TodoV {
        properties: task_props(
            d,
            crate::caldav::todo_uid(old.properties),
            "NEEDS-ACTION"@,
            compose::todo_rest(old.properties, true, d.due is Some),
            None,
            now,
        ),
        alarms: old.alarms,
    }
}

/// The task that a completed task's calendar object holds. `task` is the task as
/// read before.
pub open spec fn completed_task(old: TodoV, task: TaskView, done: Instant, now: Instant) -> TodoV {
    let d = crate::caldav::completed_draft(old.properties, task);
    TodoV {
        properties: task_props(
            d,
            crate::caldav::todo_uid(old.properties),
            "COMPLETED"@,
            compose::todo_rest(old.properties, d.due is Some, d.due is Some),
            Some(done),
            now,
        ),
        alarms: old.alarms,
    }
}

/// What a task keeps over an edit is none that the draft says.
proof fn lemma_todo_rest(props: Seq<PropertyV>, due_said: bool, has_due: bool, name: Seq<char>)
    ensures
        unsaid(compose::todo_rest(props, due_said, has_due)),
        ical::first_named(compose::todo_rest(props, due_said, has_due), name)
            == if compose::todo_says(name, due_said, has_due) {
            None
        } else {
            ical::first_named(props, name)
        },
{
    let f = |p: PropertyV| !compose::todo_says(p.name, due_said, has_due);
    lemma_filter_all(props, f);
    if compose::todo_says(name, due_said, has_due) {
        lemma_filter_none(props, f, name);
    } else {
        lemma_filter_first(props, f, name);
    }
    let rest = compose::todo_rest(props, due_said, has_due);
    assert forall|i: int| 0 <= i < rest.len() implies !compose::todo_says(
        (#[trigger] rest[i]).name,
        false,
        false,
    ) by {
        assert(f(rest[i]));
    }
}

/// Everything that a written task says beside what it keeps, the draft says.
proof fn lemma_task_rest(
    d: TaskDraftView,
    uid: Seq<char>,
    status: Seq<char>,
    props: Seq<PropertyV>,
    due_said: bool,
    done: Option<Instant>,
    now: Instant,
)
    requires
        d.due is Some ==> due_said,
    ensures
        compose::todo_rest(
            task_props(
                d,
                uid,
                status,
                compose::todo_rest(props, due_said, d.due is Some),
                done,
                now,
            ),
            due_said,
            d.due is Some,
        ) == compose::todo_rest(props, due_said, d.due is Some),
{
    let has_due = d.due is Some;
    let f = |p: PropertyV| !compose::todo_says(p.name, due_said, has_due);
    let written = compose::todo_props(d, uid, status, now);
    let rest = compose::todo_rest(props, due_said, has_due);
    let last = done_props(done);
    let n = compose::optional_text("DESCRIPTION"@, d.notes);
    let c = compose::due_props(d.due);
    assert forall|i: int| 0 <= i < written.len() implies !f(#[trigger] written[i]) by {
        if i < 3 {
        } else if i < 3 + n.len() {
            assert(written[i] == n[i - 3]);
        } else if i < 3 + n.len() + c.len() {
            assert(written[i] == c[i - 3 - n.len()]);
        } else {
            assert(written[i] == compose::plain("STATUS"@, status));
        }
    }
    assert forall|i: int| 0 <= i < last.len() implies !f(#[trigger] last[i]) by {
        if done is Some {
            assert(last == compose::completed_props(done->0));
        }
    }
    lemma_filter_all(written, f);
    lemma_filter_all(last, f);
    lemma_filter_all(props, f);
    lemma_filter_all(rest, f);
    lemma_filter_add(written, rest, f);
    lemma_filter_add(written + rest, last, f);
    let e = Seq::<PropertyV>::empty();
    assert(e + rest + e == rest);
}

/// The first property of a name that the draft does not say is the one it was, and
/// the UID is the one that was written.
proof fn lemma_task_named(
    d: TaskDraftView,
    uid: Seq<char>,
    status: Seq<char>,
    props: Seq<PropertyV>,
    due_said: bool,
    done: Option<Instant>,
    now: Instant,
    name: Seq<char>,
)
    requires
        d.due is Some ==> due_said,
    ensures
        ({
            let rest = compose::todo_rest(props, due_said, d.due is Some);
            let written = task_props(d, uid, status, rest, done, now);
            &&& !compose::todo_says(name, due_said, d.due is Some) ==> ical::first_named(
                written,
                name,
            ) == ical::first_named(props, name)
            &&& name == "UID"@ ==> ical::value_of(written, name) == Some(uid)
        }),
{
    let rest = compose::todo_rest(props, due_said, d.due is Some);
    lemma_todo_props(d, uid, status, now, name);
    lemma_task_props(d, uid, status, rest, done, now, name);
    lemma_todo_rest(props, due_said, d.due is Some, name);
}

/// An edit of a task keeps the alarms, the UID and every property that the draft
/// does not say, as it is and in its order; the task has the draft's title, notes
/// and due day afterwards, and it is open. `r` is what `Task::from_ical` makes of
/// what was written.
pub proof fn law_edited_task_keeps_what_the_draft_does_not_say(
    d: TaskDraftView,
    old: TodoV,
    now: Instant,
    account: Seq<char>,
    tasklist_id: Seq<char>,
    tasklist_title: Seq<char>,
    href: Seq<char>,
    r: TaskView,
)
    requires
        task_years(d, None, now),
        model::faithful_at(edited_task(d, old, now).properties, "DUE"@),
        model::ical_task_read(
            account,
            tasklist_id,
            tasklist_title,
            href,
            edited_task(d, old, now).properties,
            r,
        ),
    ensures
        edited_task(d, old, now).alarms == old.alarms,
        ical::value_of(edited_task(d, old, now).properties, "UID"@) == Some(
            crate::caldav::todo_uid(old.properties),
        ),
        compose::todo_rest(edited_task(d, old, now).properties, true, d.due is Some)
            == compose::todo_rest(old.properties, true, d.due is Some),
        forall|name: Seq<char>|
            !compose::todo_says(name, true, d.due is Some) ==> #[trigger] ical::first_named(
                edited_task(d, old, now).properties,
                name,
            ) == ical::first_named(old.properties, name),
        r.title == model::or_text(text::non_blank(d.title), "(untitled)"@),
        r.notes == text::non_blank(d.notes),
        r.due == d.due,
        !r.completed,
{
    let uid = crate::caldav::todo_uid(old.properties);
    let status = "NEEDS-ACTION"@;
    let has_due = d.due is Some;
    let rest = compose::todo_rest(old.properties, true, has_due);
    lemma_todo_rest(old.properties, true, has_due, "DUE"@);
    law_task_shows_its_draft(
        d,
        uid,
        status,
        rest,
        None,
        now,
        account,
        tasklist_id,
        tasklist_title,
        href,
        r,
    );
    reveal_strlit("NEEDS-ACTION");
    reveal_strlit("COMPLETED");
    assert("NEEDS-ACTION"@.len() == 12 && "COMPLETED"@.len() == 9);
    lemma_task_named(d, uid, status, old.properties, true, None, now, "UID"@);
    lemma_task_rest(d, uid, status, old.properties, true, None, now);
    assert forall|name: Seq<char>| !compose::todo_says(name, true, has_due) implies #[trigger]
        ical::first_named(edited_task(d, old, now).properties, name) == ical::first_named(
        old.properties,
        name,
    ) by {
        lemma_task_named(d, uid, status, old.properties, true, None, now, name);
    }
}

/// An edited task is read back property for property, with its alarms and all that
/// the draft does not say, wherever these survive.
pub proof fn law_edited_task_is_read_back(
    d: TaskDraftView,
    old: TodoV,
    now: Instant,
    reading: Option<CalendarV>,
)
    requires
        compose::todo_dates_compact(d, now),
        task_years(d, None, now),
        task_texts_survive(d, crate::caldav::todo_uid(old.properties), "NEEDS-ACTION"@),
        ical::all_survive(compose::todo_rest(old.properties, true, d.due is Some)),
        forall|i: int| 0 <= i < old.alarms.len() ==> ical::all_survive(#[trigger] old.alarms[i]),
        ical::todos_read_back(
            compose::vtodo_text(
                d,
                crate::caldav::todo_uid(old.properties),
                "NEEDS-ACTION"@,
                compose::kept_text(old, true, d.due is Some, Seq::empty()),
                now,
            ),
            reading,
        ),
    ensures
        ical::first_todo(reading) == Some(edited_task(d, old, now)),
{
    law_task_is_read_back(
        d,
        crate::caldav::todo_uid(old.properties),
        "NEEDS-ACTION"@,
        compose::todo_rest(old.properties, true, d.due is Some),
        None,
        old.alarms,
        now,
        reading,
    );
}

/// A completed task is read back property for property, with its alarms and all
/// that it said before, wherever these survive. `task` is the task as read before.
pub proof fn law_completed_task_is_read_back(
    old: TodoV,
    task: TaskView,
    done: Instant,
    now: Instant,
    reading: Option<CalendarV>,
)
    requires
        ({
            let d = crate::caldav::completed_draft(old.properties, task);
            let said = d.due is Some;
            &&& compose::todo_dates_compact(d, now)
            &&& compose::stamp_is_compact(done)
            &&& task_years(d, Some(done), now)
            &&& task_texts_survive(d, crate::caldav::todo_uid(old.properties), "COMPLETED"@)
            &&& ical::all_survive(compose::todo_rest(old.properties, said, said))
            &&& ical::todos_read_back(
                compose::vtodo_text(
                    d,
                    crate::caldav::todo_uid(old.properties),
                    "COMPLETED"@,
                    compose::kept_text(old, said, said, compose::completed_props(done)),
                    now,
                ),
                reading,
            )
        }),
        forall|i: int| 0 <= i < old.alarms.len() ==> ical::all_survive(#[trigger] old.alarms[i]),
    ensures
        ical::first_todo(reading) == Some(completed_task(old, task, done, now)),
{
    let d = crate::caldav::completed_draft(old.properties, task);
    law_task_is_read_back(
        d,
        crate::caldav::todo_uid(old.properties),
        "COMPLETED"@,
        compose::todo_rest(old.properties, d.due is Some, d.due is Some),
        Some(done),
        old.alarms,
        now,
        reading,
    );
}

// ---------------------------------------------------------------------
// Completing and identifying
// ---------------------------------------------------------------------

/// Nothing is left to trim of what has been trimmed.
proof fn lemma_trimmed_twice(s: Seq<char>)
    ensures
        text::trimmed(text::trimmed(s)) == text::trimmed(s),
    decreases s.len(),
{
    if s.len() > 0 && text::white(s[0]) {
        lemma_trimmed_twice(s.drop_first());
    } else if s.len() > 0 && text::white(s.last()) {
        lemma_trimmed_twice(s.drop_last());
    } else {
        text::lemma_trimmed_fixed(s);
    }
}

proof fn lemma_non_blank_twice(s: Seq<char>)
    ensures
        text::non_blank(s) matches Some(t) ==> text::non_blank(t) == Some(t),
{
    lemma_trimmed_twice(s);
}

/// Title and notes of a task are those of its draft, read again.
proof fn lemma_draft_read_again(props: Seq<PropertyV>, before: TaskView)
    requires
        before.title == model::or_text(model::ical_non_blank(props, "SUMMARY"@), "(untitled)"@),
        before.notes == model::ical_non_blank(props, "DESCRIPTION"@),
    ensures
        model::or_text(
            text::non_blank(crate::caldav::draft_of(before).title),
            "(untitled)"@,
        ) == before.title,
        text::non_blank(crate::caldav::draft_of(before).notes) == before.notes,
{
    let title = model::ical_text(props, "SUMMARY"@);
    if title is Some {
        lemma_non_blank_twice(title->0);
    }
    reveal_strlit("(untitled)");
    text::lemma_trimmed_fixed("(untitled)"@);
    let notes = model::ical_text(props, "DESCRIPTION"@);
    if notes is Some {
        lemma_non_blank_twice(notes->0);
    }
    let none = Seq::<char>::empty();
    text::lemma_trimmed_fixed(none);
    assert(text::non_blank(none) is None);
}

/// When a completed task is due is what it was.
proof fn lemma_completed_due(old: TodoV, task: TaskView, done: Instant, now: Instant)
    requires
        task_years(crate::caldav::completed_draft(old.properties, task), Some(done), now),
        model::faithful_at(completed_task(old, task, done, now).properties, "DUE"@),
    ensures
        model::moment_at(completed_task(old, task, done, now).properties, "DUE"@)
            == model::moment_at(old.properties, "DUE"@),
{
    let d = crate::caldav::completed_draft(old.properties, task);
    let uid = crate::caldav::todo_uid(old.properties);
    let has_due = d.due is Some;
    let rest = compose::todo_rest(old.properties, has_due, has_due);
    lemma_names();
    lemma_todo_rest(old.properties, has_due, has_due, "DUE"@);
    lemma_todo_props(d, uid, "COMPLETED"@, now, "DUE"@);
    lemma_task_props(d, uid, "COMPLETED"@, rest, Some(done), now, "DUE"@);
    if has_due {
        lemma_day_meaning("DUE"@, d.due->0);
    }
}

/// What a completed task says beside its draft is what it said.
proof fn lemma_completed_rest(old: TodoV, task: TaskView, done: Instant, now: Instant)
    ensures
        compose::todo_rest(completed_task(old, task, done, now).properties, true, true)
            == compose::todo_rest(old.properties, true, true),
{
    let d = crate::caldav::completed_draft(old.properties, task);
    let uid = crate::caldav::todo_uid(old.properties);
    let has_due = d.due is Some;
    lemma_task_rest(d, uid, "COMPLETED"@, old.properties, has_due, Some(done), now);
    lemma_rest_of_rest(completed_task(old, task, done, now).properties, has_due);
    lemma_rest_of_rest(old.properties, has_due);
}

/// Completing a task changes nothing else: it keeps the alarms, the UID, when it is
/// due and every property that its draft does not say; once read again, it has the
/// title and notes it had, the due day where it is due on a day, and it is
/// completed. `before` is the task as read, `after` the task that was written for
/// its completion, read again.
pub proof fn law_completing_changes_nothing_else(
    old: TodoV,
    before: TaskView,
    done: Instant,
    now: Instant,
    account: Seq<char>,
    tasklist_id: Seq<char>,
    tasklist_title: Seq<char>,
    href: Seq<char>,
    after: TaskView,
)
    requires
        model::ical_task_read(account, tasklist_id, ""@, href, old.properties, before),
        task_years(crate::caldav::completed_draft(old.properties, before), Some(done), now),
        model::faithful_at(completed_task(old, before, done, now).properties, "DUE"@),
        model::ical_task_read(
            account,
            tasklist_id,
            tasklist_title,
            href,
            completed_task(old, before, done, now).properties,
            after,
        ),
    ensures
        completed_task(old, before, done, now).alarms == old.alarms,
        ical::value_of(completed_task(old, before, done, now).properties, "UID"@) == Some(
            crate::caldav::todo_uid(old.properties),
        ),
        model::moment_at(completed_task(old, before, done, now).properties, "DUE"@)
            == model::moment_at(old.properties, "DUE"@),
        forall|name: Seq<char>|
            !compose::todo_says(name, true, true) ==> #[trigger] ical::first_named(
                completed_task(old, before, done, now).properties,
                name,
            ) == ical::first_named(old.properties, name),
        compose::todo_rest(completed_task(old, before, done, now).properties, true, true)
            == compose::todo_rest(old.properties, true, true),
        after.title == before.title,
        after.notes == before.notes,
        crate::caldav::plain_due(old.properties) is Some ==> after.due == before.due,
        after.completed,
{
    let d = crate::caldav::completed_draft(old.properties, before);
    let uid = crate::caldav::todo_uid(old.properties);
    let status = "COMPLETED"@;
    let has_due = d.due is Some;
    let rest = compose::todo_rest(old.properties, has_due, has_due);
    lemma_todo_rest(old.properties, has_due, has_due, "DUE"@);
    law_task_shows_its_draft(
        d,
        uid,
        status,
        rest,
        Some(done),
        now,
        account,
        tasklist_id,
        tasklist_title,
        href,
        after,
    );
    lemma_draft_read_again(old.properties, before);
    lemma_completed_due(old, before, done, now);
    lemma_completed_rest(old, before, done, now);
    lemma_task_named(d, uid, status, old.properties, has_due, Some(done), now, "UID"@);
    assert forall|name: Seq<char>| !compose::todo_says(name, true, true) implies #[trigger]
        ical::first_named(completed_task(old, before, done, now).properties, name)
        == ical::first_named(old.properties, name) by {
        lemma_task_named(d, uid, status, old.properties, has_due, Some(done), now, name);
    }
}

/// What is left of what is left when less counts as unsaid.
proof fn lemma_rest_of_rest(props: Seq<PropertyV>, said: bool)
    ensures
        compose::todo_rest(compose::todo_rest(props, said, said), true, true)
            == compose::todo_rest(props, true, true),
    decreases props.len(),
{
    reveal(Seq::filter);
    let f = |p: PropertyV| !compose::todo_says(p.name, said, said);
    let g = |p: PropertyV| !compose::todo_says(p.name, true, true);
    if props.len() > 0 {
        let front = props.drop_last();
        let p = props.last();
        lemma_rest_of_rest(front, said);
        assert(front.push(p) == props);
        compose::lemma_filter_push(front, p, f);
        compose::lemma_filter_push(front, p, g);
        if f(p) {
            compose::lemma_filter_push(front.filter(f), p, g);
        }
    } else {
        assert(props.filter(f) == props);
    }
}

/// A fresh UID survives.
pub proof fn law_fresh_uid_survives(uid: Seq<char>)
    requires
        crate::caldav::uuid_form(uid),
    ensures
        ical::survives(compose::plain("UID"@, uid)),
{
    lemma_names();
    reveal_strlit("UID");
    assert forall|i: int| 0 <= i < uid.len() implies !text::white(#[trigger] uid[i]) by {}
    assert(uid[0] != ':');
    lemma_solid_survives("UID"@, uid);
}

/// A value on a line of at most 75 octets survives, unless it is empty, starts
/// with a colon, holds a line feed or ends in white space.
pub proof fn law_short_line_survives(name: Seq<char>, v: Seq<char>)
    requires
        ical::plain_name(name),
        name != "BEGIN"@,
        name != "END"@,
        v.len() > 0,
        v[0] != ':',
        !v.contains('\n'),
        !text::white(v.last()),
        text::octets(name + seq![':'] + v) <= ics::LINE_OCTETS,
    ensures
        ical::survives(compose::plain(name, v)),
{
    let p = compose::plain(name, v);
    let line = ics::property_line(p);
    assert(line == name + seq![':'] + v);
    assert(ics::line_pieces(line) == seq![line]);
    assert(line.last() == v.last());
}

} // verus!
