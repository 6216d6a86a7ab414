//! Laws of reading: what an entry of an answer says, said of its members.

use vstd::prelude::*;

use crate::daemon_laws;
use crate::gws;
use crate::ical;
use crate::ical::When;
use crate::json;
use crate::json::JsonV;
use crate::model;
use crate::model::{AttendeeView, CalendarView, EventView};
use crate::roundtrip;
use crate::text;
use crate::time;
use crate::time::{Date, Moment};

verus! {

// ---------------------------------------------------------------------
// Texts
// ---------------------------------------------------------------------

/// Trimming takes white space off both ends, and nothing else.
pub proof fn law_trimming(before: Seq<char>, kept: Seq<char>, after: Seq<char>)
    requires
        forall|i: int| 0 <= i < before.len() ==> text::white(#[trigger] before[i]),
        forall|i: int| 0 <= i < after.len() ==> text::white(#[trigger] after[i]),
        kept.len() > 0 ==> !text::white(kept[0]) && !text::white(kept.last()),
    ensures
        text::trimmed(before + kept + after) == kept,
        text::non_blank(before + kept + after) == if kept.len() == 0 {
            None
        } else {
            Some(kept)
        },
    decreases before.len() + after.len(),
{
    let s = before + kept + after;
    if before.len() > 0 {
        assert(s[0] == before[0]);
        assert(s.drop_first() == before.drop_first() + kept + after);
        law_trimming(before.drop_first(), kept, after);
    } else if after.len() > 0 {
        let front = after.drop_last();
        assert(s.last() == after.last());
        assert(s.drop_last() == before + kept + front);
        if kept.len() > 0 {
            assert(s[0] == kept[0]);
            law_trimming(before, kept, front);
        } else {
            assert(s == after);
            assert(s[0] == after[0]);
            assert(s.drop_first() == before + kept + after.drop_first());
            law_trimming(before, kept, after.drop_first());
        }
    } else {
        assert(s == kept);
    }
}

/// White space is what Unicode calls so: the space and the controls from the tabulator
/// to the carriage return, the next line, the no-break space, and the spaces and
/// separators of other scripts. No letter, digit or mark of ASCII is.
pub proof fn law_white_space(c: char)
    ensures
        text::white(c) <==> '\t' <= c <= '\r' || c == ' ' || c == '\u{85}' || c == '\u{a0}' || c
            == '\u{1680}' || '\u{2000}' <= c <= '\u{200a}' || c == '\u{2028}' || c == '\u{2029}'
            || c == '\u{202f}' || c == '\u{205f}' || c == '\u{3000}',
        '!' <= c <= '~' ==> !text::white(c),
{
}

/// A signed decimal is read as its number: digits alone or behind a plus as they
/// stand, behind a minus as the opposite. Anything else is none.
pub proof fn law_signed_decimal(n: nat, s: Seq<char>)
    ensures
        text::integer_value(text::numeral(n)) == Some(n as int),
        text::integer_value(seq!['+'] + text::numeral(n)) == Some(n as int),
        text::integer_value(seq!['-'] + text::numeral(n)) == Some(-(n as int)),
        text::natural_value(text::numeral(n)) == Some(n),
        text::natural_value(seq!['+'] + text::numeral(n)) == Some(n),
        text::integer_value(Seq::empty()) is None,
        text::natural_value(Seq::empty()) is None,
        (exists|i: int|
            1 <= i < s.len() && !('0' <= #[trigger] s[i] <= '9')) ==> text::integer_value(s) is None
            && text::natural_value(s) is None,
        s.len() > 0 && !('0' <= s[0] <= '9') && s[0] != '+' && s[0] != '-' ==> text::integer_value(
            s,
        ) is None,
        s.len() > 0 && !('0' <= s[0] <= '9') && s[0] != '+' ==> text::natural_value(s) is None,
        s.len() == 1 && !('0' <= s[0] <= '9') ==> text::integer_value(s) is None
            && text::natural_value(s) is None,
{
    roundtrip::lemma_numeral(n);
    let d = text::numeral(n);
    assert(text::is_digit(d[0]));
    assert((seq!['+'] + d).drop_first() == d);
    assert((seq!['-'] + d).drop_first() == d);
    if exists|i: int| 1 <= i < s.len() && !('0' <= #[trigger] s[i] <= '9') {
        let i = choose|i: int| 1 <= i < s.len() && !('0' <= #[trigger] s[i] <= '9');
        assert(!text::is_digit(s[i]));
        assert(s.drop_first()[i - 1] == s[i]);
        assert(!text::all_digits(s));
        assert(!text::is_digit(s.drop_first()[i - 1]));
        assert(!text::all_digits(s.drop_first()));
    }
    if s.len() > 0 && !('0' <= s[0] <= '9') {
        assert(!text::is_digit(s[0]));
        assert(!text::all_digits(s));
    }
}

/// A numeral is made of the digits of its number, the last one last, and has no zero
/// in front.
pub proof fn law_numeral(n: nat, x: int)
    ensures
        text::numeral(n).last() as int == 48 + n % 10,
        n >= 10 ==> text::numeral(n).drop_last() == text::numeral(n / 10),
        n < 10 ==> text::numeral(n).len() == 1,
        n > 0 ==> text::numeral(n)[0] != '0',
        x >= 0 ==> text::signed_numeral(x) == text::numeral(x as nat),
        x < 0 ==> text::signed_numeral(x) == seq!['-'] + text::numeral((-x) as nat),
    decreases n,
{
    if n >= 10 {
        law_numeral(n / 10, x);
        assert(text::numeral(n).drop_last() == text::numeral(n / 10));
        assert(text::numeral(n)[0] == text::numeral(n / 10)[0]);
    }
}

/// Lines are joined one after the other, with the separator between two and nowhere
/// else.
pub proof fn law_joining(parts: Seq<Seq<char>>, part: Seq<char>, sep: Seq<char>)
    ensures
        text::joined(Seq::empty(), sep) == Seq::<char>::empty(),
        text::joined(seq![part], sep) == part,
        parts.len() > 0 ==> text::joined(parts.push(part), sep) == text::joined(parts, sep) + sep
            + part,
        text::flat(Seq::empty()) == Seq::<char>::empty(),
        text::flat(parts.push(part)) == text::flat(parts) + part,
{
    assert(parts.push(part).drop_last() == parts);
}

/// Texts are ordered by the first character in which they differ; one that ends
/// before the other comes first.
pub proof fn law_text_order(common: Seq<char>, a: Seq<char>, b: Seq<char>)
    requires
        a.len() == 0 || b.len() == 0 || a[0] != b[0],
    ensures
        text::text_lt(common + a, common + b) == (b.len() > 0 && (a.len() == 0 || a[0] < b[0])),
    decreases common.len(),
{
    if common.len() == 0 {
        assert(common + a == a);
        assert(common + b == b);
    } else {
        assert((common + a).drop_first() == common.drop_first() + a);
        assert((common + b).drop_first() == common.drop_first() + b);
        law_text_order(common.drop_first(), a, b);
    }
}

// ---------------------------------------------------------------------
// Members
// ---------------------------------------------------------------------

/// The member of a key is the first one that an object has of it.
pub proof fn law_member_is_the_first_of_its_key(
    members: Seq<(Seq<char>, JsonV)>,
    key: Seq<char>,
    k: int,
)
    requires
        0 <= k < members.len(),
        members[k].0 == key,
        forall|i: int| 0 <= i < k ==> (#[trigger] members[i]).0 != key,
    ensures
        JsonV::Object(members).member(key) == Some(members[k].1),
    decreases members.len(),
{
    if k > 0 {
        assert(members[0].0 != key);
        let rest = members.drop_first();
        assert forall|i: int| 0 <= i < k - 1 implies (#[trigger] rest[i]).0 != key by {
            assert(members[i + 1].0 != key);
        }
        law_member_is_the_first_of_its_key(rest, key, k - 1);
        assert(json::first_member(members, key) == json::first_member(rest, key));
    }
}

/// What has no member of a key, and what is no object, says nothing under it.
pub proof fn law_no_member(v: JsonV, key: Seq<char>)
    requires
        v matches JsonV::Object(members) ==> forall|i: int|
            0 <= i < members.len() ==> (#[trigger] members[i]).0 != key,
    ensures
        v.member(key) is None,
        v.text_at(key) is None,
        v.truth_at(key) is None,
        v.integer_at(key) is None,
        v.items_at(key).len() == 0,
        v.non_blank_at(key) is None,
{
    if v is Object {
        gws::lemma_member_absent(v->Object_0, key);
    }
}

/// What a member says is taken only where it is of the kind that is asked for.
pub proof fn law_members_are_read_by_kind(v: JsonV, key: Seq<char>)
    ensures
        v.text_at(key) == match v.member(key) {
            Some(JsonV::Str(s)) => Some(s),
            _ => None,
        },
        v.truth_at(key) == match v.member(key) {
            Some(JsonV::Bool(b)) => Some(b),
            _ => None,
        },
        v.integer_at(key) == match v.member(key) {
            Some(JsonV::Int(n)) => Some(n),
            _ => None,
        },
        v.member(key) matches Some(JsonV::Array(items)) ==> v.items_at(key) == items,
        !(v.member(key) matches Some(JsonV::Array(_))) ==> v.items_at(key).len() == 0,
        v.non_blank_at(key) == match v.text_at(key) {
            Some(s) => text::non_blank(s),
            None => None,
        },
{
}

// ---------------------------------------------------------------------
// Reminders
// ---------------------------------------------------------------------

/// Whether a reminder is a popup some minutes ahead.
pub open spec fn popup_of(r: JsonV, m: i64) -> bool {
    r.member("method"@) == Some(JsonV::Str("popup"@)) && r.member("minutes"@) == Some(
        JsonV::Int(m),
    )
}

/// Of reminders the popups count, in their order, each with its minutes.
pub proof fn law_popups_count(items: Seq<JsonV>, r: JsonV)
    ensures
        model::popup_minutes(Seq::empty()).len() == 0,
        forall|m: i64| #[trigger]
            popup_of(r, m) ==> model::popup_minutes(items.push(r)) == model::popup_minutes(
                items,
            ).push(m),
        (forall|m: i64| !#[trigger] popup_of(r, m)) ==> model::popup_minutes(items.push(r))
            == model::popup_minutes(items),
{
    assert(items.push(r).drop_last() == items);
    assert forall|m: i64| #[trigger] popup_of(r, m) implies model::popup_minutes(items.push(r))
        == model::popup_minutes(items).push(m) by {
        assert(model::popup_minute(r) == Some(m));
        assert(model::popup_minutes(items) + seq![m] == model::popup_minutes(items).push(m));
    }
    if forall|m: i64| !#[trigger] popup_of(r, m) {
        if model::popup_minute(r) is Some {
            assert(popup_of(r, model::popup_minute(r)->0));
        }
    }
}

/// Whether an entry says that the defaults do not count for it.
pub open spec fn has_its_own(v: JsonV) -> bool {
    v.member("reminders"@) matches Some(r) && r.member("useDefault"@) == Some(JsonV::Bool(false))
}

/// Whether a reminder is a popup with minutes.
pub open spec fn is_popup(r: JsonV) -> bool {
    exists|m: i64| #[trigger] popup_of(r, m)
}

proof fn lemma_no_popups(items: Seq<JsonV>)
    requires
        forall|i: int| 0 <= i < items.len() ==> !is_popup(#[trigger] items[i]),
    ensures
        model::popup_minutes(items).len() == 0,
    decreases items.len(),
{
    if items.len() > 0 {
        let front = items.drop_last();
        assert forall|i: int| 0 <= i < front.len() implies !is_popup(#[trigger] front[i]) by {
            assert(front[i] == items[i]);
        }
        lemma_no_popups(front);
        assert(items == front.push(items.last()));
        assert(!is_popup(items[items.len() - 1]));
        law_popups_count(front, items.last());
    }
}

/// An event has a list of reminders of its own exactly where its entry says that the
/// defaults do not count; the list is empty where no popup is among them. Such an
/// event is never announced, whatever the calendar and the configuration say.
pub proof fn law_own_reminders(
    account: Seq<char>,
    calendar_id: Seq<char>,
    calendar_name: Seq<char>,
    v: JsonV,
    e: EventView,
    cals: Seq<CalendarView>,
    fallback: i64,
    m: i64,
)
    requires
        model::event_read(account, calendar_id, calendar_name, v, Some(e)),
    ensures
        e.reminder_overrides is Some <==> has_its_own(v),
        e.reminder_overrides matches Some(own) ==> own == model::popup_minutes(
            v.member("reminders"@)->0.items_at("overrides"@),
        ),
        has_its_own(v) && (forall|i: int|
            0 <= i < v.member("reminders"@)->0.items_at("overrides"@).len() ==> !is_popup(
                #[trigger] v.member("reminders"@)->0.items_at("overrides"@)[i],
            )) ==> e.reminder_overrides == Some(Seq::<i64>::empty()) && !daemon_laws::minute_of(
            e,
            cals,
            fallback,
            m,
        ),
{
    if has_its_own(v) && (forall|i: int|
        0 <= i < v.member("reminders"@)->0.items_at("overrides"@).len() ==> !is_popup(
            #[trigger] v.member("reminders"@)->0.items_at("overrides"@)[i],
        )) {
        lemma_no_popups(v.member("reminders"@)->0.items_at("overrides"@));
        assert(e.reminder_overrides->0 =~= Seq::<i64>::empty());
    }
}

// ---------------------------------------------------------------------
// Events
// ---------------------------------------------------------------------

/// Whether a boundary says a time.
pub open spec fn says_time(v: JsonV, key: Seq<char>, secs: i64, nanos: u32) -> bool {
    v.member(key) matches Some(b) && (b.member("dateTime"@) matches Some(JsonV::Str(t))
        && time::rfc3339_instant(t) == Some((secs, nanos)))
}

/// Whether a boundary says a day.
pub open spec fn says_day(v: JsonV, key: Seq<char>, days: i32) -> bool {
    v.member(key) matches Some(b) && !(b.member("dateTime"@) matches Some(JsonV::Str(_))) && (
    b.member("date"@) matches Some(JsonV::Str(d)) && time::parsed_date(d, "%Y-%m-%d"@) == Some(
        days,
    ))
}

/// Whether a boundary can be read.
pub open spec fn says_something(v: JsonV, key: Seq<char>) -> bool {
    ||| exists|secs: i64, nanos: u32| #[trigger] says_time(v, key, secs, nanos)
    ||| exists|days: i32| #[trigger] says_day(v, key, days)
}

proof fn lemma_boundary(v: JsonV, key: Seq<char>)
    ensures
        forall|secs: i64, nanos: u32| #[trigger]
            says_time(v, key, secs, nanos) ==> model::boundary_at(v, key) == When::At(
                time::Instant { secs, nanos },
            ),
        forall|days: i32| #[trigger]
            says_day(v, key, days) ==> model::boundary_at(v, key) == When::Day(Date { days }),
        !says_something(v, key) ==> model::boundary_at(v, key) == When::Unreadable,
        !(model::boundary_at(v, key) is Floating),
{
    if !says_something(v, key) && v.member(key) is Some {
        let b = v.member(key)->0;
        match b.text_at("dateTime"@) {
            Some(t) => {
                if time::rfc3339_instant(t) is Some {
                    let (secs, nanos) = time::rfc3339_instant(t)->0;
                    assert(says_time(v, key, secs, nanos));
                }
            },
            None => match b.text_at("date"@) {
                Some(d) => {
                    if time::parsed_date(d, "%Y-%m-%d"@) is Some {
                        assert(says_day(v, key, time::parsed_date(d, "%Y-%m-%d"@)->0));
                    }
                },
                None => {},
            },
        }
    }
}

/// The later of two days.
pub open spec fn later(a: int, b: int) -> int {
    if a >= b {
        a
    } else {
        b
    }
}

/// An entry becomes an event exactly where it is not cancelled, has an id, and says
/// when it starts and ends. It takes place when the entry says: at these points in
/// time, or on these days, of which the one behind the last is said.
pub proof fn law_event_is_when_its_entry_says(
    account: Seq<char>,
    calendar_id: Seq<char>,
    calendar_name: Seq<char>,
    v: JsonV,
    r: Option<EventView>,
)
    requires
        model::event_read(account, calendar_id, calendar_name, v, r),
    ensures
        r is Some <==> v.member("status"@) != Some(JsonV::Str("cancelled"@)) && (v.member(
            "id"@,
        ) matches Some(JsonV::Str(_))) && says_something(v, "start"@) && says_something(
            v,
            "end"@,
        ),
        r matches Some(e) ==> {
            &&& forall|secs: i64, nanos: u32| #[trigger]
                says_time(v, "start"@, secs, nanos) ==> !e.all_day && (e.start_time matches Some(m)
                    && m.secs == secs && m.nanos == nanos && e.start_date.days
                    == daemon_laws::day_of(m) as i32)
            &&& forall|secs: i64, nanos: u32| #[trigger]
                says_time(v, "end"@, secs, nanos) ==> (e.end_time matches Some(m) && m.secs == secs
                    && m.nanos == nanos && (!e.all_day ==> e.end_date.days == daemon_laws::day_of(
                    m,
                ) as i32))
            &&& forall|days: i32| #[trigger]
                says_day(v, "start"@, days) ==> e.all_day && e.start_time is None
                    && e.start_date.days == days
            &&& forall|days: i32| #[trigger]
                says_day(v, "end"@, days) && time::MIN_DAYS < days ==> e.end_time is None
                    && e.end_date.days == if e.all_day {
                    later(days - 1, e.start_date.days as int)
                } else {
                    days as int
                }
        },
{
    lemma_boundary(v, "start"@);
    lemma_boundary(v, "end"@);
    let (start, end) = choose|start: Option<Moment>, end: Option<Moment>| #[trigger]
        ical::local_answer(model::boundary_at(v, "start"@), start) && #[trigger] ical::local_answer(
            model::boundary_at(v, "end"@),
            end,
        ) && r == model::event_from(
            account,
            calendar_id,
            calendar_name,
            v,
            ical::placed(model::boundary_at(v, "start"@), start),
            ical::placed(model::boundary_at(v, "end"@), end),
        );
    assert(ical::placed(model::boundary_at(v, "start"@), start) is Some <==> says_something(
        v,
        "start"@,
    ));
    assert(ical::placed(model::boundary_at(v, "end"@), end) is Some <==> says_something(v, "end"@));
}

/// What an event says is what its entry says: where it was listed, its id, its title,
/// its texts without white space around them, and its guests.
pub proof fn law_event_says_what_its_entry_says(
    account: Seq<char>,
    calendar_id: Seq<char>,
    calendar_name: Seq<char>,
    v: JsonV,
    e: EventView,
)
    requires
        model::event_read(account, calendar_id, calendar_name, v, Some(e)),
    ensures
        e.account == account,
        e.calendar_id == calendar_id,
        e.calendar_name == calendar_name,
        v.member("id"@) == Some(JsonV::Str(e.id)),
        v.member("summary"@) matches Some(JsonV::Str(s)) ==> e.summary == s,
        !(v.member("summary"@) matches Some(JsonV::Str(_))) ==> e.summary == "(no title)"@,
        e.location == match v.member("location"@) {
            Some(JsonV::Str(s)) => text::non_blank(s),
            _ => None,
        },
        e.description == match v.member("description"@) {
            Some(JsonV::Str(s)) => text::non_blank(s),
            _ => None,
        },
        e.html_link == match v.member("htmlLink"@) {
            Some(JsonV::Str(s)) => text::non_blank(s),
            _ => None,
        },
        e.attendees.to_multiset() == model::guests_from(
            v.items_at("attendees"@),
        ).to_multiset(),
{
    model::law_ranking_keeps_every_guest(model::guests_from(v.items_at("attendees"@)));
}

/// Whether an entry point is the first of a video call.
pub open spec fn first_video(points: Seq<JsonV>, k: int) -> bool {
    &&& 0 <= k < points.len()
    &&& points[k].member("entryPointType"@) == Some(JsonV::Str("video"@))
    &&& forall|i: int|
        0 <= i < k ==> (#[trigger] points[i]).member("entryPointType"@) != Some(
            JsonV::Str("video"@),
        )
}

proof fn lemma_video_entry(points: Seq<JsonV>)
    ensures
        forall|k: int| #[trigger]
            first_video(points, k) ==> model::video_entry(points) == Some(points[k]),
        (forall|k: int| !#[trigger] first_video(points, k)) ==> model::video_entry(points) is None,
    decreases points.len(),
{
    if points.len() > 0 {
        let rest = points.drop_first();
        lemma_video_entry(rest);
        if points[0].member("entryPointType"@) == Some(JsonV::Str("video"@)) {
            assert(first_video(points, 0));
            assert forall|k: int| #[trigger] first_video(points, k) implies k == 0 by {
                if k > 0 {
                    assert(points[0].member("entryPointType"@) != Some(JsonV::Str("video"@)));
                }
            }
        } else {
            assert forall|k: int| #[trigger] first_video(points, k) implies model::video_entry(
                points,
            ) == Some(points[k]) by {
                assert forall|i: int| 0 <= i < k - 1 implies (#[trigger] rest[i]).member(
                    "entryPointType"@,
                ) != Some(JsonV::Str("video"@)) by {
                    assert(rest[i] == points[i + 1]);
                }
                assert(first_video(rest, k - 1));
            }
            if forall|k: int| !#[trigger] first_video(points, k) {
                assert forall|k: int| !#[trigger] first_video(rest, k) by {
                    if first_video(rest, k) {
                        assert forall|i: int| 0 <= i < k + 1 implies (#[trigger] points[i]).member(
                            "entryPointType"@,
                        ) != Some(JsonV::Str("video"@)) by {
                            if i > 0 {
                                assert(points[i] == rest[i - 1]);
                            }
                        }
                        assert(first_video(points, k + 1));
                    }
                }
            }
        }
    }
}

/// The address of the video call of an event is the link of its entry; without one it
/// is that of the first entry point that is a video call; else there is none.
pub proof fn law_video_call(
    account: Seq<char>,
    calendar_id: Seq<char>,
    calendar_name: Seq<char>,
    v: JsonV,
    e: EventView,
)
    requires
        model::event_read(account, calendar_id, calendar_name, v, Some(e)),
    ensures
        v.member("hangoutLink"@) matches Some(JsonV::Str(url)) ==> e.meet_url == Some(url),
        !(v.member("hangoutLink"@) matches Some(JsonV::Str(_))) ==> match v.member(
            "conferenceData"@,
        ) {
            None => e.meet_url is None,
            Some(c) => {
                let points = c.items_at("entryPoints"@);
                &&& forall|k: int| #[trigger]
                    first_video(points, k) ==> e.meet_url == match points[k].member("uri"@) {
                        Some(JsonV::Str(url)) => Some(url),
                        _ => None,
                    }
                &&& (forall|k: int| !#[trigger] first_video(points, k)) ==> e.meet_url is None
            },
        },
{
    if v.member("conferenceData"@) is Some {
        lemma_video_entry(v.member("conferenceData"@)->0.items_at("entryPoints"@));
    }
}

// ---------------------------------------------------------------------
// Guests
// ---------------------------------------------------------------------

/// Whether an entry of a guest list is a person of an address.
pub open spec fn person(g: JsonV, email: Seq<char>) -> bool {
    g.member("resource"@) != Some(JsonV::Bool(true)) && g.member("email"@) == Some(
        JsonV::Str(email),
    )
}

/// The guests of an event are the persons of its guest list, in their order; rooms
/// and entries without an address are none. Without an answer a guest needs action.
pub proof fn law_guests_are_the_persons(items: Seq<JsonV>, g: JsonV)
    ensures
        model::guests_from(Seq::empty()).len() == 0,
        forall|email: Seq<char>| #[trigger]
            person(g, email) ==> model::guests_from(items.push(g)) == model::guests_from(
                items,
            ).push(
                AttendeeView {
                    email,
                    name: match g.member("displayName"@) {
                        Some(JsonV::Str(s)) => Some(s),
                        _ => None,
                    },
                    status: match g.member("responseStatus"@) {
                        Some(JsonV::Str(s)) => s,
                        _ => "needsAction"@,
                    },
                    organizer: g.member("organizer"@) == Some(JsonV::Bool(true)),
                    is_self: g.member("self"@) == Some(JsonV::Bool(true)),
                },
            ),
        (forall|email: Seq<char>| !#[trigger] person(g, email)) ==> model::guests_from(
            items.push(g),
        ) == model::guests_from(items),
{
    assert(items.push(g).drop_last() == items);
    let before = model::guests_from(items);
    assert forall|email: Seq<char>| #[trigger] person(g, email) implies model::guests_from(
        items.push(g),
    ) == before.push(
        AttendeeView {
            email,
            name: match g.member("displayName"@) {
                Some(JsonV::Str(s)) => Some(s),
                _ => None,
            },
            status: match g.member("responseStatus"@) {
                Some(JsonV::Str(s)) => s,
                _ => "needsAction"@,
            },
            organizer: g.member("organizer"@) == Some(JsonV::Bool(true)),
            is_self: g.member("self"@) == Some(JsonV::Bool(true)),
        },
    ) by {
        let a = model::guest_from(g)->0;
        assert(model::guest_from(g) is Some);
        assert(before + seq![a] == before.push(a));
    }
    if forall|email: Seq<char>| !#[trigger] person(g, email) {
        if model::guest_from(g) is Some {
            assert(person(g, model::guest_from(g)->0.email));
        }
    }
}

/// The place of a guest in the list: organizers first, and among equals the account
/// itself.
pub open spec fn rank(g: AttendeeView) -> int {
    (if g.organizer {
        0int
    } else {
        2
    }) + (if g.is_self {
        0int
    } else {
        1
    })
}

/// Guests are listed by rank.
pub proof fn law_guests_are_listed_by_rank(guests: Seq<AttendeeView>, i: int, j: int)
    requires
        0 <= i < j < model::ranked(guests).len(),
    ensures
        rank(model::ranked(guests)[i]) <= rank(model::ranked(guests)[j]),
{
    let a = model::guests_that(guests, true, true);
    let b = model::guests_that(guests, true, false);
    let c = model::guests_that(guests, false, true);
    let d = model::guests_that(guests, false, false);
    lemma_rank_at(guests, i);
    lemma_rank_at(guests, j);
}

proof fn lemma_rank_at(guests: Seq<AttendeeView>, i: int)
    requires
        0 <= i < model::ranked(guests).len(),
    ensures
        ({
            let a = model::guests_that(guests, true, true).len();
            let b = model::guests_that(guests, true, false).len();
            let c = model::guests_that(guests, false, true).len();
            rank(model::ranked(guests)[i]) == if i < a {
                0
            } else if i < a + b {
                1
            } else if i < a + b + c {
                2
            } else {
                3int
            }
        }),
{
    model::lemma_guests_that(guests, true, true);
    model::lemma_guests_that(guests, true, false);
    model::lemma_guests_that(guests, false, true);
    model::lemma_guests_that(guests, false, false);
    let a = model::guests_that(guests, true, true);
    let b = model::guests_that(guests, true, false);
    let c = model::guests_that(guests, false, true);
    let d = model::guests_that(guests, false, false);
    let r = model::ranked(guests);
    if i < a.len() {
        assert(r[i] == a[i]);
    } else if i < a.len() + b.len() {
        assert(r[i] == b[i - a.len()]);
    } else if i < a.len() + b.len() + c.len() {
        assert(r[i] == c[i - a.len() - b.len()]);
    } else {
        assert(r[i] == d[i - a.len() - b.len() - c.len()]);
    }
}

/// A guest that comes last stands behind all of its rank: guests of one rank keep
/// their order.
pub proof fn law_later_guest_stands_behind_its_rank(guests: Seq<AttendeeView>, g: AttendeeView)
    ensures
        exists|k: int|
            {
                &&& 0 <= k <= model::ranked(guests).len()
                &&& model::ranked(guests.push(g)) == #[trigger] model::ranked(guests).insert(k, g)
                &&& forall|i: int|
                    0 <= i < k ==> rank(#[trigger] model::ranked(guests)[i]) <= rank(g)
                &&& forall|i: int|
                    k <= i < model::ranked(guests).len() ==> rank(
                        #[trigger] model::ranked(guests)[i],
                    ) > rank(g)
            },
{
    model::lemma_guests_push(guests, g, true, true);
    model::lemma_guests_push(guests, g, true, false);
    model::lemma_guests_push(guests, g, false, true);
    model::lemma_guests_push(guests, g, false, false);
    let a = model::guests_that(guests, true, true).len() as int;
    let b = model::guests_that(guests, true, false).len() as int;
    let c = model::guests_that(guests, false, true).len() as int;
    let r = model::ranked(guests);
    let k = if rank(g) == 0 {
        a
    } else if rank(g) == 1 {
        a + b
    } else if rank(g) == 2 {
        a + b + c
    } else {
        r.len() as int
    };
    assert(model::ranked(guests.push(g)) == r.insert(k, g));
    assert forall|i: int| 0 <= i < r.len() implies (i < k <==> rank(#[trigger] r[i]) <= rank(g)) by {
        lemma_rank_at(guests, i);
    }
}

// ---------------------------------------------------------------------
// Calendars, task lists and tasks
// ---------------------------------------------------------------------

/// A calendar is what its entry says; without an id there is none. What may not be
/// written is said not to be the account's own unless the entry says so.
pub proof fn law_calendar_is_what_its_entry_says(account: Seq<char>, v: JsonV)
    ensures
        model::calendar_from(account, v) is Some <==> (v.member("id"@) matches Some(JsonV::Str(_))),
        model::calendar_from(account, v) matches Some(c) ==> {
            &&& c.account == account
            &&& v.member("id"@) == Some(JsonV::Str(c.id))
            &&& c.summary == match v.member("summary"@) {
                Some(JsonV::Str(s)) => s,
                _ => Seq::empty(),
            }
            &&& c.access_role == match v.member("accessRole"@) {
                Some(JsonV::Str(s)) => s,
                _ => "reader"@,
            }
            &&& c.primary == (v.member("primary"@) == Some(JsonV::Bool(true)))
            &&& c.default_reminder_mins == model::popup_minutes(v.items_at("defaultReminders"@))
        },
{
    reveal_strlit("");
    assert(""@ == Seq::<char>::empty());
}

/// A task list is what its entry says; without an id there is none.
pub proof fn law_task_list_is_what_its_entry_says(account: Seq<char>, v: JsonV)
    ensures
        model::tasklist_from(account, v) is Some <==> (v.member("id"@) matches Some(JsonV::Str(_))),
        model::tasklist_from(account, v) matches Some(t) ==> {
            &&& t.account == account
            &&& v.member("id"@) == Some(JsonV::Str(t.id))
            &&& t.title == match v.member("title"@) {
                Some(JsonV::Str(s)) => s,
                _ => Seq::empty(),
            }
        },
{
    reveal_strlit("");
    assert(""@ == Seq::<char>::empty());
}

/// A task is what its entry says; without an id there is none. Its due day is what
/// the first ten octets of the due time say.
pub proof fn law_task_is_what_its_entry_says(
    account: Seq<char>,
    list: Seq<char>,
    title: Seq<char>,
    v: JsonV,
    day: Seq<char>,
    rest: Seq<char>,
)
    ensures
        model::task_from(account, list, title, v) is Some <==> (v.member("id"@) matches Some(
            JsonV::Str(_),
        )),
        model::task_from(account, list, title, v) matches Some(t) ==> {
            &&& t.account == account && t.tasklist_id == list && t.tasklist_title == title
            &&& v.member("id"@) == Some(JsonV::Str(t.id))
            &&& t.title == match v.member("title"@) {
                Some(JsonV::Str(s)) => match text::non_blank(s) {
                    Some(s) => s,
                    None => "(untitled)"@,
                },
                _ => "(untitled)"@,
            }
            &&& t.notes == match v.member("notes"@) {
                Some(JsonV::Str(s)) => text::non_blank(s),
                _ => None,
            }
            &&& t.completed == (v.member("status"@) == Some(JsonV::Str("completed"@)))
            &&& !(v.member("due"@) matches Some(JsonV::Str(_))) ==> t.due is None
            &&& v.member("due"@) == Some(JsonV::Str(day + rest)) && text::octets(day) == 10
                ==> t.due == match time::parsed_date(day, "%Y-%m-%d"@) {
                Some(days) => Some(Date { days }),
                None => None,
            }
            &&& v.member("due"@) == Some(JsonV::Str(day)) && text::octets(day) <= 10 ==> t.due
                == match time::parsed_date(day, "%Y-%m-%d"@) {
                Some(days) => Some(Date { days }),
                None => None,
            }
        },
{
    if text::octets(day) == 10 {
        gws::lemma_due_prefix(day, rest);
    }
    text::lemma_fitting(day, 10);
    assert(day.take(day.len() as int) == day);
}

/// A due time can be cut behind the day where it has no more than ten octets, or where
/// a character ends at the tenth; the tasks of a list can be read where the due time
/// of each can be cut.
pub proof fn law_due_times_that_can_be_cut(
    s: Seq<char>,
    k: int,
    v: JsonV,
    answers: Seq<Result<JsonV, Seq<char>>>,
)
    ensures
        text::octets(s) <= 10 ==> model::cuttable(s),
        0 <= k <= s.len() && text::octets(s.take(k)) == 10 ==> model::cuttable(s),
        text::octets(s) > 10 && (forall|j: int|
            0 <= j <= s.len() ==> text::octets(#[trigger] s.take(j)) != 10) ==> !model::cuttable(s),
        model::due_cuttable(v) <==> (v.member("due"@) matches Some(JsonV::Str(due))
            ==> model::cuttable(due)),
        v.member("items"@) matches Some(JsonV::Array(items)) ==> (gws::tasks_cuttable(v)
            <==> forall|i: int|
            0 <= i < items.len() ==> model::due_cuttable(#[trigger] items[i])),
        !(v.member("items"@) matches Some(JsonV::Array(_))) ==> gws::tasks_cuttable(v),
        gws::answers_cuttable(answers) <==> forall|i: int|
            0 <= i < answers.len() ==> ((#[trigger] answers[i]) matches Ok(a)
                ==> gws::tasks_cuttable(a)),
{
    text::lemma_fitting(s, 10);
    let n = text::fitting(s, 10) as int;
    if 0 <= k <= s.len() && text::octets(s.take(k)) == 10 {
        let day = s.take(k);
        let rest = s.skip(k);
        assert(s == day + rest);
        gws::lemma_due_prefix(day, rest);
    }
    assert(model::due_prefix(s) == s.take(n));
    if let Some(JsonV::Array(items)) = v.member("items"@) {
        assert(v.items_at("items"@) == items);
    }
}

} // verus!
