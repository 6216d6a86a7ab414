//! Laws of calendar objects: what the properties of an event, of a task and of an
//! alarm say.

use vstd::prelude::*;

use crate::backend::{EventDraftView, TaskDraftView};
use crate::daemon_laws;
use crate::ical;
use crate::ical::{EventV, Minutes, PropertyV, When};
use crate::ics;
use crate::model;
use crate::model::{AttendeeView, EventView, TaskView};
use crate::nextcloud_laws;
use crate::reading_laws;
use crate::roundtrip;
use crate::text;
use crate::time;
use crate::time::{Date, Instant, Moment};

verus! {

// ---------------------------------------------------------------------
// Texts
// ---------------------------------------------------------------------

/// A backslash takes the meaning off the character behind it, but for `n`, which
/// stands for a line feed in either case; every other character stands for itself.
pub proof fn law_unescaping(c: char, rest: Seq<char>)
    ensures
        ics::unescaped(Seq::empty()) == Seq::<char>::empty(),
        c != '\\' ==> ics::unescaped(seq![c] + rest) == seq![c] + ics::unescaped(rest),
        ics::unescaped(seq!['\\', c] + rest) == seq![
            if c == 'n' || c == 'N' {
                '\n'
            } else {
                c
            },
        ] + ics::unescaped(rest),
{
    assert((seq![c] + rest).drop_first() == rest);
    assert((seq!['\\', c] + rest).skip(2) == rest);
}

/// A text is written with a backslash before each mark that means something, and a
/// line feed as a letter behind one.
pub proof fn law_escaping(c: char, rest: Seq<char>)
    ensures
        ics::escaped(Seq::empty()) == Seq::<char>::empty(),
        ics::escaped(seq![c] + rest) == (if c == '\\' || c == ',' || c == ';' {
            seq!['\\', c]
        } else if c == '\n' {
            seq!['\\', 'n']
        } else {
            seq![c]
        }) + ics::escaped(rest),
{
    assert((seq![c] + rest).drop_first() == rest);
}

/// The octets that a physical line has for its piece: a continuation line starts with
/// a space.
pub open spec fn room(i: int) -> int {
    if i == 0 {
        75
    } else {
        74
    }
}

proof fn lemma_full_pieces(line: Seq<char>, first: int)
    requires
        first == 75 || first == 74,
    ensures
        ({
            let ps = ics::pieces(line, first);
            forall|i: int|
                0 <= i < ps.len() - 1 ==> #[trigger] ps[i].len() > 0 && ps[i + 1].len() > 0
                    && text::octets(ps[i].push(ps[i + 1][0])) > (if i == 0 {
                    first
                } else {
                    74
                })
        }),
    decreases line.len(),
{
    text::lemma_fitting(line, first);
    let k = text::fitting(line, first) as int;
    let ps = ics::pieces(line, first);
    if !(text::octets(line) <= first || k <= 0 || k > line.len()) {
        let rest = line.skip(k);
        let qs = ics::pieces(rest, 74);
        lemma_full_pieces(rest, 74);
        text::lemma_fitting(rest, 74);
        assert(rest.len() > 0);
        assert(qs[0].len() > 0 && qs[0][0] == line[k]) by {
            let m = text::fitting(rest, 74) as int;
            if text::octets(rest) <= 74 || m <= 0 || m > rest.len() {
                assert(qs[0] == rest);
            } else {
                assert(qs[0] == rest.take(m));
            }
        }
        assert(ps == seq![line.take(k)] + qs);
        assert(line.take(k).push(line[k]) == line.take(k + 1));
        assert forall|i: int| 0 <= i < ps.len() - 1 implies #[trigger] ps[i].len() > 0 && ps[i
            + 1].len() > 0 && text::octets(ps[i].push(ps[i + 1][0])) > (if i == 0 {
            first
        } else {
            74
        }) by {
            if i > 0 {
                assert(ps[i] == qs[i - 1]);
                assert(ps[i + 1] == qs[i]);
            } else {
                assert(ps[1] == qs[0]);
            }
        }
    }
}

/// A content line is written on as few physical lines as can be: each takes at most 75
/// octets, the space in front of a continuation counted in, and each but the last has
/// no room for the next character. The pieces make up the line, and between two of them
/// stands a line break with a space.
pub proof fn law_folding(line: Seq<char>)
    ensures
        ({
            let ps = ics::line_pieces(line);
            &&& ps.len() > 0
            &&& text::flat(ps) == line
            &&& ics::folded(line) == text::joined(ps, seq!['\r', '\n', ' ']) + seq!['\r', '\n']
            &&& forall|i: int| 0 <= i < ps.len() ==> text::octets(#[trigger] ps[i]) <= room(i)
            &&& forall|i: int|
                0 <= i < ps.len() - 1 ==> #[trigger] ps[i].len() > 0 && ps[i + 1].len() > 0
                    && text::octets(ps[i].push(ps[i + 1][0])) > room(i)
        }),
{
    lemma_full_pieces(line, 75);
    ics::lemma_pieces(line, 75);
}

// ---------------------------------------------------------------------
// Dates and times
// ---------------------------------------------------------------------

/// The days and the points in time that can be told lie between the first second of the
/// first day and the last second of the last one.
pub proof fn law_limits(d: Date, t: Instant, m: Moment)
    ensures
        d.valid() <==> -95_746_129 <= d.days <= 95_745_399,
        t.valid() <==> (-95_746_129 - 719_163) * 86_400 <= t.secs < (95_745_399 - 719_163 + 1)
            * 86_400 && t.nanos < 2_000_000_000,
        m.valid() <==> (Instant { secs: m.secs, nanos: m.nanos }).valid() && -86_400 < m.offset
            < 86_400,
        m.at() == (Instant { secs: m.secs, nanos: m.nanos }),
        m.local_days() == (m.secs + m.offset) / 86_400 + 719_163,
        m.second_of_day() == (m.secs + m.offset) % 86_400,
{
}

/// A draft of an event can be written where it has what its kind needs: days, with one
/// more behind the last, or a start and an end.
pub proof fn law_ready(d: EventDraftView, t: TaskDraftView)
    ensures
        d.all_day ==> (d.ready() <==> -95_746_129 <= d.start_date.days <= 95_745_399
            && -95_746_129 <= d.end_date.days < 95_745_399),
        !d.all_day ==> (d.ready() <==> d.start_time is Some && d.end_time is Some
            && d.start_time->0.valid() && d.end_time->0.valid()),
        t.ready() <==> (t.due is Some ==> -95_746_129 <= t.due->0.days <= 95_745_399),
{
}

/// Whether a property says a day: it says so itself, or its value is eight digits.
pub open spec fn day_value(p: PropertyV, v: Seq<char>) -> bool {
    p.value == Some(v) && (nextcloud_laws::has_param(p, "VALUE"@, "DATE"@) || (v.len() == 8
        && forall|i: int| 0 <= i < 8 ==> '0' <= #[trigger] v[i] <= '9'))
}

/// Whether a property names a zone that is known.
pub open spec fn in_zone(p: PropertyV, id: Seq<char>) -> bool {
    nextcloud_laws::has_param(p, "TZID"@, id) && time::zone_exists(id)
}

/// What a date property says: a day; a time that ends in `Z`, in UTC; a time on the
/// clocks of the zone that it names; else a reading of the local clock. What cannot
/// be read says nothing.
pub proof fn law_date_property(p: PropertyV, v: Seq<char>)
    requires
        p.value == Some(v),
    ensures
        day_value(p, v) ==> ical::moment_meaning(p) == match time::parsed_date(v, "%Y%m%d"@) {
            Some(days) => When::Day(Date { days }),
            None => When::Unreadable,
        },
        !day_value(p, v) && v.len() > 0 && v.last() == 'Z' ==> ical::moment_meaning(p)
            == match time::parsed_stamp(v.drop_last()) {
            Some((secs, nanos)) => When::At(Instant { secs, nanos }),
            None => When::Unreadable,
        },
        !day_value(p, v) && !(v.len() > 0 && v.last() == 'Z') ==> match time::parsed_stamp(v) {
            None => ical::moment_meaning(p) == When::Unreadable,
            Some((secs, nanos)) => {
                &&& forall|id: Seq<char>| #[trigger]
                    in_zone(p, id) ==> ical::moment_meaning(p) == match time::zone_instant(
                        id,
                        secs,
                    ) {
                        Some(at) => When::At(Instant { secs: at, nanos }),
                        None => When::Unreadable,
                    }
                &&& (forall|id: Seq<char>| !#[trigger] in_zone(p, id)) ==> ical::moment_meaning(p)
                    == When::Floating(Instant { secs, nanos })
            },
        },
{
    nextcloud_laws::law_parameter_is_found_by_its_key(p, "VALUE"@, "DATE"@);
    assert(ical::eight_digits(v) <==> v.len() == 8 && forall|i: int|
        0 <= i < 8 ==> '0' <= #[trigger] v[i] <= '9');
    assert forall|id: Seq<char>| #[trigger] in_zone(p, id) implies ical::param_of(p, "TZID"@)
        == Some(id) by {
        nextcloud_laws::law_parameter_is_found_by_its_key(p, "TZID"@, id);
    }
    if ical::param_of(p, "TZID"@) is Some {
        let id = ical::param_of(p, "TZID"@)->0;
        nextcloud_laws::law_parameter_is_found_by_its_key(p, "TZID"@, id);
        if time::zone_exists(id) {
            assert(in_zone(p, id));
        }
    }
}

/// Of several date properties of a name the first counts; without one, and without a
/// value, nothing is said.
pub proof fn law_first_date_property(props: Seq<PropertyV>, name: Seq<char>)
    ensures
        forall|k: int| #[trigger]
            nextcloud_laws::first_of_name(props, name, k) ==> model::moment_at(props, name)
                == ical::moment_meaning(props[k]) && (props[k].value is None ==> model::moment_at(
                props,
                name,
            ) == When::Unreadable),
        (forall|k: int| !#[trigger] nextcloud_laws::first_of_name(props, name, k))
            ==> model::moment_at(props, name) == When::Unreadable,
{
    nextcloud_laws::law_first_of_a_name(props, name);
}

// ---------------------------------------------------------------------
// Durations and alarms
// ---------------------------------------------------------------------

/// A number and the letter of its unit, where it is said.
pub open spec fn part(said: bool, n: nat, unit: char) -> Seq<char> {
    if said {
        text::numeral(n).push(unit)
    } else {
        Seq::empty()
    }
}

/// The number of a part that is said.
pub open spec fn amount(said: bool, n: nat) -> int {
    if said {
        n as int
    } else {
        0
    }
}

proof fn lemma_number(n: nat)
    requires
        n <= i64::MAX,
    ensures
        ical::number(text::numeral(n)) == Some(n as int),
        text::numeral(n).len() > 0,
        forall|i: int|
            0 <= i < text::numeral(n).len() ==> '0' <= #[trigger] text::numeral(n)[i] <= '9',
{
    roundtrip::lemma_numeral(n);
    let s = text::numeral(n);
    assert forall|i: int| 0 <= i < s.len() implies '0' <= #[trigger] s[i] <= '9' by {
        assert(text::is_digit(s[i]));
    }
    assert(text::is_digit(s[0]));
}

/// A time part is the sum of its hours, its minutes and the whole minutes of its
/// seconds.
proof fn lemma_time_part(
    sum: i64,
    h: nat,
    m: nat,
    s: nat,
    has_h: bool,
    has_m: bool,
    has_s: bool,
)
    requires
        sum >= 0,
        h <= i64::MAX && m <= i64::MAX && s <= i64::MAX,
        sum + amount(has_h, h) * 60 + amount(has_m, m) + amount(has_s, s) / 60 <= i64::MAX,
    ensures
        ical::time_minutes(
            Minutes::Exactly(sum),
            part(has_h, h, 'H') + part(has_m, m, 'M') + part(has_s, s, 'S'),
        ) == Minutes::Exactly(
            (sum + amount(has_h, h) * 60 + amount(has_m, m) + amount(has_s, s) / 60) as i64,
        ),
{
    let a = part(has_h, h, 'H');
    let b = part(has_m, m, 'M');
    let c = part(has_s, s, 'S');
    let all = a + b + c;
    lemma_number(h);
    lemma_number(m);
    lemma_number(s);
    lemma_part_chars(has_h, h, 'H');
    lemma_part_chars(has_m, m, 'M');
    lemma_part_chars(has_s, s, 'S');
    let rest = b + c;
    if has_h {
        let k = text::numeral(h).len() as int;
        assert forall|j: int| 0 <= j < k implies all[j] != 'H' by {
            assert(all[j] == a[j]);
        }
        assert(all[k] == a[k]);
        ical::lemma_before(all, 'H', k);
        assert(all.take(k) == text::numeral(h));
        assert(all.skip(k + 1) == rest);
    } else {
        assert(all == rest);
        assert forall|j: int| 0 <= j < all.len() implies all[j] != 'H' by {
            if j < b.len() {
                assert(all[j] == b[j]);
            } else {
                assert(all[j] == c[j - b.len()]);
            }
        }
        ical::lemma_before(all, 'H', all.len() as int);
    }
    let sum1 = (sum + amount(has_h, h) * 60) as i64;
    if has_m {
        let k = text::numeral(m).len() as int;
        assert forall|j: int| 0 <= j < k implies rest[j] != 'M' by {
            assert(rest[j] == b[j]);
        }
        assert(rest[k] == b[k]);
        ical::lemma_before(rest, 'M', k);
        assert(rest.take(k) == text::numeral(m));
        assert(rest.skip(k + 1) == c);
    } else {
        assert(rest == c);
        assert forall|j: int| 0 <= j < rest.len() implies rest[j] != 'M' by {
            assert(rest[j] == c[j]);
        }
        ical::lemma_before(rest, 'M', rest.len() as int);
    }
    if has_s {
        assert(c.drop_last() == text::numeral(s));
        assert(c[0] == text::numeral(s)[0]);
    }
}

proof fn lemma_part_chars(said: bool, n: nat, unit: char)
    requires
        n <= i64::MAX,
    ensures
        forall|i: int|
            0 <= i < part(said, n, unit).len() ==> ('0' <= #[trigger] part(said, n, unit)[i] <= '9'
                || part(said, n, unit)[i] == unit),
{
    lemma_number(n);
    let p = part(said, n, unit);
    assert forall|i: int| 0 <= i < p.len() implies ('0' <= #[trigger] p[i] <= '9' || p[i] == unit) by {
        if i < p.len() - 1 {
            assert(p[i] == text::numeral(n)[i]);
        }
    }
}

/// A duration in weeks is that many times seven days.
pub proof fn law_weeks(w: nat)
    requires
        w * 10_080 <= i64::MAX,
    ensures
        ical::duration_meaning(seq!['P'] + part(true, w, 'W')) == Minutes::Exactly(
            (w * 10_080) as i64,
        ),
{
    lemma_number(w);
    let weeks = part(true, w, 'W');
    let x = seq!['P'] + weeks;
    assert(x[0] == 'P');
    assert(x.drop_first() == weeks);
    assert(weeks.drop_last() == text::numeral(w));
}

/// A duration in days is that many days, in minutes; one that says nothing is none.
pub proof fn law_days(d: nat, has_d: bool)
    requires
        d <= i64::MAX,
        amount(has_d, d) * 1_440 <= i64::MAX,
    ensures
        ical::duration_meaning(seq!['P'] + part(has_d, d, 'D')) == Minutes::Exactly(
            (amount(has_d, d) * 1_440) as i64,
        ),
{
    lemma_number(d);
    lemma_part_chars(has_d, d, 'D');
    let days = part(has_d, d, 'D');
    let y = seq!['P'] + days;
    assert(y[0] == 'P');
    assert(y.drop_first() == days);
    ical::lemma_before(days, 'T', days.len() as int);
    assert(days.take(days.len() as int) == days);
    if has_d {
        assert(days.drop_last() == text::numeral(d));
        assert(days.last() == 'D');
    }
}

/// A duration with a time is the sum of its days, hours, minutes and the whole minutes
/// of its seconds, in minutes.
pub proof fn law_duration(
    d: nat,
    h: nat,
    m: nat,
    s: nat,
    has_d: bool,
    has_h: bool,
    has_m: bool,
    has_s: bool,
)
    requires
        d <= i64::MAX && h <= i64::MAX && m <= i64::MAX && s <= i64::MAX,
        amount(has_d, d) * 1_440 + amount(has_h, h) * 60 + amount(has_m, m) + amount(has_s, s)
            <= i64::MAX,
    ensures
        ical::duration_meaning(
            seq!['P'] + part(has_d, d, 'D') + seq!['T'] + (part(has_h, h, 'H') + part(
                has_m,
                m,
                'M',
            ) + part(has_s, s, 'S')),
        ) == Minutes::Exactly(
            (amount(has_d, d) * 1_440 + amount(has_h, h) * 60 + amount(has_m, m) + amount(has_s, s)
                / 60) as i64,
        ),
{
    let days = part(has_d, d, 'D');
    let t = part(has_h, h, 'H') + part(has_m, m, 'M') + part(has_s, s, 'S');
    lemma_part_chars(has_d, d, 'D');
    if t.len() > 0 {
        lemma_time_chars(h, m, s, has_h, has_m, has_s, t.len() - 1);
    }
    lemma_parts(days, t);
    lemma_days_sum(d, has_d);
    lemma_time_part((amount(has_d, d) * 1_440) as i64, h, m, s, has_h, has_m, has_s);
}

/// What the days of a duration say.
spec fn days_sum(days: Seq<char>) -> Minutes {
    if days.len() == 0 {
        Minutes::Exactly(0)
    } else if days.last() == 'D' {
        ical::counted(Minutes::Exactly(0), days.drop_last(), 1_440)
    } else {
        Minutes::Unreadable
    }
}

proof fn lemma_days_sum(d: nat, has_d: bool)
    requires
        d <= i64::MAX,
        amount(has_d, d) * 1_440 <= i64::MAX,
    ensures
        days_sum(part(has_d, d, 'D')) == Minutes::Exactly((amount(has_d, d) * 1_440) as i64),
{
    lemma_number(d);
    if has_d {
        assert(part(has_d, d, 'D').drop_last() == text::numeral(d));
    }
}

proof fn lemma_parts(days: Seq<char>, t: Seq<char>)
    requires
        forall|j: int| 0 <= j < days.len() ==> days[j] != 'T',
        t.len() > 0 ==> t[t.len() - 1] != 'W',
    ensures
        ical::duration_meaning(seq!['P'] + days + seq!['T'] + t) == ical::time_minutes(
            days_sum(days),
            t,
        ),
{
    let rest = days + seq!['T'] + t;
    let z = seq!['P'] + days + seq!['T'] + t;
    assert(z[0] == 'P');
    assert(z.drop_first() == rest);
    let k = days.len() as int;
    assert(rest[k] == 'T');
    ical::lemma_before(rest, 'T', k);
    assert(rest.take(k) == days);
    assert(rest.skip(k + 1) == t);
    if t.len() > 0 {
        assert(rest.last() == t[t.len() - 1]);
    }
}

proof fn lemma_time_chars(
    h: nat,
    m: nat,
    s: nat,
    has_h: bool,
    has_m: bool,
    has_s: bool,
    i: int,
)
    requires
        h <= i64::MAX && m <= i64::MAX && s <= i64::MAX,
        0 <= i < (part(has_h, h, 'H') + part(has_m, m, 'M') + part(has_s, s, 'S')).len(),
    ensures
        (part(has_h, h, 'H') + part(has_m, m, 'M') + part(has_s, s, 'S'))[i] != 'W',
{
    lemma_part_chars(has_h, h, 'H');
    lemma_part_chars(has_m, m, 'M');
    lemma_part_chars(has_s, s, 'S');
    let a = part(has_h, h, 'H');
    let b = part(has_m, m, 'M');
    let c = part(has_s, s, 'S');
    let t = a + b + c;
    if i < a.len() {
        assert(t[i] == a[i]);
    } else if i < a.len() + b.len() {
        assert(t[i] == b[i - a.len()]);
    } else {
        assert(t[i] == c[i - a.len() - b.len()]);
    }
}

/// A minus in front makes a duration go back; a plus changes nothing.
pub proof fn law_sign_of_a_duration(rest: Seq<char>)
    requires
        rest.len() > 0,
        rest[0] == 'P',
    ensures
        ical::duration_meaning(rest) matches Minutes::Exactly(n) ==> (n > i64::MIN
            ==> ical::duration_meaning(seq!['-'] + rest) == Minutes::Exactly((-n) as i64)),
        ical::duration_meaning(seq!['+'] + rest) == ical::duration_meaning(rest),
        ical::duration_meaning(rest) == Minutes::Unreadable ==> ical::duration_meaning(
            seq!['-'] + rest,
        ) == Minutes::Unreadable,
{
    assert((seq!['-'] + rest).drop_first() == rest);
    assert((seq!['+'] + rest).drop_first() == rest);
    assert(ical::without_signs(rest) == rest);
    assert(ical::without_signs(seq!['-'] + rest) == rest);
    assert(ical::without_signs(seq!['+'] + rest) == rest);
}

/// What does not start with a `P`, behind its signs, is no duration; nor is one whose
/// days, before the `T`, do not end with a `D`, or one whose days or weeks are no
/// number.
pub proof fn law_no_duration(s: Seq<char>, days: Seq<char>, t: Seq<char>)
    ensures
        s.len() == 0 ==> ical::duration_meaning(s) == Minutes::Unreadable,
        s.len() > 0 && s[0] != 'P' && s[0] != '+' && s[0] != '-' ==> ical::duration_meaning(s)
            == Minutes::Unreadable,
        s.len() == 1 && s[0] != 'P' ==> ical::duration_meaning(s) == Minutes::Unreadable,
        s.len() > 1 && (s[0] == '+' || s[0] == '-') && s[1] != 'P' && s[1] != '+' && s[1] != '-'
            ==> ical::duration_meaning(s) == Minutes::Unreadable,
        days.len() > 0 && (days.last() != 'D' || ical::number(days.drop_last()) is None) && (forall|
            j: int,
        |
            0 <= j < days.len() ==> days[j] != 'T') && (t.len() > 0 ==> t.last() != 'W')
            ==> ical::duration_meaning(seq!['P'] + days + seq!['T'] + t) == Minutes::Unreadable,
        ical::number(days) is None ==> ical::duration_meaning(seq!['P'] + days.push('W'))
            == Minutes::Unreadable,
{
    reveal_with_fuel(ical::without_signs, 3);
    if s.len() > 0 {
        assert(s.drop_first().len() == s.len() - 1);
        if s.len() > 1 {
            assert(s.drop_first()[0] == s[1]);
        }
    }
    if days.len() > 0 && (forall|j: int| 0 <= j < days.len() ==> days[j] != 'T') && (t.len() > 0
        ==> t.last() != 'W') {
        lemma_parts(days, t);
    }
    let w = seq!['P'] + days.push('W');
    assert(w[0] == 'P');
    assert(w.drop_first() == days.push('W'));
    assert(days.push('W').drop_last() == days);
}

/// Whether an alarm is one that is shown or heard.
pub open spec fn pops_up(alarm: Seq<PropertyV>) -> bool {
    exists|k: int| #[trigger]
        nextcloud_laws::first_of_name(alarm, "ACTION"@, k) && (alarm[k].value == Some("DISPLAY"@)
            || alarm[k].value == Some("AUDIO"@))
}

/// Whether an alarm rings some minutes before the start: its trigger is a duration
/// that leads there from the start.
pub open spec fn rings_before(alarm: Seq<PropertyV>, minutes: int) -> bool {
    exists|k: int, v: Seq<char>|
        {
            &&& #[trigger] nextcloud_laws::first_of_name(alarm, "TRIGGER"@, k)
            &&& alarm[k].value == Some(v)
            &&& !nextcloud_laws::has_param(alarm[k], "VALUE"@, "DATE-TIME"@)
            &&& #[trigger] ical::duration_meaning(v) == Minutes::Exactly((-minutes) as i64)
        }
}

/// An alarm counts where it is shown or heard and its trigger is a duration, not a
/// fixed time; it counts with the minutes by which it comes before the start.
pub proof fn law_alarm(alarm: Seq<PropertyV>, minutes: int)
    requires
        i64::MIN < minutes <= i64::MAX,
    ensures
        pops_up(alarm) && rings_before(alarm, minutes) ==> ical::alarm_meaning(alarm)
            == Minutes::Exactly(minutes as i64),
        !pops_up(alarm) ==> ical::alarm_meaning(alarm) == Minutes::Unreadable,
        ical::alarm_meaning(alarm) == Minutes::Exactly(minutes as i64) ==> pops_up(alarm)
            && rings_before(alarm, minutes),
{
    nextcloud_laws::law_first_of_a_name(alarm, "ACTION"@);
    nextcloud_laws::law_first_of_a_name(alarm, "TRIGGER"@);
    if exists|k: int| #[trigger] nextcloud_laws::first_of_name(alarm, "TRIGGER"@, k) {
        let k = choose|k: int| #[trigger] nextcloud_laws::first_of_name(alarm, "TRIGGER"@, k);
        nextcloud_laws::law_parameter_is_found_by_its_key(alarm[k], "VALUE"@, "DATE-TIME"@);
        if ical::alarm_meaning(alarm) == Minutes::Exactly(minutes as i64) {
            let v = alarm[k].value->0;
            assert(ical::duration_meaning(v) == Minutes::Exactly((-minutes) as i64));
        }
    }
    if rings_before(alarm, minutes) {
        let (k, v) = choose|k: int, v: Seq<char>|
            {
                &&& #[trigger] nextcloud_laws::first_of_name(alarm, "TRIGGER"@, k)
                &&& alarm[k].value == Some(v)
                &&& !nextcloud_laws::has_param(alarm[k], "VALUE"@, "DATE-TIME"@)
                &&& #[trigger] ical::duration_meaning(v) == Minutes::Exactly((-minutes) as i64)
            };
        nextcloud_laws::law_parameter_is_found_by_its_key(alarm[k], "VALUE"@, "DATE-TIME"@);
        assert(ical::first_named(alarm, "TRIGGER"@) == Some(alarm[k]));
    }
    if ical::alarm_meaning(alarm) != Minutes::Unreadable {
        let k = choose|k: int| #[trigger] nextcloud_laws::first_of_name(alarm, "ACTION"@, k);
        assert(nextcloud_laws::first_of_name(alarm, "ACTION"@, k));
    }
    if pops_up(alarm) {
        let k = choose|k: int| #[trigger]
            nextcloud_laws::first_of_name(alarm, "ACTION"@, k) && (alarm[k].value == Some(
                "DISPLAY"@,
            ) || alarm[k].value == Some("AUDIO"@));
        assert(ical::value_of(alarm, "ACTION"@) == alarm[k].value);
    }
}

/// The reminders of an event are the alarms that count, in their order.
pub proof fn law_alarms_count(alarms: Seq<Seq<PropertyV>>, alarm: Seq<PropertyV>)
    ensures
        model::alarm_mins(Seq::empty()).len() == 0,
        ical::alarm_meaning(alarm) matches Minutes::Exactly(n) ==> model::alarm_mins(
            alarms.push(alarm),
        ) == model::alarm_mins(alarms).push(n),
        !(ical::alarm_meaning(alarm) is Exactly) ==> model::alarm_mins(alarms.push(alarm))
            == model::alarm_mins(alarms),
{
    assert(alarms.push(alarm).drop_last() == alarms);
    if ical::alarm_meaning(alarm) is Exactly {
        let n = ical::alarm_meaning(alarm)->Exactly_0;
        assert(model::alarm_mins(alarms) + seq![n] == model::alarm_mins(alarms).push(n));
    }
}

// ---------------------------------------------------------------------
// Events and tasks
// ---------------------------------------------------------------------

/// Whether `s` is what the first property of a name says, unescaped.
pub open spec fn said(props: Seq<PropertyV>, name: Seq<char>, s: Seq<char>) -> bool {
    exists|k: int, v: Seq<char>| #[trigger]
        nextcloud_laws::first_of_name(props, name, k) && props[k].value == Some(v)
            && s == #[trigger] ics::unescaped(v)
}

/// Whether a property of a name says nothing.
pub open spec fn unsaid(props: Seq<PropertyV>, name: Seq<char>) -> bool {
    forall|k: int| #[trigger]
        nextcloud_laws::first_of_name(props, name, k) ==> props[k].value is None
}

proof fn lemma_said(props: Seq<PropertyV>, name: Seq<char>)
    ensures
        forall|s: Seq<char>| #[trigger] said(props, name, s) ==> model::ical_text(props, name) == Some(s),
        unsaid(props, name) ==> model::ical_text(props, name) is None,
        unsaid(props, name) || exists|s: Seq<char>| #[trigger] said(props, name, s),
{
    nextcloud_laws::law_first_of_a_name(props, name);
    assert forall|s: Seq<char>| #[trigger] said(props, name, s) implies model::ical_text(props, name)
        == Some(s) by {
        let (k, v) = choose|k: int, v: Seq<char>| #[trigger]
            nextcloud_laws::first_of_name(props, name, k) && props[k].value == Some(v) && s
                == #[trigger] ics::unescaped(v);
        assert(nextcloud_laws::first_of_name(props, name, k));
    }
    if unsaid(props, name) {
        if exists|k: int| #[trigger] nextcloud_laws::first_of_name(props, name, k) {
            let k = choose|k: int| #[trigger] nextcloud_laws::first_of_name(props, name, k);
            assert(props[k].value is None);
        }
    } else {
        let k = choose|k: int| #[trigger]
            nextcloud_laws::first_of_name(props, name, k) && !(props[k].value is None);
        let v = props[k].value->0;
        assert(said(props, name, ics::unescaped(v)));
    }
}

/// What an event says is what its object says: its address is its id; its title as it
/// is, its texts without white space around them; the minutes of its alarms, and where
/// none counts the defaults; its guests, the organizer first.
pub proof fn law_event_says_what_its_object_says(
    account: Seq<char>,
    calendar_id: Seq<char>,
    calendar_name: Seq<char>,
    href: Seq<char>,
    ev: EventV,
    e: EventView,
    s: Seq<char>,
)
    requires
        model::ical_event_read(account, calendar_id, calendar_name, href, ev, Some(e)),
    ensures
        e.account == account,
        e.calendar_id == calendar_id,
        e.calendar_name == calendar_name,
        e.id == href,
        said(ev.properties, "SUMMARY"@, s) ==> e.summary == s,
        unsaid(ev.properties, "SUMMARY"@) ==> e.summary == "(no title)"@,
        said(ev.properties, "LOCATION"@, s) ==> e.location == text::non_blank(s),
        unsaid(ev.properties, "LOCATION"@) ==> e.location is None,
        said(ev.properties, "DESCRIPTION"@, s) ==> e.description == text::non_blank(s),
        unsaid(ev.properties, "DESCRIPTION"@) ==> e.description is None,
        e.meet_url is None && e.html_link is None,
        e.reminder_overrides == if model::alarm_mins(ev.alarms).len() == 0 {
            None
        } else {
            Some(model::alarm_mins(ev.alarms))
        },
        e.attendees.to_multiset() == model::ical_guests(
            ev.properties,
            model::organizer_of(ev.properties),
        ).to_multiset(),
{
    lemma_said(ev.properties, "SUMMARY"@);
    lemma_said(ev.properties, "LOCATION"@);
    lemma_said(ev.properties, "DESCRIPTION"@);
    model::law_ranking_keeps_every_guest(
        model::ical_guests(ev.properties, model::organizer_of(ev.properties)),
    );
}

/// When an event takes place is what its object says: on its days, or at its points in
/// time; without an end it ends where it starts. What the local clock has to say about
/// goes by its answer.
pub proof fn law_event_is_when_its_object_says(
    account: Seq<char>,
    calendar_id: Seq<char>,
    calendar_name: Seq<char>,
    href: Seq<char>,
    ev: EventV,
    r: Option<EventView>,
)
    requires
        model::ical_event_read(account, calendar_id, calendar_name, href, ev, r),
    ensures
        ({
            let start = model::moment_at(ev.properties, "DTSTART"@);
            let end = model::moment_at(ev.properties, "DTEND"@);
            let has_end = ical::first_named(ev.properties, "DTEND"@) is Some;
            &&& start is Unreadable || (has_end && end is Unreadable) ==> r is None
            &&& (start is Day || start is At) && (!has_end || end is Day || end is At) ==> r is Some
            &&& r matches Some(e) ==> {
                &&& start matches When::Day(day) ==> e.all_day && e.start_time is None
                    && e.start_date == day
                &&& start matches When::At(t) ==> !e.all_day && (e.start_time matches Some(m)
                    && m.secs == t.secs && m.nanos == t.nanos && e.start_date.days
                    == daemon_laws::day_of(m) as i32)
                &&& start matches When::Floating(t) ==> !e.all_day && (e.start_time matches Some(m)
                    && m.secs + m.offset == t.secs && m.nanos == t.nanos)
                &&& !has_end ==> e.end_time == e.start_time && e.end_date == e.start_date
                &&& has_end && (end matches When::Day(day)) && time::MIN_DAYS
                    < end->Day_0.days ==> e.end_time is None && e.end_date.days == if e.all_day {
                    reading_laws::later(end->Day_0.days - 1, e.start_date.days as int)
                } else {
                    end->Day_0.days as int
                }
                &&& has_end && end is At ==> (e.end_time matches Some(m) && m.secs
                    == end->At_0.secs && m.nanos == end->At_0.nanos)
                &&& has_end && end is Floating ==> (e.end_time matches Some(m) && m.secs
                    + m.offset == end->Floating_0.secs && m.nanos == end->Floating_0.nanos)
                &&& has_end && (end is At || end is Floating) && !e.all_day ==> e.end_date.days
                    == daemon_laws::day_of(e.end_time->0) as i32
                &&& has_end && (end is At || end is Floating) && e.all_day && time::MIN_DAYS
                    < daemon_laws::day_of(e.end_time->0) <= time::MAX_DAYS ==> e.end_date.days
                    == reading_laws::later(
                    daemon_laws::day_of(e.end_time->0) - 1,
                    e.start_date.days as int,
                )
            }
        }),
{
}

/// Whether a property lists a guest.
pub open spec fn guest_value(p: PropertyV, v: Seq<char>) -> bool {
    p.name == "ATTENDEE"@ && p.value == Some(v)
}

/// The guests of an event are those that its object lists, in their order: each with
/// its address, its name and its answer; the organizer is the one whose address is
/// the organizer's, whatever the case of its letters.
pub proof fn law_guests_of_an_object(
    props: Seq<PropertyV>,
    p: PropertyV,
    organizer: Option<Seq<char>>,
)
    ensures
        model::ical_guests(Seq::empty(), organizer).len() == 0,
        forall|v: Seq<char>| #[trigger]
            guest_value(p, v) ==> model::ical_guests(props.push(p), organizer)
                == model::ical_guests(props, organizer).push(
                AttendeeView {
                    email: nextcloud_laws::bare(v),
                    name: ical::param_of(p, "CN"@),
                    status: ical::response_status(ical::param_of(p, "PARTSTAT"@)),
                    organizer: organizer matches Some(o) && text::same_ignoring_ascii_case(
                        o,
                        nextcloud_laws::bare(v),
                    ),
                    is_self: false,
                },
            ),
        (forall|v: Seq<char>| !#[trigger] guest_value(p, v)) ==> model::ical_guests(
            props.push(p),
            organizer,
        ) == model::ical_guests(props, organizer),
{
    assert(props.push(p).drop_last() == props);
    let before = model::ical_guests(props, organizer);
    if p.value is Some {
        nextcloud_laws::law_bare_address(p.value->0);
    }
    if p.name == "ATTENDEE"@ && p.value is Some {
        assert(guest_value(p, p.value->0));
        let a = model::ical_guest(p, organizer)->0;
        assert(before + seq![a] == before.push(a));
    }
}

/// The organizer of an event is the address that its first organizer property says.
pub proof fn law_organizer_of_an_object(props: Seq<PropertyV>, k: int)
    ensures
        nextcloud_laws::first_of_name(props, "ORGANIZER"@, k) ==> model::organizer_of(props)
            == match props[k].value {
            Some(v) => Some(nextcloud_laws::bare(v)),
            None => None,
        },
        (forall|j: int| !#[trigger] nextcloud_laws::first_of_name(props, "ORGANIZER"@, j))
            ==> model::organizer_of(props) is None,
{
    nextcloud_laws::law_first_of_a_name(props, "ORGANIZER"@);
    if nextcloud_laws::first_of_name(props, "ORGANIZER"@, k) && props[k].value is Some {
        nextcloud_laws::law_bare_address(props[k].value->0);
    }
}

/// Whether the first property of a name has a value.
pub open spec fn first_value(props: Seq<PropertyV>, name: Seq<char>, v: Seq<char>) -> bool {
    exists|k: int| #[trigger]
        nextcloud_laws::first_of_name(props, name, k) && props[k].value == Some(v)
}

/// What a task says is what its object says: its address is its id; its title and its
/// notes without white space around them; the day on which it is due. It is done
/// where its status says so, or where it says when it was completed.
pub proof fn law_task_says_what_its_object_says(
    account: Seq<char>,
    list: Seq<char>,
    title: Seq<char>,
    href: Seq<char>,
    props: Seq<PropertyV>,
    t: TaskView,
    s: Seq<char>,
)
    requires
        model::ical_task_read(account, list, title, href, props, t),
    ensures
        t.account == account && t.tasklist_id == list && t.tasklist_title == title && t.id == href,
        said(props, "SUMMARY"@, s) ==> t.title == match text::non_blank(s) {
            Some(s) => s,
            None => "(untitled)"@,
        },
        unsaid(props, "SUMMARY"@) ==> t.title == "(untitled)"@,
        said(props, "DESCRIPTION"@, s) ==> t.notes == text::non_blank(s),
        unsaid(props, "DESCRIPTION"@) ==> t.notes is None,
        t.completed <==> first_value(props, "STATUS"@, "COMPLETED"@) || exists|k: int| #[trigger]
            nextcloud_laws::first_of_name(props, "COMPLETED"@, k),
        model::moment_at(props, "DUE"@) matches When::Day(day) ==> t.due == Some(day),
        model::moment_at(props, "DUE"@) is Unreadable ==> t.due is None,
        model::moment_at(props, "DUE"@) matches When::At(at) ==> exists|m: Moment| #[trigger]
            m.valid() && m.secs == at.secs && m.nanos == at.nanos && t.due == Some(
                Date { days: daemon_laws::day_of(m) as i32 },
            ),
{
    lemma_said(props, "SUMMARY"@);
    lemma_said(props, "DESCRIPTION"@);
    nextcloud_laws::law_first_of_a_name(props, "STATUS"@);
    nextcloud_laws::law_first_of_a_name(props, "COMPLETED"@);
    if first_value(props, "STATUS"@, "COMPLETED"@) {
        let k = choose|k: int| #[trigger]
            nextcloud_laws::first_of_name(props, "STATUS"@, k) && props[k].value == Some(
                "COMPLETED"@,
            );
        assert(nextcloud_laws::first_of_name(props, "STATUS"@, k));
    }
    if ical::value_of(props, "STATUS"@) == Some("COMPLETED"@) {
        let k = choose|k: int| #[trigger] nextcloud_laws::first_of_name(props, "STATUS"@, k);
        assert(nextcloud_laws::first_of_name(props, "STATUS"@, k) && props[k].value == Some(
            "COMPLETED"@,
        ));
    }
    if ical::first_named(props, "COMPLETED"@) is Some {
        assert(exists|k: int| #[trigger] nextcloud_laws::first_of_name(props, "COMPLETED"@, k));
    }
    let due = choose|due: Option<Moment>| #[trigger]
        ical::local_answer(model::moment_at(props, "DUE"@), due) && t == model::task_from_ical(
            account,
            list,
            title,
            href,
            props,
            ical::placed(model::moment_at(props, "DUE"@), due),
        );
    if model::moment_at(props, "DUE"@) is At {
        let m = due->0;
        assert(m.valid());
    }
}

} // verus!
