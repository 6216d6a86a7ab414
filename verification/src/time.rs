//! Calendar days, instants and the clock. Days are counted from the common
//! era, instants in seconds from the Unix epoch; parsing, formatting and time
//! zones are chrono's and chrono-tz's.

use vstd::prelude::*;

use crate::text;

verus! {

/// The first day that chrono represents, as a day number.
pub const MIN_DAYS: i32 = -95_746_129;

/// The last day that chrono represents, as a day number.
pub const MAX_DAYS: i32 = 95_745_399;

/// The day number of 1970-01-01.
pub const EPOCH_DAYS: i64 = 719_163;

/// The first second that chrono represents.
pub const MIN_SECS: i64 = -8_334_601_228_800;

/// The last second that chrono represents.
pub const MAX_SECS: i64 = 8_210_266_876_799;

/// A calendar day: the number of days since 0000-12-31 (1 is 0001-01-01).
#[derive(Clone, Copy, Debug, PartialEq, Eq, Structural)]
pub struct Date {
    pub days: i32,
}

/// A point in time together with the local offset from UTC at that point.
#[derive(Clone, Copy, Debug, PartialEq, Eq, Structural)]
pub struct Moment {
    /// Seconds since the Unix epoch.
    pub secs: i64,
    /// Nanoseconds past the second; from 1_000_000_000 on within a leap second.
    pub nanos: u32,
    /// Local time minus UTC, in seconds.
    pub offset: i32,
}

/// A point in time without an offset.
#[derive(Clone, Copy, Debug, PartialEq, Eq, Structural)]
pub struct Instant {
    pub secs: i64,
    pub nanos: u32,
}

impl DeepView for Instant {
    type V = Instant;

    open spec fn deep_view(&self) -> Instant {
        *self
    }
}

impl Date {
    /// Whether chrono represents the day.
    pub open spec fn valid(self) -> bool {
        MIN_DAYS <= self.days <= MAX_DAYS
    }

    /// The later of two days.
    pub open spec fn latest(self, other: Date) -> Date {
        if self.days >= other.days {
            self
        } else {
            other
        }
    }

    /// The day before, or the day itself where it is the first one.
    pub open spec fn day_before(self) -> Date {
        if self.days > MIN_DAYS {
            Date { days: (self.days - 1) as i32 }
        } else {
            self
        }
    }

    /// The later of two days.
    pub fn max(self, other: Date) -> (r: Date)
        ensures
            r == self.latest(other),
    {
        if self.days >= other.days {
            self
        } else {
            other
        }
    }

    /// The day before, or the day itself where it is the first one.
    pub fn pred(self) -> (r: Date)
        ensures
            r == self.day_before(),
    {
        if self.days > MIN_DAYS {
            Date { days: self.days - 1 }
        } else {
            self
        }
    }

    /// The day `n` days later.
    pub fn plus(self, n: i32) -> (r: Date)
        requires
            MIN_DAYS <= self.days + n <= MAX_DAYS,
        ensures
            r.days == self.days + n,
    {
        Date { days: self.days + n }
    }
}

/// Whether the seconds lie in the range that chrono represents.
pub open spec fn in_range(secs: int) -> bool {
    MIN_SECS <= secs <= MAX_SECS
}

impl Instant {
    /// Whether chrono represents the instant.
    pub open spec fn valid(self) -> bool {
        in_range(self.secs as int) && self.nanos < 2_000_000_000
    }

    /// Whether this instant comes before the other.
    pub open spec fn before(self, other: Instant) -> bool {
        self.secs < other.secs || (self.secs == other.secs && self.nanos < other.nanos)
    }

    /// Decides [`Instant::before`].
    pub fn is_before(self, other: Instant) -> (r: bool)
        ensures
            r == self.before(other),
    {
        self.secs < other.secs || (self.secs == other.secs && self.nanos < other.nanos)
    }

    /// The seconds of the instant `n` seconds earlier. An instant within a leap
    /// second leaves it unless `n` is zero; the leap second itself counts as one
    /// second.
    pub open spec fn stepped(self, n: int) -> int {
        if n > 0 && self.nanos >= 1_000_000_000 {
            self.secs + 1 - n
        } else {
            self.secs - n
        }
    }

    /// The instant `n` seconds earlier.
    pub open spec fn earlier(self, n: int) -> Instant {
        Instant {
            secs: self.stepped(n) as i64,
            nanos: if n == 0 || self.nanos < 1_000_000_000 {
                self.nanos
            } else {
                (self.nanos - 1_000_000_000) as u32
            },
        }
    }

    /// Whether stepping back `n` seconds stays in range.
    pub open spec fn can_step(self, n: int) -> bool {
        in_range(self.stepped(n))
    }

    /// The instant `n` seconds earlier.
    pub fn minus(self, n: i64) -> (r: Instant)
        requires
            self.valid(),
            self.can_step(n as int),
        ensures
            r == self.earlier(n as int),
            r.valid(),
    {
        if n == 0 || self.nanos < 1_000_000_000 {
            Instant { secs: self.secs - n, nanos: self.nanos }
        } else if n > 0 {
            Instant { secs: self.secs + 1 - n, nanos: self.nanos - 1_000_000_000 }
        } else {
            Instant { secs: self.secs - n, nanos: self.nanos - 1_000_000_000 }
        }
    }
}

impl Moment {
    /// Whether chrono represents the moment.
    pub open spec fn valid(self) -> bool {
        &&& in_range(self.secs as int)
        &&& self.nanos < 2_000_000_000
        &&& -86_400 < self.offset < 86_400
    }

    /// The point in time.
    pub open spec fn at(self) -> Instant {
        Instant { secs: self.secs, nanos: self.nanos }
    }

    /// Seconds since the epoch as the local clock shows them.
    pub open spec fn local_secs(self) -> int {
        self.secs + self.offset
    }

    /// The local day number.
    pub open spec fn local_days(self) -> int {
        self.local_secs() / 86_400 + EPOCH_DAYS
    }

    /// The local day.
    pub open spec fn local_date(self) -> Date {
        Date { days: self.local_days() as i32 }
    }

    /// Seconds since the local midnight.
    pub open spec fn second_of_day(self) -> int {
        self.local_secs() % 86_400
    }

    /// The point in time.
    pub fn instant(self) -> (r: Instant)
        ensures
            r == self.at(),
    {
        Instant { secs: self.secs, nanos: self.nanos }
    }

    /// The local day.
    pub fn date(self) -> (r: Date)
        requires
            self.valid(),
        ensures
            r == self.local_date(),
            r.days == self.local_days(),
            MIN_DAYS - 1 <= r.days <= MAX_DAYS + 1,
    {
        let local: i64 = self.secs + self.offset as i64;
        let days: i64 = floor_div(local, 86_400) + EPOCH_DAYS;
        Date { days: days as i32 }
    }

    /// Seconds since the local midnight.
    pub fn time_of_day(self) -> (r: u32)
        requires
            self.valid(),
        ensures
            r == self.second_of_day(),
            r < 86_400,
    {
        let local: i64 = self.secs + self.offset as i64;
        let days: i64 = floor_div(local, 86_400);
        (local - days * 86_400) as u32
    }
}

/// Division that rounds towards negative infinity.
fn floor_div(a: i64, b: i64) -> (r: i64)
    requires
        b == 86_400,
        -9_000_000_000_000 <= a <= 9_000_000_000_000,
    ensures
        r == a / b,
        -110_000_000 <= r <= 110_000_000,
        0 <= a - r * 86_400 < 86_400,
        a - r * 86_400 == a % 86_400,
{
    let shifted: i64 = a + 110_000_000 * 86_400;
    shifted / 86_400 - 110_000_000
}

// ---------------------------------------------------------------------
// Texts of days and instants
// ---------------------------------------------------------------------

/// Two decimal digits.
pub open spec fn two_digits(n: int) -> Seq<char> {
    seq![text::digit_char(n / 10), text::digit_char(n % 10)]
}

/// `HH:MM` of a second of the day.
pub open spec fn clock_text(second_of_day: int) -> Seq<char> {
    two_digits(second_of_day / 3600) + seq![':'] + two_digits(second_of_day / 60 % 60)
}

/// Whether a day has a year from 0000 to 9999.
pub open spec fn four_digit_day(days: int) -> bool {
    -365 <= days <= 3_652_059
}

/// Whether an instant has a UTC year from 0000 to 9999.
pub open spec fn four_digit_instant(secs: int) -> bool {
    -62_167_219_200 <= secs <= 253_402_300_799
}

/// What `NaiveDate::parse_from_str` reads: the day number of a text under a format.
pub uninterp spec fn parsed_date(text: Seq<char>, format: Seq<char>) -> Option<i32>;

/// What `NaiveDate::format` writes for a day number under a format.
pub uninterp spec fn date_text(days: i32, format: Seq<char>) -> Seq<char>;

/// What `NaiveDateTime::parse_from_str` reads under `%Y%m%dT%H%M%S`: the
/// seconds since the epoch as if the text were in UTC, and the nanoseconds.
pub uninterp spec fn parsed_stamp(text: Seq<char>) -> Option<(i64, u32)>;

/// What `DateTime::<Utc>::format` writes for an instant under `%Y%m%dT%H%M%S`.
pub uninterp spec fn stamp_text(secs: i64, nanos: u32) -> Seq<char>;

/// What `DateTime::parse_from_rfc3339` reads: seconds and nanoseconds.
pub uninterp spec fn rfc3339_instant(text: Seq<char>) -> Option<(i64, u32)>;

/// What `DateTime::to_rfc3339` writes for an instant at an offset.
pub uninterp spec fn rfc3339_text(secs: i64, nanos: u32, offset: i32) -> Seq<char>;

/// What `NaiveTime::parse_from_str` reads under `%H:%M`: the second of the day.
pub uninterp spec fn parsed_clock(text: Seq<char>) -> Option<u32>;

/// Whether `str::parse::<chrono_tz::Tz>` knows a zone of that name.
pub uninterp spec fn zone_exists(id: Seq<char>) -> bool;

/// The earliest instant at which the clocks of the named zone show `local`
/// (seconds since the epoch on that clock), as `from_local_datetime(..).earliest()`
/// finds it in chrono-tz's tables.
pub uninterp spec fn zone_instant(id: Seq<char>, local: i64) -> Option<i64>;

/// The day of a day number.
pub open spec fn date_of(days: Option<i32>) -> Option<Date> {
    match days {
        Some(days) => Some(Date { days }),
        None => None,
    }
}

/// The instant of seconds and nanoseconds.
pub open spec fn instant_of(t: Option<(i64, u32)>) -> Option<Instant> {
    match t {
        Some((secs, nanos)) => Some(Instant { secs, nanos }),
        None => None,
    }
}

/// The two date formats in use.
pub open spec fn date_format(format: Seq<char>) -> bool {
    format == "%Y-%m-%d"@ || format == "%Y%m%d"@
}

/// A day with a four-digit year is read back from the text written for it.
pub open spec fn date_reads_back(text: Seq<char>, format: Seq<char>, r: Option<Date>) -> bool {
    forall|days: i32|
        four_digit_day(days as int) && date_format(format) && text == #[trigger] date_text(
            days,
            format,
        ) ==> r == Some(Date { days })
}

/// An instant with a four-digit year is read back, to the second, from the
/// stamp written for it.
pub open spec fn stamp_reads_back(text: Seq<char>, r: Option<Instant>) -> bool {
    forall|secs: i64, nanos: u32|
        four_digit_instant(secs as int) && nanos < 1_000_000_000 && text == #[trigger] stamp_text(
            secs,
            nanos,
        ) ==> r == Some(Instant { secs, nanos: 0 })
}

/// Whether RFC 3339 can say a time to the nanosecond: the year on its own clock has
/// four digits, its offset is one of whole minutes, and it is no leap second.
pub open spec fn rfc3339_exact(secs: i64, nanos: u32, offset: i32) -> bool {
    &&& four_digit_instant(secs + offset)
    &&& nanos < 1_000_000_000
    &&& -86_400 < offset < 86_400
    &&& offset as int % 60 == 0
}

/// A time that RFC 3339 can say is read back from the text written for it.
pub open spec fn rfc3339_reads_back(text: Seq<char>, r: Option<Instant>) -> bool {
    forall|secs: i64, nanos: u32, offset: i32|
        rfc3339_exact(secs, nanos, offset) && text == #[trigger] rfc3339_text(secs, nanos, offset)
            ==> r == Some(Instant { secs, nanos })
}

/// Digits and nothing else but possibly `T`; at least one character.
pub open spec fn compact(s: Seq<char>) -> bool {
    &&& s.len() > 0
    &&& forall|i: int| 0 <= i < s.len() ==> text::is_digit(#[trigger] s[i]) || s[i] == 'T'
}

/// `NaiveDate::parse_from_str`. The result is named; beside the name stands
/// that a date written by [`format_date`] is read back when its year has four
/// digits, and that the day is one that chrono represents.
#[verifier::external_body]
pub(crate) fn parse_date(text: &str, format: &str) -> (r: Option<Date>)
    requires
        date_format(format@),
    ensures
        r == date_of(parsed_date(text@, format@)),
        date_reads_back(text@, format@, r),
        r matches Some(d) ==> d.valid(),
{
    match chrono::NaiveDate::parse_from_str(text, format) {
        Ok(d) => Some(Date { days: chrono::Datelike::num_days_from_ce(&d) }),
        Err(_) => None,
    }
}

/// `NaiveDate::format`. The result is named; beside the name stands that, where the
/// year has four digits, `%Y%m%d` writes year, month and day as digits alone, and
/// `%Y-%m-%d` writes ten characters of one octet each.
#[verifier::external_body]
pub(crate) fn format_date(date: Date, format: &str) -> (r: String)
    requires
        date.valid(),
        date_format(format@),
    ensures
        r@ == date_text(date.days, format@),
        four_digit_day(date.days as int) && format@ == "%Y%m%d"@ ==> compact(r@),
        four_digit_day(date.days as int) && format@ == "%Y-%m-%d"@ ==> r@.len() == 10
            && text::octets(r@) == 10,
{
    chrono::NaiveDate::from_num_days_from_ce_opt(date.days).unwrap().format(format).to_string()
}

/// `NaiveDateTime::parse_from_str` with `%Y%m%dT%H%M%S`, as seconds and
/// nanoseconds from the epoch on the clock that the text was read from. The
/// result is named; beside the name stands that a stamp is read back.
#[verifier::external_body]
pub(crate) fn parse_stamp(text: &str) -> (r: Option<Instant>)
    ensures
        r == instant_of(parsed_stamp(text@)),
        stamp_reads_back(text@, r),
        r matches Some(t) ==> t.valid(),
{
    match chrono::NaiveDateTime::parse_from_str(text, "%Y%m%dT%H%M%S") {
        Ok(t) => Some(Instant { secs: t.and_utc().timestamp(), nanos: t.and_utc().timestamp_subsec_nanos() }),
        Err(_) => None,
    }
}

/// `DateTime::<Utc>::format` with `%Y%m%dT%H%M%SZ`: the stamp followed by a
/// literal `Z`. For a four-digit year the stamp holds digits and `T` alone.
#[verifier::external_body]
pub(crate) fn format_stamp(t: Instant) -> (r: String)
    requires
        t.valid(),
    ensures
        r@ == stamp_text(t.secs, t.nanos).push('Z'),
        four_digit_instant(t.secs as int) ==> compact(r@.drop_last()),
{
    let utc = chrono::DateTime::from_timestamp(t.secs, 0).unwrap().naive_utc();
    let utc = chrono::Timelike::with_nanosecond(&utc, t.nanos).unwrap().and_utc();
    utc.format("%Y%m%dT%H%M%SZ").to_string()
}

/// `DateTime::parse_from_rfc3339`, reduced to the instant. The result is named;
/// beside the name stands that a time written by [`to_rfc3339`] is read back when
/// its local year has four digits, its offset has no seconds, which are not
/// written, and it is no leap second.
#[verifier::external_body]
pub(crate) fn parse_rfc3339(text: &str) -> (r: Option<Instant>)
    ensures
        r == instant_of(rfc3339_instant(text@)),
        rfc3339_reads_back(text@, r),
        r matches Some(t) ==> t.valid(),
{
    match chrono::DateTime::parse_from_rfc3339(text) {
        Ok(t) => Some(Instant { secs: t.timestamp(), nanos: t.timestamp_subsec_nanos() }),
        Err(_) => None,
    }
}

/// `DateTime::to_rfc3339` at the moment's own offset.
#[verifier::external_body]
pub(crate) fn to_rfc3339(m: Moment) -> (r: String)
    requires
        m.valid(),
    ensures
        r@ == rfc3339_text(m.secs, m.nanos, m.offset),
{
    let utc = chrono::DateTime::from_timestamp(m.secs, 0).unwrap().naive_utc();
    let utc = chrono::Timelike::with_nanosecond(&utc, m.nanos).unwrap().and_utc();
    utc.with_timezone(&chrono::FixedOffset::east_opt(m.offset).unwrap()).to_rfc3339()
}

/// `DateTime::format` with `%H:%M`: the hour and the minute of the local clock,
/// two digits each, with a colon between them.
#[verifier::external_body]
pub(crate) fn format_clock(m: Moment) -> (r: String)
    requires
        m.valid(),
    ensures
        r@ == clock_text(m.second_of_day()),
{
    let zone = chrono::FixedOffset::east_opt(m.offset).unwrap();
    chrono::DateTime::from_timestamp(m.secs, 0).unwrap().with_timezone(&zone).format("%H:%M").to_string()
}

/// `NaiveTime::parse_from_str` with `%H:%M`, as the second of the day.
#[verifier::external_body]
pub(crate) fn parse_clock(text: &str) -> (r: Option<u32>)
    ensures
        r == parsed_clock(text@),
        r matches Some(s) ==> s < 86_400,
{
    match chrono::NaiveTime::parse_from_str(text, "%H:%M") {
        Ok(t) => Some(chrono::Timelike::num_seconds_from_midnight(&t)),
        Err(_) => None,
    }
}

// ---------------------------------------------------------------------
// Zones and the clock
// ---------------------------------------------------------------------

/// `str::parse::<chrono_tz::Tz>`: whether the zone is known.
#[verifier::external_body]
pub(crate) fn zone_known(id: &str) -> (r: bool)
    ensures
        r == zone_exists(id@),
{
    id.parse::<chrono_tz::Tz>().is_ok()
}

/// `TimeZone::from_local_datetime(..).earliest()` in a zone of chrono-tz, as
/// seconds since the epoch. `None` where the clocks of the zone skip that time.
#[verifier::external_body]
pub(crate) fn zone_earliest(id: &str, local: Instant) -> (r: Option<i64>)
    requires
        zone_exists(id@),
        local.valid(),
    ensures
        r == zone_instant(id@, local.secs),
        r matches Some(s) ==> in_range(s as int),
{
    let zone: chrono_tz::Tz = id.parse().unwrap();
    let naive = chrono::DateTime::from_timestamp(local.secs, 0).unwrap().naive_utc();
    chrono::TimeZone::from_local_datetime(&zone, &naive).earliest().map(|t| t.timestamp())
}

/// `DateTime::with_timezone(&Local)`: the same instant with the offset that the
/// machine's time zone has then. The offset is the machine's; nothing more is
/// said of it than that it is less than a day.
#[verifier::external_body]
pub(crate) fn at_local(t: Instant) -> (r: Moment)
    requires
        t.valid(),
    ensures
        r.at() == t,
        r.valid(),
{
    let utc = chrono::DateTime::from_timestamp(t.secs, 0).unwrap().naive_utc();
    let utc = chrono::Timelike::with_nanosecond(&utc, t.nanos).unwrap().and_utc();
    let l = utc.with_timezone(&chrono::Local);
    Moment { secs: l.timestamp(), nanos: l.timestamp_subsec_nanos(), offset: l.offset().local_minus_utc() }
}

/// `Local.from_local_datetime(..).earliest()`: a moment at which the machine's
/// clock shows `local`. Whether there is one, and its offset, are the machine's.
#[verifier::external_body]
pub(crate) fn local_earliest(local: Instant) -> (r: Option<Moment>)
    requires
        local.valid(),
    ensures
        r matches Some(m) ==> m.valid() && m.local_secs() == local.secs && m.nanos == local.nanos,
{
    let naive = chrono::DateTime::from_timestamp(local.secs, 0).unwrap().naive_utc();
    let naive = chrono::Timelike::with_nanosecond(&naive, local.nanos).unwrap();
    let l = chrono::TimeZone::from_local_datetime(&chrono::Local, &naive).earliest()?;
    Some(Moment { secs: l.timestamp(), nanos: l.timestamp_subsec_nanos(), offset: l.offset().local_minus_utc() })
}

/// `Local.from_local_datetime(..).single()`: the one moment at which the
/// machine's clock shows `local`, if there is exactly one.
#[verifier::external_body]
pub(crate) fn local_single(local: Instant) -> (r: Option<Moment>)
    requires
        local.valid(),
    ensures
        r matches Some(m) ==> m.valid() && m.local_secs() == local.secs && m.nanos == local.nanos,
{
    let naive = chrono::DateTime::from_timestamp(local.secs, 0).unwrap().naive_utc();
    let naive = chrono::Timelike::with_nanosecond(&naive, local.nanos).unwrap();
    let l = chrono::TimeZone::from_local_datetime(&chrono::Local, &naive).single()?;
    Some(Moment { secs: l.timestamp(), nanos: l.timestamp_subsec_nanos(), offset: l.offset().local_minus_utc() })
}

/// `Utc::now()`: some instant that chrono represents.
#[verifier::external_body]
pub(crate) fn utc_now() -> (r: Instant)
    ensures
        r.valid(),
{
    let t = chrono::Utc::now();
    Instant { secs: t.timestamp(), nanos: t.timestamp_subsec_nanos() }
}

/// `Local::now()`: some moment that chrono represents.
#[verifier::external_body]
pub(crate) fn local_now() -> (r: Moment)
    ensures
        r.valid(),
{
    let l = chrono::Local::now();
    Moment { secs: l.timestamp(), nanos: l.timestamp_subsec_nanos(), offset: l.offset().local_minus_utc() }
}

/// A reading of the local clock: a second of a day, as seconds since the epoch on
/// that clock.
pub open spec fn clock_reading(day: Date, second: int, nanos: u32) -> Instant {
    Instant { secs: ((day.days - EPOCH_DAYS) * 86_400 + second) as i64, nanos }
}

/// What the machine's zone may answer when it is asked when the local clock shows
/// a reading: nothing, or a moment at which it does.
pub open spec fn shows(reading: Instant, answer: Option<Moment>) -> bool {
    answer matches Some(m) ==> m.valid() && m.local_secs() == reading.secs && m.nanos
        == reading.nanos
}

/// The reading of the local clock at a second of a day.
pub fn clock_at(day: Date, second: u32, nanos: u32) -> (r: Instant)
    requires
        day.valid(),
        second < 86_400,
        nanos < 2_000_000_000,
    ensures
        r == clock_reading(day, second as int, nanos),
        r.secs == (day.days - EPOCH_DAYS) * 86_400 + second,
        r.valid(),
{
    let secs: i64 = (day.days as i64 - EPOCH_DAYS) * 86_400 + second as i64;
    Instant { secs, nanos }
}

/// The local midnight that starts a day, where the machine's clock shows one.
/// Whether it does is the machine's.
pub fn day_start(day: Date) -> (r: Option<Moment>)
    requires
        day.valid(),
    ensures
        shows(clock_reading(day, 0, 0), r),
        r matches Some(m) ==> m.valid() && m.local_date() == day && m.second_of_day() == 0
            && m.nanos == 0,
{
    local_earliest(clock_at(day, 0, 0))
}

/// The second of the day that `HH:MM` names, white space around it aside.
pub fn parse_hhmm(s: &str) -> (r: Option<u32>)
    ensures
        r == parsed_clock(text::trimmed(s@)),
        r matches Some(t) ==> t < 86_400,
{
    parse_clock(text::trim(s).as_str())
}

} // verus!
