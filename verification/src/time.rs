//! Instants, durations and windows of time.

use crate::text::digit_char;
use vstd::prelude::*;
use vstd::string::*;

verus! {

/// The quotient of `a` and a positive `b`, rounded towards zero.
pub open spec fn toward_zero(a: int, b: int) -> int {
    if a >= 0 {
        a / b
    } else {
        -((-a) / b)
    }
}

pub open spec fn nanos_per_second() -> int {
    1_000_000_000
}

/// The longest duration: as many milliseconds as the largest `i64`.
pub open spec fn longest() -> int {
    9_223_372_036_854_775_807_000_000
}

/// A length of time: whole seconds, rounded down, and the nanoseconds above them.
#[derive(Clone, Copy, Debug, PartialEq, Eq, Structural, PartialOrd, Ord)]
pub struct Duration {
    secs: i64,
    nanos: u32,
}

impl Duration {
    /// The length in nanoseconds.
    pub closed spec fn total(self) -> int {
        self.secs * nanos_per_second() + self.nanos
    }

    /// The duration of that many nanoseconds.
    pub closed spec fn of(total: int) -> Duration {
        Duration {
            secs: (total / nanos_per_second()) as i64,
            nanos: (total % nanos_per_second()) as u32,
        }
    }

    /// A duration within the range is as long as it says.
    pub broadcast proof fn of_is_as_long(total: int)
        requires
            -longest() <= total <= longest(),
        ensures
            (#[trigger] Duration::of(total)).total() == total,
    {
    }

    #[verifier::type_invariant]
    closed spec fn in_range(self) -> bool {
        &&& self.nanos < nanos_per_second()
        &&& -longest() <= self.total() <= longest()
    }

    /// The duration of that many seconds and nanoseconds, if there is one.
    pub fn new(secs: i64, nanos: u32) -> (d: Option<Duration>)
        ensures
            d is Some <==> nanos < nanos_per_second() && -longest() <= secs * nanos_per_second()
                + nanos <= longest(),
            d matches Some(d) ==> d.total() == secs * nanos_per_second() + nanos && d
                == Duration::of(secs * nanos_per_second() + nanos),
    {
        if nanos >= 1_000_000_000 {
            return None;
        }
        let total: i128 = secs as i128 * 1_000_000_000 + nanos as i128;
        let most: i128 = 9_223_372_036_854_775_807_000_000;
        if total < -most || total > most {
            return None;
        }
        Some(Duration { secs, nanos })
    }

    /// No time at all.
    pub fn zero() -> (d: Duration)
        ensures
            d.total() == 0,
            d == Duration::of(0),
    {
        Duration { secs: 0, nanos: 0 }
    }

    /// That many minutes, if a duration can be as long.
    pub fn try_minutes(minutes: i64) -> (d: Option<Duration>)
        ensures
            d is Some <==> -longest() <= minutes_in_nanos(minutes as int) <= longest(),
            d matches Some(d) ==> d.total() == minutes_in_nanos(minutes as int) && d == Duration::of(
                minutes_in_nanos(minutes as int),
            ),
    {
        match minutes.checked_mul(60) {
            Some(secs) => Duration::new(secs, 0),
            None => None,
        }
    }

    /// That many days, if a duration can be as long.
    pub fn try_days(days: i64) -> (d: Option<Duration>)
        ensures
            d is Some <==> -longest() <= days * 86_400 * nanos_per_second() <= longest(),
            d matches Some(d) ==> d.total() == days * 86_400 * nanos_per_second(),
    {
        match days.checked_mul(86_400) {
            Some(secs) => Duration::new(secs, 0),
            None => None,
        }
    }

    /// The whole minutes in a duration, rounded towards zero.
    pub fn num_minutes(&self) -> (minutes: i64)
        ensures
            minutes == whole_minutes(self.total()),
    {
        proof {
            use_type_invariant(self);
        }
        let total: i128 = self.secs as i128 * 1_000_000_000 + self.nanos as i128;
        if total >= 0 {
            (total / 60_000_000_000) as i64
        } else {
            let minutes: i128 = (-total) / 60_000_000_000;
            -(minutes as i64)
        }
    }

    /// The whole seconds in a duration, rounded towards zero.
    pub fn num_seconds(&self) -> (seconds: i64)
        ensures
            seconds == toward_zero(self.total(), nanos_per_second()),
    {
        proof {
            use_type_invariant(self);
        }
        if self.secs < 0 && self.nanos > 0 {
            self.secs + 1
        } else {
            self.secs
        }
    }

    /// The length in nanoseconds.
    pub fn nanos(&self) -> (total: i128)
        ensures
            total == self.total(),
            -longest() <= total <= longest(),
    {
        proof {
            use_type_invariant(self);
        }
        self.secs as i128 * 1_000_000_000 + self.nanos as i128
    }

    /// Whether this duration is shorter than another.
    pub fn shorter_than(&self, other: &Duration) -> (b: bool)
        ensures
            b == (self.total() < other.total()),
    {
        proof {
            use_type_invariant(self);
            use_type_invariant(other);
        }
        self.secs < other.secs || (self.secs == other.secs && self.nanos < other.nanos)
    }

    /// The two durations together, if a duration can be as long.
    pub fn checked_sum(&self, other: &Duration) -> (d: Option<Duration>)
        ensures
            d is Some <==> -longest() <= self.total() + other.total() <= longest(),
            d matches Some(d) ==> d.total() == self.total() + other.total() && d == Duration::of(
                self.total() + other.total(),
            ),
    {
        proof {
            use_type_invariant(self);
            use_type_invariant(other);
        }
        let nanos: u32 = self.nanos + other.nanos;
        if nanos >= 1_000_000_000 {
            Duration::new(self.secs + other.secs + 1, nanos - 1_000_000_000)
        } else {
            Duration::new(self.secs + other.secs, nanos)
        }
    }
}

/// A number of minutes in nanoseconds.
pub open spec fn minutes_in_nanos(minutes: int) -> int {
    minutes * 60 * nanos_per_second()
}

/// The whole minutes in that many nanoseconds, rounded towards zero.
pub open spec fn whole_minutes(nanos: int) -> int {
    toward_zero(nanos, 60 * nanos_per_second())
}

/// The first second that can be represented: January 1 of the year -262143.
pub open spec fn first_second() -> int {
    -8_334_601_228_800
}

/// The last second that can be represented: the end of the year 262142.
pub open spec fn last_second() -> int {
    8_210_266_876_799
}

/// An instant: seconds since the Unix epoch, without leap seconds, and the nanoseconds
/// above them. Within a leap second the nanoseconds go on past those of the second
/// before it.
#[derive(Clone, Copy, Debug, PartialEq, Eq, Structural, PartialOrd, Ord)]
pub struct Timestamp {
    secs: i64,
    nanos: u32,
}

impl Timestamp {
    pub closed spec fn secs(self) -> int {
        self.secs as int
    }

    pub closed spec fn nanos(self) -> int {
        self.nanos as int
    }

    /// The instant at those seconds and nanoseconds.
    pub closed spec fn of(secs: int, nanos: int) -> Timestamp {
        Timestamp { secs: secs as i64, nanos: nanos as u32 }
    }

    /// An instant is made of its seconds and nanoseconds.
    pub broadcast proof fn of_its_parts(t: Timestamp)
        ensures
            #[trigger] Timestamp::of(t.secs(), t.nanos()) == t,
    {
    }

    /// The parts of an instant that can be represented.
    pub broadcast proof fn parts_of(secs: int, nanos: int)
        requires
            is_instant(secs, nanos),
        ensures
            (#[trigger] Timestamp::of(secs, nanos)).secs() == secs,
            Timestamp::of(secs, nanos).nanos() == nanos,
    {
    }

    /// The seconds of an instant are a 64-bit number.
    pub proof fn seconds_fit(self)
        ensures
            i64::MIN <= self.secs() <= i64::MAX,
    {
    }

    #[verifier::type_invariant]
    closed spec fn in_range(self) -> bool {
        is_instant(self.secs as int, self.nanos as int)
    }

    /// The instant at those seconds and nanoseconds, if there is one.
    pub fn new(secs: i64, nanos: u32) -> (t: Option<Timestamp>)
        ensures
            t is Some <==> is_instant(secs as int, nanos as int),
            t matches Some(t) ==> t.secs() == secs && t.nanos() == nanos && t == Timestamp::of(
                secs as int,
                nanos as int,
            ),
    {
        if secs < -8_334_601_228_800 || secs > 8_210_266_876_799 || nanos >= 2_000_000_000 {
            return None;
        }
        let since_first: i64 = secs + 8_334_601_228_800;
        if nanos >= 1_000_000_000 && since_first % 60 != 59 {
            return None;
        }
        Some(Timestamp { secs, nanos })
    }

    /// Seconds since the Unix epoch.
    pub fn timestamp(&self) -> (secs: i64)
        ensures
            secs == self.secs(),
    {
        self.secs
    }

    /// The nanoseconds above the seconds.
    pub fn subsec_nanos(&self) -> (nanos: u32)
        ensures
            nanos == self.nanos(),
    {
        self.nanos
    }

    /// Whether this instant is before another.
    pub fn before(&self, other: &Timestamp) -> (b: bool)
        ensures
            b == earlier(*self, *other),
    {
        self.secs < other.secs || (self.secs == other.secs && self.nanos < other.nanos)
    }

    /// The hours and minutes of the day, as `HH:MM`.
    pub fn clock_text(&self) -> (text: String)
        ensures
            text@ == clock(self.secs()),
    {
        proof {
            use_type_invariant(self);
        }
        let since_first: i64 = self.secs + 8_334_601_228_800;
        let of_day: i64 = since_first % 86_400;
        assert(of_day == self.secs() % 86_400);
        let hours: u8 = (of_day / 3600) as u8;
        let minutes: u8 = ((of_day / 60) % 60) as u8;
        let mut text = String::new();
        text.push((48 + hours / 10) as char);
        text.push((48 + hours % 10) as char);
        text.push(':');
        text.push((48 + minutes / 10) as char);
        text.push((48 + minutes % 10) as char);
        assert(text@ =~= clock(self.secs()));
        text
    }
}

/// Whether there is an instant at those seconds and nanoseconds. Only the last second
/// of a minute can be followed by a leap second.
pub open spec fn is_instant(secs: int, nanos: int) -> bool {
    &&& first_second() <= secs <= last_second()
    &&& 0 <= nanos < 2 * nanos_per_second()
    &&& nanos >= nanos_per_second() ==> secs % 60 == 59
}

/// The order of instants.
pub open spec fn earlier(a: Timestamp, b: Timestamp) -> bool {
    a.secs() < b.secs() || (a.secs() == b.secs() && a.nanos() < b.nanos())
}

/// The hours and minutes of the day, as `HH:MM`.
pub open spec fn clock(secs: int) -> Seq<char> {
    let of_day = secs % 86_400;
    let hours = of_day / 3600;
    let minutes = (of_day / 60) % 60;
    seq![
        digit_char(hours / 10),
        digit_char(hours % 10),
        ':',
        digit_char(minutes / 10),
        digit_char(minutes % 10),
    ]
}

/// Seconds and nanoseconds after `nanos` nanoseconds have been counted past `secs`.
pub open spec fn settled(secs: int, nanos: int) -> (int, int) {
    (secs + nanos / nanos_per_second(), nanos % nanos_per_second())
}

/// The seconds and nanoseconds that lie a number of nanoseconds after an instant. What
/// leaves a leap second does so at the end of it going forward, and at the start of the
/// second after it going back.
pub open spec fn shifted(secs: int, nanos: int, by: int) -> (int, int) {
    let whole = toward_zero(by, nanos_per_second());
    let rest = by - whole * nanos_per_second();
    if nanos < nanos_per_second() {
        settled(secs + whole, nanos + rest)
    } else if whole > 0 || (rest > 0 && nanos + rest >= 2 * nanos_per_second()) {
        settled(secs + whole, nanos - nanos_per_second() + rest)
    } else if whole < 0 {
        settled(secs + 1 + whole, nanos - nanos_per_second() + rest)
    } else {
        (secs, nanos + rest)
    }
}

/// Whether an instant shifted by a number of nanoseconds can still be represented.
pub open spec fn can_shift(t: Timestamp, by: int) -> bool {
    first_second() <= shifted(t.secs(), t.nanos(), by).0 <= last_second()
}

/// `DateTime::checked_add_signed` shifts an instant by a duration; it gives nothing
/// where the date leaves the range of dates.
#[verifier::external_body]
pub(crate) fn checked_add(t: Timestamp, d: Duration) -> (r: Option<Timestamp>)
    ensures
        r is Some <==> can_shift(t, d.total()),
        r matches Some(r) ==> (r.secs(), r.nanos()) == shifted(t.secs(), t.nanos(), d.total()),
{
    let start = chrono::DateTime::from_timestamp(t.secs, t.nanos)?;
    let end = start.checked_add_signed(chrono::TimeDelta::new(d.secs, d.nanos)?)?;
    Some(Timestamp { secs: end.timestamp(), nanos: end.timestamp_subsec_nanos() })
}

/// `DateTime::checked_sub_signed` shifts an instant back by a duration; it gives nothing
/// where the date leaves the range of dates.
#[verifier::external_body]
pub(crate) fn checked_sub(t: Timestamp, d: Duration) -> (r: Option<Timestamp>)
    ensures
        r is Some <==> can_shift(t, -d.total()),
        r matches Some(r) ==> (r.secs(), r.nanos()) == shifted(t.secs(), t.nanos(), -d.total()),
{
    let end = chrono::DateTime::from_timestamp(t.secs, t.nanos)?;
    let start = end.checked_sub_signed(chrono::TimeDelta::new(d.secs, d.nanos)?)?;
    Some(Timestamp { secs: start.timestamp(), nanos: start.timestamp_subsec_nanos() })
}

/// The nanoseconds from `from` to `to`. A leap second counts where the later time of
/// day has passed the one that holds it.
pub open spec fn nanos_between(from: Timestamp, to: Timestamp) -> int {
    let from_of_day = from.secs() % 86_400;
    let to_of_day = to.secs() % 86_400;
    let leap: int = if to_of_day > from_of_day && from.nanos() >= nanos_per_second() {
        1
    } else if to_of_day < from_of_day && to.nanos() >= nanos_per_second() {
        -1
    } else {
        0
    };
    (to.secs() - from.secs() + leap) * nanos_per_second() + to.nanos() - from.nanos()
}

/// `DateTime::signed_duration_since` measures the time between two instants, and
/// `TimeDelta::num_seconds` its whole seconds, rounded towards zero.
#[verifier::external_body]
pub(crate) fn seconds_between(from: Timestamp, to: Timestamp) -> (seconds: i64)
    ensures
        seconds == toward_zero(nanos_between(from, to), nanos_per_second()),
{
    let start = chrono::DateTime::from_timestamp(from.secs, from.nanos).unwrap();
    let end = chrono::DateTime::from_timestamp(to.secs, to.nanos).unwrap();
    end.signed_duration_since(start).num_seconds()
}

/// The seconds and nanoseconds that an RFC 3339 text denotes, or the words in which it is refused.
pub uninterp spec fn rfc3339_value(text: Seq<char>) -> Result<(int, int), Seq<char>>;

/// `DateTime::parse_from_rfc3339` reads a date and time with an offset, which is then
/// taken to UTC. Which texts it reads, and its words for the others, are not stated.
#[verifier::external_body]
pub(crate) fn read_rfc3339(text: &str) -> (r: Result<Timestamp, String>)
    ensures
        match r {
            Ok(t) => rfc3339_value(text@) == Ok::<(int, int), Seq<char>>((t.secs(), t.nanos())),
            Err(e) => rfc3339_value(text@) == Err::<(int, int), Seq<char>>(e@),
        },
{
    match chrono::DateTime::parse_from_rfc3339(text) {
        Ok(t) => Ok(Timestamp { secs: t.timestamp(), nanos: t.timestamp_subsec_nanos() }),
        Err(error) => Err(error.to_string()),
    }
}

/// The seconds of midnight UTC of a date written `YYYY-MM-DD`, or the words in which it
/// is refused.
pub uninterp spec fn date_value(text: Seq<char>) -> Result<int, Seq<char>>;

/// `NaiveDate::parse_from_str` reads a date by the pattern `%Y-%m-%d`; the instant is
/// midnight UTC of that date. Which texts it reads, and its words for the others, are
/// not stated.
#[verifier::external_body]
pub(crate) fn read_date(text: &str) -> (r: Result<Timestamp, String>)
    ensures
        match r {
            Ok(t) => date_value(text@) == Ok::<int, Seq<char>>(t.secs()) && t.nanos() == 0,
            Err(e) => date_value(text@) == Err::<int, Seq<char>>(e@),
        },
{
    match chrono::NaiveDate::parse_from_str(text, "%Y-%m-%d") {
        Ok(date) => Ok(
            Timestamp { secs: date.and_time(chrono::NaiveTime::MIN).and_utc().timestamp(), nanos: 0 },
        ),
        Err(error) => Err(error.to_string()),
    }
}

/// An instant in RFC 3339 with `Z` for UTC and as many digits after the second as it needs.
pub uninterp spec fn rfc3339_zulu(secs: int, nanos: int) -> Seq<char>;

/// Whether only that instant is written so.
pub open spec fn is_written_apart(text: Seq<char>, t: Timestamp) -> bool {
    forall|secs: int, nanos: int|
        is_instant(secs, nanos) && #[trigger] rfc3339_zulu(secs, nanos) == text ==> secs
            == t.secs() && nanos == t.nanos()
}

/// `DateTime::to_rfc3339_opts` with `SecondsFormat::AutoSi` and `Z`, which is also how a
/// `DateTime` stands in JSON. The year, with a sign where it has not four digits, and all
/// digits down to the nanosecond that are not zero are written, so that different instants are
/// written differently. The digits are not stated.
#[verifier::external_body]
pub(crate) fn zulu_text(t: Timestamp) -> (text: String)
    ensures
        text@ == rfc3339_zulu(t.secs(), t.nanos()),
        is_written_apart(text@, t),
{
    let at = chrono::DateTime::from_timestamp(t.secs, t.nanos).unwrap();
    at.to_rfc3339_opts(chrono::SecondsFormat::AutoSi, true)
}

/// An instant that can be represented, in RFC 3339.
pub(crate) fn instant_text(t: Timestamp) -> (text: String)
    ensures
        text@ == rfc3339_zulu(t.secs(), t.nanos()),
        is_instant(t.secs(), t.nanos()),
        is_written_apart(text@, t),
{
    proof {
        use_type_invariant(&t);
    }
    zulu_text(t)
}

/// An instant in RFC 3339 with the offset `+00:00`.
pub uninterp spec fn rfc3339_offset(secs: int, nanos: int) -> Seq<char>;

/// `DateTime::to_rfc3339`. The digits are not stated.
#[verifier::external_body]
pub(crate) fn offset_text(t: Timestamp) -> (text: String)
    ensures
        text@ == rfc3339_offset(t.secs(), t.nanos()),
{
    chrono::DateTime::from_timestamp(t.secs, t.nanos).unwrap().to_rfc3339()
}

/// A window of time.
#[derive(Clone, Copy, Debug, PartialEq, Eq, Structural)]
pub struct TimeWindow {
    pub start: Timestamp,
    pub end: Timestamp,
}

} // verus!
