//! Points in time, and the calls into the calendar crate.

use vstd::prelude::*;

verus! {

/// The points in time that the calendar of the `chrono` crate covers: seconds
/// since 1970 in UTC, and nanoseconds, which reach beyond a second only in the
/// last second of a minute (a leap second).
pub open spec fn in_calendar(secs: i64, nanos: u32) -> bool {
    &&& -8_334_601_228_800 <= secs <= 8_210_266_876_799
    &&& nanos < 2_000_000_000
    &&& nanos >= 1_000_000_000 ==> secs % 60 == 59
}

/// A point in time in UTC.
#[derive(Clone, Copy, Debug, PartialEq, Eq, Structural)]
pub struct Timestamp {
    secs: i64,
    nanos: u32,
}

impl View for Timestamp {
    type V = (i64, u32);

    closed spec fn view(&self) -> (i64, u32) {
        (self.secs, self.nanos)
    }
}

/// `a` is not later than `b`.
pub open spec fn not_later(a: (i64, u32), b: (i64, u32)) -> bool {
    a.0 < b.0 || (a.0 == b.0 && a.1 <= b.1)
}

impl Timestamp {
    #[verifier::type_invariant]
    closed spec fn in_range(self) -> bool {
        in_calendar(self.secs, self.nanos)
    }

    /// The point in time that many seconds and nanoseconds after 1970, if the
    /// calendar has it.
    pub fn new(secs: i64, nanos: u32) -> (r: Option<Timestamp>)
        ensures
            r is Some <==> in_calendar(secs, nanos),
            r matches Some(t) ==> t@ == (secs, nanos),
    {
        if secs < -8_334_601_228_800 || secs > 8_210_266_876_799 || nanos >= 2_000_000_000 {
            return None;
        }
        let second: i64 = (secs + 8_334_601_228_800) % 60;
        if nanos >= 1_000_000_000 && second != 59 {
            return None;
        }
        Some(Timestamp { secs, nanos })
    }

    /// Seconds since 1970.
    pub fn secs(&self) -> (r: i64)
        ensures
            r == self@.0,
    {
        self.secs
    }

    /// Nanoseconds within the second.
    pub fn nanos(&self) -> (r: u32)
        ensures
            r == self@.1,
    {
        self.nanos
    }

    /// Whether this is not later than `other`.
    pub fn at_or_before(&self, other: &Timestamp) -> (r: bool)
        ensures
            r == not_later(self@, other@),
    {
        self.secs < other.secs || (self.secs == other.secs && self.nanos <= other.nanos)
    }

    /// The present, which the calendar has, and which is never in a leap second.
    pub fn now() -> (r: Timestamp)
        ensures
            in_calendar(r@.0, r@.1),
            r@.1 < 1_000_000_000,
    {
        utc_now()
    }

    /// The point in time in RFC 3339.
    pub fn to_rfc3339(&self) -> (r: String)
        ensures
            r@ == rfc3339_text(self@.0, self@.1),
    {
        proof {
            use_type_invariant(self);
        }
        chrono_to_rfc3339(self.secs, self.nanos)
    }

    /// The point in time to the minute, for tables.
    pub fn to_minute(&self) -> (r: String)
        ensures
            r@ == calendar_text(self@.0, self@.1, "%Y-%m-%d %H:%M"@),
    {
        proof {
            use_type_invariant(self);
        }
        chrono_format(self.secs, self.nanos, "%Y-%m-%d %H:%M")
    }

    /// Reads a point in time in RFC 3339.
    pub fn parse_rfc3339(s: &str) -> (r: Option<Timestamp>)
        ensures
            timestamp_option(r) == rfc3339_instant(s@),
    {
        match chrono_parse_rfc3339(s) {
            Some(t) => Timestamp::new(t.0, t.1),
            None => None,
        }
    }
}

/// The view of an optional point in time.
pub open spec fn timestamp_option(t: Option<Timestamp>) -> Option<(i64, u32)> {
    match t {
        Some(x) => Some(x@),
        None => None,
    }
}

/// The RFC 3339 text of a point in time in UTC.
pub uninterp spec fn rfc3339_text(secs: i64, nanos: u32) -> Seq<char>;

/// A point in time in UTC laid out by a `strftime` pattern.
pub uninterp spec fn calendar_text(secs: i64, nanos: u32, pattern: Seq<char>) -> Seq<char>;

/// The point in time that an RFC 3339 text names, if it is one.
pub uninterp spec fn rfc3339_instant(s: Seq<char>) -> Option<(i64, u32)>;

/// `Utc::now`: the present, which the calendar covers; it is counted in seconds
/// and parts of one second, so that it is never in a leap second. Which point
/// in time it is depends on the clock of the machine and is left unsaid.
#[verifier::external_body]
fn utc_now() -> (r: Timestamp)
    ensures
        in_calendar(r@.0, r@.1),
        r@.1 < 1_000_000_000,
{
    let t = chrono::Utc::now();
    Timestamp { secs: t.timestamp(), nanos: t.timestamp_subsec_nanos() }
}

/// `DateTime::to_rfc3339` of the point in time that `DateTime::from_timestamp`
/// makes: the text depends on the point in time alone.
#[verifier::external_body]
fn chrono_to_rfc3339(secs: i64, nanos: u32) -> (r: String)
    requires
        in_calendar(secs, nanos),
    ensures
        r@ == rfc3339_text(secs, nanos),
{
    chrono::DateTime::<chrono::Utc>::from_timestamp(secs, nanos).unwrap().to_rfc3339()
}

/// `DateTime::format` of the point in time that `DateTime::from_timestamp`
/// makes, on a pattern of years, months, days, hours and minutes: the text
/// depends on the point in time and the pattern alone.
#[verifier::external_body]
fn chrono_format(secs: i64, nanos: u32, pattern: &str) -> (r: String)
    requires
        in_calendar(secs, nanos),
        pattern@ == "%Y-%m-%d %H:%M"@,
    ensures
        r@ == calendar_text(secs, nanos, pattern@),
{
    chrono::DateTime::<chrono::Utc>::from_timestamp(secs, nanos).unwrap().format(pattern).to_string()
}

/// `DateTime::parse_from_rfc3339`, taken to UTC: the point in time, which the
/// calendar covers, depends on the text alone.
#[verifier::external_body]
fn chrono_parse_rfc3339(s: &str) -> (r: Option<(i64, u32)>)
    ensures
        r == rfc3339_instant(s@),
        r matches Some(t) ==> in_calendar(t.0, t.1),
{
    let t = chrono::DateTime::parse_from_rfc3339(s).ok()?.with_timezone(&chrono::Utc);
    Some((t.timestamp(), t.timestamp_subsec_nanos()))
}

// ---------------------------------------------------------------------------
// Laws
// ---------------------------------------------------------------------------

/// Points in time are in one row: of two, one is not later than the other; if
/// each is not later than the other they are the same; and what is not later
/// than something that is not later than a third is not later than that.
pub proof fn law_time_is_a_row(a: (i64, u32), b: (i64, u32), c: (i64, u32))
    ensures
        not_later(a, b) || not_later(b, a),
        not_later(a, b) && not_later(b, a) <==> a == b,
        not_later(a, b) && not_later(b, c) ==> not_later(a, c),
        a.0 < b.0 ==> not_later(a, b),
{
}

/// The calendar has every second of the years 0 to 9999, with every nanosecond
/// in it, and leap seconds at the end of each minute only.
pub proof fn law_what_the_calendar_has(secs: i64, nanos: u32)
    ensures
        -62_167_219_200 <= secs <= 253_402_300_799 && nanos < 1_000_000_000 ==> in_calendar(
            secs,
            nanos,
        ),
        -62_167_219_200 <= secs <= 253_402_300_799 && 1_000_000_000 <= nanos < 2_000_000_000 ==> (
        in_calendar(secs, nanos) <==> secs % 60 == 59),
        in_calendar(secs, nanos) ==> nanos < 2_000_000_000,
{
}

} // verus!
