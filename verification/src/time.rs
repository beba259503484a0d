use vstd::prelude::*;

verus! {

/// Earliest second that a UTC date-time can name (that of `DateTime::<Utc>::MIN_UTC`).
pub const MIN_SECS: i64 = -8334601228800i64;

/// Latest second that a UTC date-time can name (that of `DateTime::<Utc>::MAX_UTC`).
pub const MAX_SECS: i64 = 8210266876799i64;

/// Largest number of whole seconds that a time span can hold.
pub const MAX_SPAN_SECS: i64 = 9223372036854775i64;

/// First second of the year 0 (`0000-01-01T00:00:00Z`).
pub const YEAR_ZERO_SECS: i64 = -62167219200i64;

/// Last second of the year 9999 (`9999-12-31T23:59:59Z`).
pub const YEAR_9999_END_SECS: i64 = 253402300799i64;

/// A UTC instant: whole seconds since the Unix epoch plus the nanoseconds
/// past that second.
#[derive(Clone, Copy, Debug, PartialEq, Eq, Structural)]
pub struct Timestamp {
    pub secs: i64,
    pub nanos: u32,
}

impl Timestamp {
    /// An instant in the representable range that is not inside a leap second.
    pub open spec fn wf(self) -> bool {
        &&& MIN_SECS <= self.secs <= MAX_SECS
        &&& self.nanos < 1_000_000_000
    }

    /// An instant in the representable range, possibly inside a leap second
    /// (then its nanoseconds count past the end of the second, up to two seconds).
    pub open spec fn in_range(self) -> bool {
        &&& MIN_SECS <= self.secs <= MAX_SECS
        &&& self.nanos < 2_000_000_000
    }

    /// An instant that a chrono date-time can hold: in range, and inside a leap
    /// second only during the last second of a minute.
    pub open spec fn is_instant(self) -> bool {
        &&& self.in_range()
        &&& (self.nanos >= 1_000_000_000 ==> self.secs % 60 == 59)
    }

    /// An instant whose year, in UTC, has four digits (0 through 9999).
    pub open spec fn four_digit_year(self) -> bool {
        YEAR_ZERO_SECS <= self.secs <= YEAR_9999_END_SECS
    }

    /// Whether `self` comes strictly after `other`.
    pub open spec fn spec_after(self, other: Timestamp) -> bool {
        self.secs > other.secs || (self.secs == other.secs && self.nanos > other.nanos)
    }

    pub fn new(secs: i64, nanos: u32) -> (t: Timestamp)
        ensures
            t.secs == secs,
            t.nanos == nanos,
    {
        Timestamp { secs, nanos }
    }

    /// `self > other` in time.
    pub fn after(&self, other: &Timestamp) -> (r: bool)
        ensures
            r == self.spec_after(*other),
    {
        self.secs > other.secs || (self.secs == other.secs && self.nanos > other.nanos)
    }
}

/// The current time as the system clock reports it.
///
/// Calls `chrono::Utc::now`. Its source builds the value with
/// `DateTime::from_timestamp(secs, subsec_nanos).unwrap()` from a `std` duration,
/// so the instant is in range and its nanoseconds are below one second. Which
/// instant comes back is not stated: it depends on the clock.
#[verifier::external_body]
pub(crate) fn now() -> (t: Timestamp)
    ensures
        t.wf(),
{
    let n = chrono::Utc::now();
    Timestamp { secs: n.timestamp(), nanos: n.timestamp_subsec_nanos() }
}

/// The whole second `ttl` seconds after `stamped`. A stamp inside a leap
/// second leaves it as soon as seconds are added or taken away; taking them away
/// counts from the end of the leap second.
pub open spec fn ttl_end_secs(stamped: Timestamp, ttl: i64) -> int {
    if stamped.nanos >= 1_000_000_000 && ttl < 0 {
        stamped.secs + 1 + ttl
    } else {
        stamped.secs + ttl
    }
}

/// The nanoseconds past `ttl_end_secs`: a leap second's overflow is dropped
/// once seconds are added or taken away, and kept when `ttl` is 0.
pub open spec fn ttl_end_nanos(stamped: Timestamp, ttl: i64) -> int {
    if stamped.nanos >= 1_000_000_000 && ttl != 0 {
        stamped.nanos - 1_000_000_000
    } else {
        stamped.nanos as int
    }
}

/// The instant an RFC 3339 date-time names, if the text is one.
pub uninterp spec fn rfc3339_instant(text: Seq<char>) -> Option<Timestamp>;

/// Parses an RFC 3339 date-time into the UTC instant it names.
///
/// Calls `chrono::DateTime::parse_from_rfc3339` and reads the result's Unix
/// seconds and sub-second nanoseconds. What it accepts takes the grammar of
/// RFC 3339 to say, so the result is named rather than described. A parsed
/// date-time holds its UTC instant as a `NaiveDateTime`, which lies between
/// `DateTime::<Utc>::MIN_UTC` and `MAX_UTC` and whose nanoseconds stay below two
/// seconds. `:60` reads as a leap second and only after minute 59 of local
/// time, and RFC 3339 offsets are whole minutes, so a leap second falls on the
/// last second of a UTC minute.
#[verifier::external_body]
pub(crate) fn parse_rfc3339(text: &str) -> (t: Option<Timestamp>)
    ensures
        t == rfc3339_instant(text@),
        t matches Some(s) ==> s.is_instant(),
{
    match chrono::DateTime::parse_from_rfc3339(text) {
        Ok(d) => Some(Timestamp { secs: d.timestamp(), nanos: d.timestamp_subsec_nanos() }),
        Err(_) => None,
    }
}

/// The RFC 3339 text that chrono writes for an instant.
pub uninterp spec fn rfc3339_text(t: Timestamp) -> Seq<char>;

/// Writes an instant as RFC 3339 text.
///
/// Calls `chrono::DateTime::<Utc>::from_timestamp`, which accepts every instant
/// that `is_instant` admits, and `to_rfc3339` on the result. The text is named.
/// For years 0 through 9999 `to_rfc3339` writes a four-digit year, `:60` for a
/// leap second, every non-zero fraction digit that matters and the offset
/// `+00:00`, which `parse_from_rfc3339` reads back as the same instant. Other
/// years it writes with a sign, which the parser refuses, so nothing is said of
/// reading them back.
#[verifier::external_body]
pub(crate) fn write_rfc3339(t: &Timestamp) -> (s: String)
    requires
        t.is_instant(),
    ensures
        s@ == rfc3339_text(*t),
        t.four_digit_year() ==> rfc3339_instant(s@) == Some(*t),
{
    match chrono::DateTime::from_timestamp(t.secs, t.nanos) {
        Some(d) => d.to_rfc3339(),
        None => String::new(),
    }
}

/// Whether a value stamped at `stamped` with a time-to-live of `ttl` seconds
/// can be added up without leaving the representable range.
pub open spec fn ttl_in_range(stamped: Timestamp, ttl: i64) -> bool {
    &&& -MAX_SPAN_SECS <= ttl <= MAX_SPAN_SECS
    &&& MIN_SECS <= ttl_end_secs(stamped, ttl) <= MAX_SECS
}

/// `stamped + ttl seconds > now`.
pub open spec fn spec_still_live(stamped: Timestamp, ttl: i64, now: Timestamp) -> bool {
    ||| ttl_end_secs(stamped, ttl) > now.secs
    ||| (ttl_end_secs(stamped, ttl) == now.secs && ttl_end_nanos(stamped, ttl) > now.nanos)
}

/// Whether something stamped at `stamped` that lives `ttl` seconds has not yet
/// expired at `now` (its end lies strictly after `now`).
pub fn still_live(stamped: &Timestamp, ttl: i64, now: &Timestamp) -> (r: bool)
    requires
        stamped.in_range(),
        ttl_in_range(*stamped, ttl),
    ensures
        r == spec_still_live(*stamped, ttl, *now),
{
    let leap = stamped.nanos >= 1_000_000_000;
    let end = if leap && ttl > 0 {
        Timestamp { secs: stamped.secs + ttl, nanos: stamped.nanos - 1_000_000_000 }
    } else if leap && ttl < 0 {
        Timestamp { secs: stamped.secs + 1 + ttl, nanos: stamped.nanos - 1_000_000_000 }
    } else {
        Timestamp { secs: stamped.secs + ttl, nanos: stamped.nanos }
    };
    end.after(now)
}

} // verus!
