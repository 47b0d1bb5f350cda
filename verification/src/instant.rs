//! Points in time in UTC, as chrono writes them: seconds since the Unix
//! epoch and the nanoseconds past that second, which go past one second
//! during a leap second.

use vstd::prelude::*;
use crate::text::comma_free;

verus! {

/// `chrono::ParseError`, the reason a date and time did not parse.
#[verifier::external_type_specification]
#[verifier::external_body]
pub struct ExChronoParseError(chrono::ParseError);

/// The nanoseconds past the second stay below two seconds: from one
/// second on they count a leap second.
pub const NANOS_LIMIT: u32 = 2_000_000_000;

/// The seconds since the epoch of the first second chrono has: January 1
/// of the year -262143, 00:00:00.
pub const MIN_UTC_SECS: i64 = -8_334_601_228_800;

/// The seconds since the epoch of the last second chrono has: December 31
/// of the year 262142, 23:59:59.
pub const MAX_UTC_SECS: i64 = 8_210_266_876_799;

/// Whether `chrono::DateTime::from_timestamp` has a date and time for
/// these seconds and nanoseconds: the seconds fall within chrono's dates,
/// the nanoseconds stay below two seconds, and they reach one second (a
/// leap second) only in the last second of a minute.
pub open spec fn utc_timestamp_valid(secs: i64, nanos: u32) -> bool {
    &&& MIN_UTC_SECS <= secs <= MAX_UTC_SECS
    &&& nanos < NANOS_LIMIT
    &&& (nanos < 1_000_000_000 || secs % 60 == 59)
}

/// Whether chrono has a date and time for these seconds and nanoseconds.
pub fn timestamp_valid(secs: i64, nanos: u32) -> (r: bool)
    ensures
        r == utc_timestamp_valid(secs, nanos),
{
    if secs < MIN_UTC_SECS || secs > MAX_UTC_SECS || nanos >= NANOS_LIMIT {
        return false;
    }
    let from_min: u64 = (secs - MIN_UTC_SECS) as u64;
    assert(from_min % 60 == secs % 60) by (nonlinear_arith)
        requires
            from_min == secs - MIN_UTC_SECS,
            MIN_UTC_SECS == -60 * 138_910_020_480,
    ;
    nanos < 1_000_000_000 || from_min % 60 == 59
}

/// A date and time in UTC that chrono has.
#[derive(Debug, Clone, Copy, PartialEq, Eq)]
pub struct Instant {
    secs: i64,
    nanos: u32,
}

impl Instant {
    #[verifier::type_invariant]
    spec fn inv(self) -> bool {
        utc_timestamp_valid(self.secs, self.nanos)
    }

    /// Whole seconds since the epoch.
    pub closed spec fn secs_spec(self) -> i64 {
        self.secs
    }

    /// Nanoseconds past the second.
    pub closed spec fn nanos_spec(self) -> u32 {
        self.nanos
    }

    /// The place of the instant in time order: chrono orders dates by
    /// their seconds, then by the nanoseconds past them.
    pub open spec fn rank(self) -> int {
        self.secs_spec() * 2_000_000_000 + self.nanos_spec()
    }

    /// The instant `secs` seconds and `nanos` nanoseconds after the epoch;
    /// `None` where chrono has no such date and time.
    pub fn new(secs: i64, nanos: u32) -> (r: Option<Instant>)
        ensures
            r is Some <==> utc_timestamp_valid(secs, nanos),
            r matches Some(t) ==> t.secs_spec() == secs && t.nanos_spec() == nanos,
    {
        if timestamp_valid(secs, nanos) {
            Some(Instant { secs, nanos })
        } else {
            None
        }
    }

    /// Whole seconds since the epoch.
    pub fn secs(&self) -> (r: i64)
        ensures
            r == self.secs_spec(),
    {
        self.secs
    }

    /// Nanoseconds past the second.
    pub fn nanos(&self) -> (r: u32)
        ensures
            r == self.nanos_spec(),
            r < NANOS_LIMIT,
    {
        proof {
            use_type_invariant(self);
        }
        self.nanos
    }

    /// More than `hours` hours pass from `earlier` to `later`, as chrono
    /// counts the time between them.
    pub fn more_than_hours_after(later: Instant, earlier: Instant, hours: i64) -> (r: bool)
        requires
            -MAX_DELTA_HOURS <= hours <= MAX_DELTA_HOURS,
        ensures
            r == utc_more_than_hours(earlier.secs_spec(), earlier.nanos_spec(), later.secs_spec(), later.nanos_spec(), hours),
    {
        proof {
            use_type_invariant(later);
            use_type_invariant(earlier);
        }
        match utc_more_than_hours_between(earlier, later, hours) {
            Some(b) => b,
            None => {
                proof {
                    assert(false);
                }
                false
            },
        }
    }

    /// How chrono displays this date and time.
    pub fn display(&self) -> (r: String)
        ensures
            r@ == utc_display(self.secs_spec(), self.nanos_spec()),
            comma_free(r@),
    {
        proof {
            use_type_invariant(self);
        }
        match display_utc(self) {
            Some(s) => s,
            None => {
                proof {
                    assert(false);
                }
                String::new()
            },
        }
    }
}

/// `a` comes before `b`.
pub open spec fn before(a: Instant, b: Instant) -> bool {
    a.rank() < b.rank()
}

/// `a` comes before `b`.
pub fn is_before(a: Instant, b: Instant) -> (r: bool)
    ensures
        r == before(a, b),
{
    let an = a.nanos();
    let bn = b.nanos();
    a.secs() < b.secs() || (a.secs() == b.secs() && an < bn)
}

/// The most hours, either way, that `chrono::TimeDelta::hours` takes
/// without panicking.
pub const MAX_DELTA_HOURS: i64 = 2_562_047_788_015;

/// Whether more than `hours` hours pass from the earlier date to the
/// later one as `chrono::DateTime::signed_duration_since` counts them.
pub uninterp spec fn utc_more_than_hours(
    earlier_secs: i64,
    earlier_nanos: u32,
    later_secs: i64,
    later_nanos: u32,
    hours: i64,
) -> bool;

/// Builds both dates with `chrono::DateTime::from_timestamp` and compares
/// `signed_duration_since` with `chrono::TimeDelta::hours`. Claimed: it
/// answers where chrono has both dates, with the named comparison.
#[verifier::external_body]
fn utc_more_than_hours_between(earlier: Instant, later: Instant, hours: i64) -> (r: Option<bool>)
    requires
        -MAX_DELTA_HOURS <= hours <= MAX_DELTA_HOURS,
    ensures
        r is Some <==> (utc_timestamp_valid(earlier.secs_spec(), earlier.nanos_spec()) && utc_timestamp_valid(
            later.secs_spec(),
            later.nanos_spec(),
        )),
        r matches Some(b) ==> b == utc_more_than_hours(
            earlier.secs_spec(),
            earlier.nanos_spec(),
            later.secs_spec(),
            later.nanos_spec(),
            hours,
        ),
{
    let a = chrono::DateTime::from_timestamp(later.secs, later.nanos)?;
    let b = chrono::DateTime::from_timestamp(earlier.secs, earlier.nanos)?;
    Some(a.signed_duration_since(b) > chrono::TimeDelta::hours(hours))
}

/// The UTC date and time `hours` hours before the one `secs` seconds and
/// `nanos` nanoseconds after the epoch, as `chrono::DateTime::checked_sub_signed`
/// with `chrono::TimeDelta::hours` gives it (seconds and nanoseconds past
/// the second); `None` where chrono has no such date.
pub uninterp spec fn utc_hours_earlier(secs: i64, nanos: u32, hours: i64) -> Option<(i64, u32)>;

/// Subtracts `hours` hours from a date and time with
/// `chrono::DateTime::checked_sub_signed` and `chrono::TimeDelta::hours`.
/// Claimed: the named result, which where it exists is a date chrono has
/// (its nanoseconds below two seconds, `from_timestamp` giving it back).
#[verifier::external_body]
fn utc_hours_before(t: Instant, hours: i64) -> (r: Option<(i64, u32)>)
    requires
        -MAX_DELTA_HOURS <= hours <= MAX_DELTA_HOURS,
        utc_timestamp_valid(t.secs_spec(), t.nanos_spec()),
    ensures
        r == utc_hours_earlier(t.secs_spec(), t.nanos_spec(), hours),
        r matches Some(p) ==> utc_timestamp_valid(p.0, p.1),
{
    let d = chrono::DateTime::from_timestamp(t.secs, t.nanos)?;
    let e = d.checked_sub_signed(chrono::TimeDelta::hours(hours))?;
    Some((e.timestamp(), e.timestamp_subsec_nanos()))
}

/// The place in time order of the date and time `hours` hours before `t`
/// (where chrono has it).
pub open spec fn hours_before_rank(t: Instant, hours: i64) -> int {
    match utc_hours_earlier(t.secs_spec(), t.nanos_spec(), hours) {
        Some(p) => p.0 * 2_000_000_000 + p.1,
        None => 0,
    }
}

impl Instant {
    /// The date and time `hours` hours before this one, as chrono counts
    /// it; `None` where chrono has no such date.
    pub fn hours_before(&self, hours: i64) -> (r: Option<Instant>)
        requires
            -MAX_DELTA_HOURS <= hours <= MAX_DELTA_HOURS,
        ensures
            r is Some <==> utc_hours_earlier(self.secs_spec(), self.nanos_spec(), hours) is Some,
            r matches Some(e) ==> utc_hours_earlier(self.secs_spec(), self.nanos_spec(), hours) == Some(
                (e.secs_spec(), e.nanos_spec()),
            ) && e.rank() == hours_before_rank(*self, hours),
    {
        proof {
            use_type_invariant(self);
        }
        match utc_hours_before(*self, hours) {
            Some((secs, nanos)) => match Instant::new(secs, nanos) {
                Some(e) => Some(e),
                None => {
                    proof {
                        assert(false);
                    }
                    None
                },
            },
            None => None,
        }
    }
}

/// What `chrono::DateTime::parse_from_rfc3339` reads from a text, as UTC
/// seconds since the epoch and nanoseconds past the second; `None` where
/// the text is not an RFC 3339 date and time.
pub uninterp spec fn rfc3339_utc(text: Seq<char>) -> Option<(i64, u32)>;

/// Parses an RFC 3339 date and time with
/// `chrono::DateTime::parse_from_rfc3339`, converts it to UTC, and reads
/// its `timestamp` and `timestamp_subsec_nanos`. Claimed: it succeeds
/// exactly where the named parse is defined and gives its result; the
/// nanoseconds stay below two seconds, and `from_timestamp` gives the
/// date back from them.
#[verifier::external_body]
pub(crate) fn parse_rfc3339(text: &str) -> (r: Result<(i64, u32), chrono::ParseError>)
    ensures
        r is Ok <==> rfc3339_utc(text@) is Some,
        r matches Ok(t) ==> rfc3339_utc(text@) == Some(t) && utc_timestamp_valid(t.0, t.1),
{
    let t = chrono::DateTime::parse_from_rfc3339(text)?.with_timezone(&chrono::Utc);
    Ok((t.timestamp(), t.timestamp_subsec_nanos()))
}

/// The instant written in `text` (RFC 3339).
pub fn parse_instant(text: &str) -> (r: Result<Instant, chrono::ParseError>)
    ensures
        r is Ok <==> rfc3339_utc(text@) is Some,
        r matches Ok(t) ==> rfc3339_utc(text@) == Some((t.secs_spec(), t.nanos_spec())),
{
    let (secs, nanos) = parse_rfc3339(text)?;
    match Instant::new(secs, nanos) {
        Some(t) => Ok(t),
        None => {
            proof {
                assert(false);
            }
            Err(parse_rfc3339(text).unwrap_err())
        },
    }
}

/// How chrono displays the UTC date and time `secs` seconds and `nanos`
/// nanoseconds after the epoch (`2018-01-09 13:26:55.123456789 UTC`).
pub uninterp spec fn utc_display(secs: i64, nanos: u32) -> Seq<char>;

/// Displays an instant with `chrono::DateTime<Utc>`'s `Display`, building
/// the date with `chrono::DateTime::from_timestamp`. Claimed: a text where
/// chrono has the date, and then the named one; chrono writes the date
/// with `-`, the time with `:` and `.`, then a space and `UTC`, so the
/// text holds no comma.
#[verifier::external_body]
fn display_utc(t: &Instant) -> (r: Option<String>)
    ensures
        r is Some <==> utc_timestamp_valid(t.secs_spec(), t.nanos_spec()),
        r matches Some(s) ==> s@ == utc_display(t.secs_spec(), t.nanos_spec()) && comma_free(s@),
{
    chrono::DateTime::from_timestamp(t.secs, t.nanos).map(|d| d.to_string())
}

} // verus!
