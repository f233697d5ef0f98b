//! Instants in UTC, held as seconds and nanoseconds since the Unix epoch.

use vstd::prelude::*;

verus! {

/// The earliest second that a `Timestamp` may hold: the start of
/// January 1, 262143 BCE (year -262143), chrono's earliest date.
pub const MIN_SECS: i64 = -8_334_601_228_800;

/// The latest second that a `Timestamp` may hold: the last second of
/// December 31, 262142 CE, chrono's latest date.
pub const MAX_SECS: i64 = 8_210_266_876_799;

/// Whether `(secs, nanos)` names an instant: `secs` within the supported
/// range, and `nanos` under one second, or under two seconds in the last
/// second of a minute (a leap second).
pub open spec fn valid_instant(secs: int, nanos: int) -> bool {
    &&& MIN_SECS <= secs <= MAX_SECS
    &&& 0 <= nanos
    &&& (nanos < 1_000_000_000 || (nanos < 2_000_000_000 && secs % 60 == 59))
}

/// The order of instants: by second, then by nanosecond.
pub open spec fn instant_lt(a: (int, int), b: (int, int)) -> bool {
    a.0 < b.0 || (a.0 == b.0 && a.1 < b.1)
}

/// An instant in UTC.
#[derive(Clone, Copy, Debug, PartialEq, Eq, Structural)]
pub struct Timestamp {
    secs: i64,
    nanos: u32,
}

impl Timestamp {
    /// The instant as (seconds, nanoseconds) since the Unix epoch.
    pub closed spec fn view(self) -> (int, int) {
        (self.secs as int, self.nanos as int)
    }

    /// Every `Timestamp` names a valid instant.
    #[verifier::type_invariant]
    pub closed spec fn inv(self) -> bool {
        valid_instant(self.secs as int, self.nanos as int)
    }

    /// What the invariant says of the instant.
    pub proof fn lemma_inv(self)
        requires
            self.inv(),
        ensures
            valid_instant(self@.0, self@.1),
    {
    }

    /// The instant `secs` seconds and `nanos` nanoseconds after the Unix
    /// epoch, where that names a valid instant.
    pub fn from_unix(secs: i64, nanos: u32) -> (r: Option<Timestamp>)
        ensures
            r is Some <==> valid_instant(secs as int, nanos as int),
            r matches Some(t) ==> t@ == (secs as int, nanos as int),
    {
        if secs < MIN_SECS || secs > MAX_SECS {
            return None;
        }
        let rem: i64 = secs % 60;
        let minute_end = rem == 59 || rem == -1;
        assert(minute_end <==> secs as int % 60 == 59);
        if nanos < 1_000_000_000 || (nanos < 2_000_000_000 && minute_end) {
            Some(Timestamp { secs, nanos })
        } else {
            None
        }
    }

    pub fn secs(&self) -> (r: i64)
        ensures
            r as int == self@.0,
    {
        self.secs
    }

    pub fn nanos(&self) -> (r: u32)
        ensures
            r as int == self@.1,
    {
        self.nanos
    }

    /// Whether `self` is a strictly later instant than `other`.
    pub fn is_after(&self, other: &Timestamp) -> (r: bool)
        ensures
            r == instant_lt(other@, self@),
    {
        self.secs > other.secs || (self.secs == other.secs && self.nanos > other.nanos)
    }
}

/// The RFC 3339 text that chrono writes for the instant `(secs, nanos)`.
pub uninterp spec fn rfc3339_of(secs: int, nanos: int) -> Seq<char>;

/// The instant, as (seconds, nanoseconds) since the Unix epoch, that chrono
/// reads from `text`, or `None` where chrono does not read it.
pub uninterp spec fn rfc3339_value(text: Seq<char>) -> Option<(int, int)>;

/// Relies on chrono's DateTime::<Utc>::from_timestamp and
/// to_rfc3339_opts(SecondsFormat::AutoSi, true), the form in which chrono's
/// serde support writes a DateTime<Utc>. from_timestamp accepts every valid
/// instant (the supported range is chrono's date range), so the unwrap
/// holds. AutoSi writes every non-zero digit of the nanoseconds and a leap
/// second as second 60, so chrono's FromStr reads the text back as the same
/// instant.
#[verifier::external_body]
pub(crate) fn rfc3339_text(t: &Timestamp) -> (r: String)
    ensures
        r@ == rfc3339_of(t@.0, t@.1),
        rfc3339_value(r@) == Some(t@),
{
    chrono::DateTime::from_timestamp(t.secs, t.nanos).unwrap().to_rfc3339_opts(chrono::SecondsFormat::AutoSi, true)
}

/// Relies on chrono's FromStr for DateTime<FixedOffset>, which chrono's serde
/// support uses to read a DateTime<Utc>, then on DateTime::timestamp and
/// timestamp_subsec_nanos: the instant that `text` names.
#[verifier::external_body]
pub(crate) fn parse_rfc3339(text: &str) -> (r: Option<(i64, u32)>)
    ensures
        r is None ==> rfc3339_value(text@) is None,
        r matches Some(p) ==> rfc3339_value(text@) == Some((p.0 as int, p.1 as int)),
{
    text.parse::<chrono::DateTime<chrono::FixedOffset>>().ok().map(|d| (d.timestamp(), d.timestamp_subsec_nanos()))
}

} // verus!
