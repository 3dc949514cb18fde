//! Instants in UTC, held as seconds and nanoseconds since the Unix epoch, and
//! their text forms (produced by `chrono`).
use vstd::prelude::*;
use chrono::{DateTime, SecondsFormat, Utc};

verus! {

/// `chrono` accepts `secs` and `nanos` as an instant (`DateTime::from_timestamp` is `Some`).
pub uninterp spec fn instant_valid(secs: i64, nanos: u32) -> bool;

/// RFC 3339 text of an instant with as many fractional digits as needed;
/// `z` selects a `Z` suffix over `+00:00`.
pub uninterp spec fn rfc3339_text(secs: i64, nanos: u32, z: bool) -> Seq<char>;

/// The instant an RFC 3339 text denotes, converted to UTC, if it parses.
pub uninterp spec fn rfc3339_parsed(s: Seq<char>) -> Option<(i64, u32)>;


/// What `NaiveDateTime::parse_from_str(s, format)` read as UTC gives, as parts.
pub uninterp spec fn naive_parsed(s: Seq<char>, format: Seq<char>) -> Option<(i64, u32)>;

/// The instant `minutes` minutes after (`forward`) or before an instant, if
/// `TimeDelta::try_minutes` and the checked addition or subtraction succeed.
pub uninterp spec fn shifted_by_minutes(secs: i64, nanos: u32, minutes: i64, forward: bool) -> Option<
    (i64, u32),
>;

/// The instant written with a `chrono` format string (UTC).
pub uninterp spec fn formatted_text(secs: i64, nanos: u32, format: Seq<char>) -> Seq<char>;

/// `NaiveDateTime::parse_from_str(s, format)` taken as UTC (`.and_utc()`).
/// Trusted: the result is a function of the text and format, and parts that
/// chrono produced are accepted back by `from_timestamp`.
#[verifier::external_body]
fn parse_naive_parts(s: &str, format: &str) -> (res: Option<(i64, u32)>)
    ensures
        res == naive_parsed(s@, format@),
        res matches Some(p) ==> instant_valid(p.0, p.1),
{
    match chrono::NaiveDateTime::parse_from_str(s, format) {
        Ok(n) => {
            let u = n.and_utc();
            Some((u.timestamp(), u.timestamp_subsec_nanos()))
        },
        Err(_) => None,
    }
}

/// `TimeDelta::try_minutes(minutes)` added to (or subtracted from) an
/// accepted instant with `checked_add_signed` (`checked_sub_signed`); `None`
/// where `DateTime + TimeDelta::minutes` would panic. Trusted: the result is a
/// function of the arguments and is an accepted instant.
#[verifier::external_body]
fn shift_parts(secs: i64, nanos: u32, minutes: i64, forward: bool) -> (res: Option<(i64, u32)>)
    requires
        instant_valid(secs, nanos),
    ensures
        res == shifted_by_minutes(secs, nanos, minutes, forward),
        res matches Some(p) ==> instant_valid(p.0, p.1),
{
    let d = match DateTime::from_timestamp(secs, nanos) {
        Some(d) => d,
        None => return None,
    };
    let delta = match chrono::TimeDelta::try_minutes(minutes) {
        Some(t) => t,
        None => return None,
    };
    let moved = if forward { d.checked_add_signed(delta) } else { d.checked_sub_signed(delta) };
    match moved {
        Some(m) => Some((m.timestamp(), m.timestamp_subsec_nanos())),
        None => None,
    }
}

/// A `strftime` directive that this library writes: year, month, day, hour,
/// minute or second.
pub open spec fn is_plain_directive(c: char) -> bool {
    c == 'Y' || c == 'm' || c == 'd' || c == 'H' || c == 'M' || c == 'S'
}

/// Every `%` of the format is followed by a plain directive. chrono formats
/// such a text without error: it has no unknown, incomplete or modified
/// directive.
pub open spec fn format_supported(format: Seq<char>) -> bool {
    forall|i: int|
        0 <= i < format.len() && format[i] == '%' ==> i + 1 < format.len() && is_plain_directive(
            #[trigger] format[i + 1],
        )
}

/// `DateTime::format(format)` of an accepted instant, for a format made of
/// literal text and the plain directives (chrono's `to_string` on the
/// formatted value panics on a directive it cannot write).
#[verifier::external_body]
fn format_parts(secs: i64, nanos: u32, format: &str) -> (res: String)
    requires
        instant_valid(secs, nanos),
        format_supported(format@),
    ensures
        res@ == formatted_text(secs, nanos, format@),
{
    match DateTime::from_timestamp(secs, nanos) {
        Some(d) => d.format(format).to_string(),
        None => String::new(),
    }
}

/// Whether `chrono::DateTime::from_timestamp(secs, nanos)` gives an instant.
#[verifier::external_body]
fn chrono_accepts(secs: i64, nanos: u32) -> (res: bool)
    ensures
        res == instant_valid(secs, nanos),
{
    DateTime::from_timestamp(secs, nanos).is_some()
}

/// `chrono::Utc::now()` as seconds and nanoseconds. Trusted: the parts of an
/// instant that chrono produced are accepted back by `from_timestamp`. The
/// value itself depends on the clock and is not stated.
#[verifier::external_body]
fn utc_now_parts() -> (res: (i64, u32))
    ensures
        instant_valid(res.0, res.1),
{
    let t = Utc::now();
    (t.timestamp(), t.timestamp_subsec_nanos())
}

/// `chrono::DateTime::parse_from_rfc3339`, converted to UTC parts. Trusted:
/// the result is a function of the text, and parts that chrono produced are
/// accepted back by `from_timestamp`.
#[verifier::external_body]
fn parse_rfc3339_parts(s: &str) -> (res: Option<(i64, u32)>)
    ensures
        res == rfc3339_parsed(s@),
        res matches Some(p) ==> instant_valid(p.0, p.1),
{
    match DateTime::parse_from_rfc3339(s) {
        Ok(d) => {
            let u = d.with_timezone(&Utc);
            Some((u.timestamp(), u.timestamp_subsec_nanos()))
        },
        Err(_) => None,
    }
}

/// `DateTime::to_rfc3339_opts(SecondsFormat::AutoSi, z)` of an accepted instant.
#[verifier::external_body]
fn rfc3339_of_parts(secs: i64, nanos: u32, z: bool) -> (res: String)
    requires
        instant_valid(secs, nanos),
    ensures
        res@ == rfc3339_text(secs, nanos, z),
{
    match DateTime::from_timestamp(secs, nanos) {
        Some(d) => d.to_rfc3339_opts(SecondsFormat::AutoSi, z),
        None => String::new(),
    }
}

/// The instant to the second, written `%Y-%m-%dT%H-%M-%S` (UTC).
pub open spec fn second_stamp_text(secs: i64, nanos: u32) -> Seq<char> {
    formatted_text(secs, nanos, "%Y-%m-%dT%H-%M-%S"@)
}

/// An instant in UTC.
#[derive(Debug, Clone, Copy, PartialEq, Eq, Structural)]
pub struct Timestamp {
    secs: i64,
    nanos: u32,
}

impl Timestamp {
    #[verifier::type_invariant]
    spec fn accepted(self) -> bool {
        instant_valid(self.secs, self.nanos)
    }

    /// Whole seconds since the Unix epoch.
    pub closed spec fn spec_secs(self) -> i64 {
        self.secs
    }

    /// Nanoseconds past `spec_secs`.
    pub closed spec fn spec_nanos(self) -> u32 {
        self.nanos
    }

    /// The instant `secs` seconds and `nanos` nanoseconds after the epoch, if
    /// chrono accepts it.
    pub fn from_unix(secs: i64, nanos: u32) -> (res: Option<Timestamp>)
        ensures
            res is Some <==> instant_valid(secs, nanos),
            res matches Some(t) ==> t.spec_secs() == secs && t.spec_nanos() == nanos,
    {
        if chrono_accepts(secs, nanos) {
            Some(Timestamp { secs, nanos })
        } else {
            None
        }
    }

    /// The current instant (from the system clock).
    pub fn now() -> (res: Timestamp) {
        let (secs, nanos) = utc_now_parts();
        Timestamp { secs, nanos }
    }

    /// The instant an RFC 3339 text denotes, if it parses.
    pub fn parse_rfc3339(s: &str) -> (res: Option<Timestamp>)
        ensures
            res is Some <==> rfc3339_parsed(s@) is Some,
            res matches Some(t) ==> rfc3339_parsed(s@) == Some((t.spec_secs(), t.spec_nanos())),
    {
        match parse_rfc3339_parts(s) {
            Some((secs, nanos)) => Some(Timestamp { secs, nanos }),
            None => None,
        }
    }

    /// A text `NaiveDateTime::parse_from_str` reads with `format`, taken as UTC.
    pub fn parse_naive_utc(s: &str, format: &str) -> (res: Option<Timestamp>)
        ensures
            res is Some <==> naive_parsed(s@, format@) is Some,
            res matches Some(t) ==> naive_parsed(s@, format@) == Some((t.spec_secs(), t.spec_nanos())),
    {
        match parse_naive_parts(s, format) {
            Some((secs, nanos)) => Some(Timestamp { secs, nanos }),
            None => None,
        }
    }

    /// The instant `minutes` minutes after (`forward`) or before this one;
    /// `None` where chrono's `DateTime ± TimeDelta::minutes` would panic.
    pub fn shifted(&self, minutes: i64, forward: bool) -> (res: Option<Timestamp>)
        ensures
            res is Some <==> shifted_by_minutes(self.spec_secs(), self.spec_nanos(), minutes, forward) is Some,
            res matches Some(t) ==> shifted_by_minutes(self.spec_secs(), self.spec_nanos(), minutes, forward)
                == Some((t.spec_secs(), t.spec_nanos())),
    {
        proof {
            use_type_invariant(self);
        }
        match shift_parts(self.secs, self.nanos, minutes, forward) {
            Some((secs, nanos)) => Some(Timestamp { secs, nanos }),
            None => None,
        }
    }

    /// The instant written with a `chrono` format string made of literal text
    /// and the directives `%Y %m %d %H %M %S`.
    pub fn format(&self, format: &str) -> (res: String)
        requires
            format_supported(format@),
        ensures
            res@ == formatted_text(self.spec_secs(), self.spec_nanos(), format@),
    {
        proof {
            use_type_invariant(self);
        }
        format_parts(self.secs, self.nanos, format)
    }

    /// Whole seconds since the Unix epoch.
    pub fn unix_seconds(&self) -> (res: i64)
        ensures
            res == self.spec_secs(),
    {
        self.secs
    }

    /// Nanoseconds past the whole second.
    pub fn subsec_nanos(&self) -> (res: u32)
        ensures
            res == self.spec_nanos(),
    {
        self.nanos
    }

    /// The text a document stores: RFC 3339 with a `Z` suffix.
    pub open spec fn spec_document_text(self) -> Seq<char> {
        rfc3339_text(self.spec_secs(), self.spec_nanos(), true)
    }

    /// RFC 3339 with a `+00:00` offset (`DateTime::to_rfc3339`).
    pub open spec fn spec_rfc3339(self) -> Seq<char> {
        rfc3339_text(self.spec_secs(), self.spec_nanos(), false)
    }

    /// The text a document stores: RFC 3339 with a `Z` suffix.
    pub fn document_text(&self) -> (res: String)
        ensures
            res@ == self.spec_document_text(),
    {
        proof {
            use_type_invariant(self);
        }
        rfc3339_of_parts(self.secs, self.nanos, true)
    }

    /// RFC 3339 with a `+00:00` offset.
    pub fn to_rfc3339(&self) -> (res: String)
        ensures
            res@ == self.spec_rfc3339(),
    {
        proof {
            use_type_invariant(self);
        }
        rfc3339_of_parts(self.secs, self.nanos, false)
    }

    /// The instant to the second, written `%Y-%m-%dT%H-%M-%S`.
    pub fn second_stamp(&self) -> (res: String)
        ensures
            res@ == second_stamp_text(self.spec_secs(), self.spec_nanos()),
    {
        proof {
            reveal_strlit("%Y-%m-%dT%H-%M-%S");
        }
        self.format("%Y-%m-%dT%H-%M-%S")
    }

    /// The instant as shown to people: `%Y-%m-%d %H:%M:%S` (UTC).
    pub fn utc_text(&self) -> (res: String)
        ensures
            res@ == formatted_text(self.spec_secs(), self.spec_nanos(), "%Y-%m-%d %H:%M:%S"@),
    {
        proof {
            reveal_strlit("%Y-%m-%d %H:%M:%S");
        }
        self.format("%Y-%m-%d %H:%M:%S")
    }
}

} // verus!
