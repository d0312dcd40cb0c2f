use vstd::prelude::*;

verus! {

/// Seconds of 0000-01-01T00:00:00Z, the earliest instant a timestamp may hold.
pub const MIN_UNIX_SECONDS: i64 = -62167219200;

/// Seconds of 9999-12-31T23:59:59Z, the latest instant a timestamp may hold.
pub const MAX_UNIX_SECONDS: i64 = 253402300799;

/// An instant in UTC with whole-second precision, between the years 0000 and
/// 9999 (the years RFC 2822 and RFC 3339 can write with four digits).
#[derive(Clone, Copy, Debug, PartialEq, Eq, PartialOrd, Ord, Hash)]
pub struct Timestamp {
    secs: i64,
}

pub open spec fn in_timestamp_range(secs: int) -> bool {
    MIN_UNIX_SECONDS <= secs <= MAX_UNIX_SECONDS
}

/// What chrono's `to_rfc3339_opts(SecondsFormat::Secs, true)` writes for the instant.
pub uninterp spec fn iso8601_text(secs: i64) -> Seq<char>;

/// What chrono's `to_rfc2822` writes for the instant.
pub uninterp spec fn rfc2822_text(secs: i64) -> Seq<char>;

/// What chrono's `DateTime::parse_from_rfc3339` reads from the text, as whole
/// seconds since the Unix epoch (`None` where chrono rejects the text).
pub uninterp spec fn rfc3339_seconds(text: Seq<char>) -> Option<i64>;

/// Calls chrono's `DateTime::<Utc>::from_timestamp` and `to_rfc3339_opts`
/// (whole seconds, `Z` suffix). The contract claims that the text is the one
/// chrono writes for these seconds, and that chrono's RFC 3339 reader gives
/// the same seconds back for it: the text is `YYYY-MM-DDTHH:MM:SSZ` with a
/// four-digit year, which `parse_from_rfc3339` accepts.
#[verifier::external_body]
fn chrono_iso8601(secs: i64) -> (text: String)
    requires
        in_timestamp_range(secs as int),
    ensures
        text@ == iso8601_text(secs),
        rfc3339_seconds(text@) == Some(secs),
{
    match chrono::DateTime::from_timestamp(secs, 0) {
        Some(dt) => dt.to_rfc3339_opts(chrono::SecondsFormat::Secs, true),
        None => String::new(),
    }
}

/// Calls chrono's `DateTime::<Utc>::from_timestamp` and `to_rfc2822`. The
/// latter panics for years below 0 or above 9999, which `requires` leaves
/// out. The contract claims only that the text is the one chrono writes.
#[verifier::external_body]
fn chrono_rfc2822(secs: i64) -> (text: String)
    requires
        in_timestamp_range(secs as int),
    ensures
        text@ == rfc2822_text(secs),
{
    match chrono::DateTime::from_timestamp(secs, 0) {
        Some(dt) => dt.to_rfc2822(),
        None => String::new(),
    }
}

/// Calls chrono's `DateTime::parse_from_rfc3339` and `timestamp` (whole
/// seconds, the fraction dropped toward the past). The contract claims only
/// that the result is the one chrono gives for the text.
#[verifier::external_body]
fn chrono_parse_rfc3339(text: &str) -> (secs: Option<i64>)
    ensures
        secs == rfc3339_seconds(text@),
{
    match chrono::DateTime::parse_from_rfc3339(text) {
        Ok(dt) => Some(dt.timestamp()),
        Err(_) => None,
    }
}

impl Timestamp {
    #[verifier::type_invariant]
    spec fn in_range(self) -> bool {
        in_timestamp_range(self.secs as int)
    }

    /// Seconds since 1970-01-01T00:00:00Z.
    pub closed spec fn seconds(self) -> i64 {
        self.secs
    }

    /// The instant `secs` seconds after the epoch.
    pub closed spec fn at_seconds(secs: i64) -> Timestamp {
        Timestamp { secs }
    }

    /// An instant is fixed by its seconds.
    pub proof fn lemma_at_seconds(secs: i64, t: Timestamp)
        ensures
            Timestamp::at_seconds(secs).seconds() == secs,
            t.seconds() == secs ==> t == Timestamp::at_seconds(secs),
    {
    }

    /// The instant `secs` seconds after the Unix epoch, if it lies in the
    /// supported years.
    pub fn from_unix_seconds(secs: i64) -> (r: Option<Timestamp>)
        ensures
            r is Some <==> in_timestamp_range(secs as int),
            r matches Some(t) ==> t.seconds() == secs,
    {
        if MIN_UNIX_SECONDS <= secs && secs <= MAX_UNIX_SECONDS {
            Some(Timestamp { secs })
        } else {
            None
        }
    }

    pub fn unix_seconds(&self) -> (r: i64)
        ensures
            r == self.seconds(),
            in_timestamp_range(r as int),
    {
        proof {
            use_type_invariant(self);
        }
        self.secs
    }

    /// 1970-01-01T00:00:00Z.
    pub fn epoch() -> (r: Timestamp)
        ensures
            r.seconds() == 0,
    {
        Timestamp { secs: 0 }
    }

    /// Reads an RFC 3339 date-time; the fraction of a second is dropped.
    /// `None` where chrono rejects the text or the instant falls outside the
    /// years 0000 to 9999 in UTC.
    pub fn parse(value: &str) -> (r: Option<Timestamp>)
        ensures
            r matches Some(t) ==> rfc3339_seconds(value@) == Some(t.seconds()),
            r is Some <==> (rfc3339_seconds(value@) matches Some(s) && in_timestamp_range(
                s as int,
            )),
    {
        match chrono_parse_rfc3339(value) {
            Some(secs) => Timestamp::from_unix_seconds(secs),
            None => None,
        }
    }

    /// `YYYY-MM-DDTHH:MM:SSZ`, as chrono writes it.
    pub fn iso8601(&self) -> (r: String)
        ensures
            r@ == iso8601_text(self.seconds()),
            rfc3339_seconds(r@) == Some(self.seconds()),
            in_timestamp_range(self.seconds() as int),
    {
        proof {
            use_type_invariant(self);
        }
        chrono_iso8601(self.secs)
    }

    /// `Thu, 01 Jan 1970 00:00:00 +0000`, as chrono writes it.
    pub fn rfc2822(&self) -> (r: String)
        ensures
            r@ == rfc2822_text(self.seconds()),
    {
        proof {
            use_type_invariant(self);
        }
        chrono_rfc2822(self.secs)
    }
}

} // verus!
