//! Points in time as the server writes them.
use vstd::prelude::*;

use crate::text::same_text;

verus! {

/// A point in time with an offset from UTC.
#[derive(PartialEq, Eq, Structural, Clone, Copy, Debug)]
pub struct NetworkTime {
    /// Whole seconds since the start of 1970, UTC.
    pub secs: i64,
    /// Nanoseconds within the second; beyond a second within a leap second.
    pub nanos: u32,
    /// Seconds east of UTC.
    pub offset: i32,
}

impl NetworkTime {
    /// Whether this is a point in time that can be written: a real fraction and offset, and no
    /// more than about a quarter of a million years from now.
    pub open spec fn valid(self) -> bool {
        &&& -8_000_000_000_000 <= self.secs <= 8_000_000_000_000
        &&& self.nanos < 1_000_000_000 || (self.nanos < 2_000_000_000 && self.secs as int % 60 == 59)
        &&& -86_400 < self.offset < 86_400
    }

    /// Whether this is a point in time that can be written.
    pub fn is_valid(&self) -> (r: bool)
        ensures
            r == self.valid(),
    {
        if self.secs < -8_000_000_000_000 || self.secs > 8_000_000_000_000 {
            return false;
        }
        let shifted: i64 = self.secs + 8_000_000_000_040;
        assert(shifted as int % 60 == self.secs as int % 60);
        (self.nanos < 1_000_000_000 || (self.nanos < 2_000_000_000 && shifted % 60 == 59))
            && self.offset > -86_400 && self.offset < 86_400
    }
}

/// What `DateTime::parse_from_rfc3339` makes of a text: the seconds and nanoseconds of the point
/// in time and its offset, if the text is in the form of RFC 3339.
pub uninterp spec fn rfc3339_time(text: Seq<char>) -> Option<(i64, u32, i32)>;

/// What `DateTime::to_rfc3339_opts` writes, with milliseconds and a numeric offset, for the point
/// in time with these seconds, nanoseconds and offset.
pub uninterp spec fn rfc3339_text(secs: i64, nanos: u32, offset: i32) -> Seq<char>;

/// The error of `chrono`'s parsers.
#[verifier::external_type_specification]
#[verifier::external_body]
pub struct ExParseError(chrono::ParseError);

/// `DateTime::parse_from_rfc3339`: the point in time that the text writes in the form of RFC 3339,
/// or an error where it is not of that form.
#[verifier::external_body]
fn parse_rfc3339(text: &str) -> (r: Result<(i64, u32, i32), chrono::ParseError>)
    ensures
        match r {
            Ok(t) => rfc3339_time(text@) == Some(t),
            Err(_) => rfc3339_time(text@) is None,
        },
{
    let t = chrono::DateTime::parse_from_rfc3339(text)?;
    Ok((t.timestamp(), t.timestamp_subsec_nanos(), t.offset().local_minus_utc()))
}

/// `DateTime::to_rfc3339_opts` with milliseconds and a numeric offset, for the point in time with
/// these seconds, nanoseconds and offset.
#[verifier::external_body]
fn write_rfc3339(secs: i64, nanos: u32, offset: i32) -> (r: String)
    requires
        (NetworkTime { secs, nanos, offset }).valid(),
    ensures
        r@ == rfc3339_text(secs, nanos, offset),
{
    let utc = chrono::DateTime::from_timestamp(secs, nanos).unwrap();
    let zone = chrono::FixedOffset::east_opt(offset).unwrap();
    utc.with_timezone(&zone).to_rfc3339_opts(chrono::SecondsFormat::Millis, false)
}

/// The point in time that a text from the server gives: none for an empty text and for one that
/// is not in the form of RFC 3339.
pub open spec fn network_time(text: Seq<char>, parsed: Option<(i64, u32, i32)>) -> Option<
    NetworkTime,
> {
    match parsed {
        Some(t) if text.len() > 0 => Some(NetworkTime { secs: t.0, nanos: t.1, offset: t.2 }),
        _ => None,
    }
}

/// The point in time for a text and what became of parsing it.
pub fn network_time_from(text: &str, parsed: Option<(i64, u32, i32)>) -> (r: Option<NetworkTime>)
    ensures
        r == network_time(text@, parsed),
{
    proof {
        reveal_strlit("");
    }
    assert(text@.len() == 0 ==> text@ =~= ""@);
    if same_text(text, "") {
        None
    } else {
        match parsed {
            Some(t) => Some(NetworkTime { secs: t.0, nanos: t.1, offset: t.2 }),
            None => None,
        }
    }
}

/// Reads a point in time from the server.
pub fn parse_network_time(timer: &str) -> (r: Option<NetworkTime>)
    ensures
        r == network_time(timer@, rfc3339_time(timer@)),
{
    let parsed = match parse_rfc3339(timer) {
        Ok(t) => Some(t),
        Err(_) => None,
    };
    network_time_from(timer, parsed)
}

/// Writes a point in time for the server.
pub fn write_network_time(time: NetworkTime) -> (r: String)
    requires
        time.valid(),
    ensures
        r@ == rfc3339_text(time.secs, time.nanos, time.offset),
{
    write_rfc3339(time.secs, time.nanos, time.offset)
}

/// An empty text gives no point in time, and any other just what was parsed.
pub proof fn lemma_network_time(text: Seq<char>, parsed: Option<(i64, u32, i32)>)
    ensures
        text.len() == 0 || parsed is None ==> network_time(text, parsed) is None,
        text.len() > 0 && parsed is Some ==> network_time(text, parsed) is Some && network_time(
            text,
            parsed,
        ).unwrap().secs == parsed.unwrap().0 && network_time(text, parsed).unwrap().nanos
            == parsed.unwrap().1 && network_time(text, parsed).unwrap().offset
            == parsed.unwrap().2,
{
}

} // verus!
