//! Cross-cutting helpers: the process clock, identifier minting, datetime
//! parsing with layered fallbacks, and port selection for the server.

use vstd::prelude::*;
use crate::text::{all_digits, dec_val, parse_u64_range, string_to_chars};

verus! {

/// Server discovery record; the embedding binary writes it as JSON at
/// startup and removes it at shutdown.
pub struct ServerInfo {
    pub pid: u32,
    pub host: String,
    pub port: u16,
}

/// Relies on `chrono::Utc::now` and `DateTime::timestamp_millis`: the
/// current time as Unix milliseconds. Nothing is promised of the value.
#[verifier::external_body]
pub fn now_millis() -> i64 {
    chrono::Utc::now().timestamp_millis()
}

/// Relies on `uuid::Uuid::new_v4` and its `Display` form: a fresh random
/// identifier in the 36-character hyphenated lower-hex format (hyphens at
/// positions 8, 13, 18 and 23, every other character a lower-case hex
/// digit). Nothing else is promised; in particular two calls may in
/// principle collide.
#[verifier::external_body]
pub fn new_uuid() -> (r: String)
    ensures
        r@.len() == 36,
        forall|i: int|
            0 <= i < 36 ==> (if i == 8 || i == 13 || i == 18 || i == 23 {
                r@[i] == '-'
            } else {
                ('0' <= #[trigger] r@[i] && r@[i] <= '9') || ('a' <= r@[i] && r@[i] <= 'f')
            }),
{
    uuid::Uuid::new_v4().to_string()
}

/// What chrono's RFC 3339 parser yields for a string, as UTC Unix
/// milliseconds: a function of the characters alone.
pub uninterp spec fn rfc3339_millis_of(s: Seq<char>) -> Option<i64>;

/// Relies on `chrono::DateTime::parse_from_rfc3339`: the outcome depends on
/// the characters alone.
#[verifier::external_body]
pub fn parse_rfc3339_millis(s: &str) -> (r: Option<i64>)
    ensures
        r == rfc3339_millis_of(s@),
{
    match chrono::DateTime::parse_from_rfc3339(s) {
        Ok(dt) => Some(dt.with_timezone(&chrono::Utc).timestamp_millis()),
        Err(_) => None,
    }
}

/// What chrono's `parse_from_str` with the fixed layout
/// `%Y-%m-%dT%H:%M:%S%.fZ` yields for a string, as UTC Unix milliseconds: a
/// function of the characters alone.
pub uninterp spec fn iso_zulu_millis_of(s: Seq<char>) -> Option<i64>;

/// Relies on `chrono::DateTime::parse_from_str` with the layout
/// `%Y-%m-%dT%H:%M:%S%.fZ`: the outcome depends on the characters alone.
#[verifier::external_body]
pub fn parse_iso_zulu_millis(s: &str) -> (r: Option<i64>)
    ensures
        r == iso_zulu_millis_of(s@),
{
    match chrono::DateTime::parse_from_str(s, "%Y-%m-%dT%H:%M:%S%.fZ") {
        Ok(dt) => Some(dt.with_timezone(&chrono::Utc).timestamp_millis()),
        Err(_) => None,
    }
}

/// The value of an optionally signed decimal numeral, when it fits in `i64`.
pub open spec fn spec_parse_i64(s: Seq<char>) -> Option<int> {
    let neg = s.len() > 0 && s[0] == '-';
    let digits = if s.len() > 0 && (s[0] == '-' || s[0] == '+') {
        s.skip(1)
    } else {
        s
    };
    if digits.len() == 0 || !all_digits(digits) {
        None
    } else {
        let v = if neg {
            -(dec_val(digits) as int)
        } else {
            dec_val(digits) as int
        };
        if i64::MIN <= v <= i64::MAX {
            Some(v)
        } else {
            None
        }
    }
}

/// Parses an optionally signed decimal numeral, as `str::parse::<i64>` does.
pub fn parse_i64_chars(s: &Vec<char>) -> (r: Option<i64>)
    ensures
        match r {
            Some(v) => spec_parse_i64(s@) == Some(v as int),
            None => spec_parse_i64(s@) is None,
        },
{
    let mut neg = false;
    let mut start: usize = 0;
    if s.len() > 0 && (s[0] == '-' || s[0] == '+') {
        neg = s[0] == '-';
        start = 1;
    }
    proof {
        if start == 1 {
            assert(s@.skip(1) =~= s@.subrange(1, s@.len() as int));
        } else {
            assert(s@ =~= s@.subrange(0, s@.len() as int));
        }
    }
    match parse_u64_range(s, start, s.len()) {
        None => None,
        Some(m) => {
            if !neg {
                if m <= i64::MAX as u64 {
                    Some(m as i64)
                } else {
                    None
                }
            } else {
                if m < 0x8000_0000_0000_0000u64 {
                    Some(-(m as i64))
                } else if m == 0x8000_0000_0000_0000u64 {
                    Some(i64::MIN)
                } else {
                    None
                }
            }
        },
    }
}

/// A numeral read as a Unix timestamp: values above 10^12 are taken as
/// milliseconds, smaller ones as seconds and scaled. Values whose scaling
/// would leave `i64` yield `None`.
pub open spec fn spec_timestamp_millis(n: int) -> Option<int> {
    if n > 1_000_000_000_000 {
        Some(n)
    } else if n >= -9_223_372_036_854_775 {
        Some(n * 1000)
    } else {
        None
    }
}

/// Parse a datetime string with multiple format support: RFC 3339 first,
/// then the fixed `...Z` layout, then a bare Unix timestamp; when nothing
/// matches (or the timestamp cannot be scaled), fall back to the current
/// time, of which nothing is promised. An input with a literal `Z` zone
/// also parses under RFC 3339, so the second branch only catches strings
/// the first refused for other reasons.
pub fn parse_datetime(datetime_str: &str) -> (r: i64)
    ensures
        rfc3339_millis_of(datetime_str@) is Some ==> r == rfc3339_millis_of(datetime_str@)->0,
        rfc3339_millis_of(datetime_str@) is None && iso_zulu_millis_of(datetime_str@) is Some ==> r
            == iso_zulu_millis_of(datetime_str@)->0,
        rfc3339_millis_of(datetime_str@) is None && iso_zulu_millis_of(datetime_str@) is None
            && spec_parse_i64(datetime_str@) is Some && spec_timestamp_millis(
            spec_parse_i64(datetime_str@)->0,
        ) is Some ==> r == spec_timestamp_millis(spec_parse_i64(datetime_str@)->0)->0,
{
    if let Some(ms) = parse_rfc3339_millis(datetime_str) {
        return ms;
    }
    if let Some(ms) = parse_iso_zulu_millis(datetime_str) {
        return ms;
    }
    let chars = string_to_chars(datetime_str);
    if let Some(n) = parse_i64_chars(&chars) {
        if n > 1_000_000_000_000 {
            return n;
        }
        if n >= -9_223_372_036_854_775i64 {
            let scaled: i64 = n * 1000;
            return scaled;
        }
    }
    now_millis()
}

/// The lowest offset at which a probe succeeded, as a port number.
pub open spec fn spec_first_available(port: u16, avail: Seq<bool>) -> Option<u16>
    recommends
        port + avail.len() - 1 <= u16::MAX,
    decreases avail.len(),
{
    if avail.len() == 0 {
        None
    } else if avail[0] {
        Some(port)
    } else {
        spec_first_available((port + 1) as u16, avail.skip(1))
    }
}

/// Picks the first free port at or above the configured one, given the
/// probe outcome for each candidate: `availability[i]` says whether port
/// `config.port + i` was free. The embedding binary performs the probes.
pub fn find_available_port(config: &crate::config::BackendConfig, availability: &Vec<bool>) -> (r:
    Option<u16>)
    requires
        availability@.len() == config.max_port_attempts + 1,
        config.port + config.max_port_attempts <= u16::MAX,
    ensures
        r == spec_first_available(config.port, availability@),
        r is Some ==> config.port <= r->0 <= config.port + config.max_port_attempts,
{
    let mut i: usize = 0;
    proof {
        assert(availability@.skip(0) =~= availability@);
    }
    while i < availability.len()
        invariant
            0 <= i <= availability@.len(),
            availability@.len() == config.max_port_attempts + 1,
            config.port + config.max_port_attempts <= u16::MAX,
            spec_first_available(config.port, availability@) == spec_first_available(
                (config.port + i) as u16,
                availability@.skip(i as int),
            ),
            forall|j: int| 0 <= j < i ==> !availability@[j],
        decreases availability@.len() - i,
    {
        if availability[i] {
            return Some(config.port + (i as u16));
        }
        proof {
            assert(availability@.skip(i as int).skip(1) =~= availability@.skip(i as int + 1));
        }
        i = i + 1;
    }
    None
}

} // verus!
