use vstd::prelude::*;

verus! {

/// The UTC instant, in epoch milliseconds, denoted by an RFC 3339 / ISO 8601
/// date-time text, or nothing when the text does not parse. A function of
/// the text alone.
pub uninterp spec fn rfc3339_millis(s: Seq<char>) -> Option<i64>;

/// The UTC instant, in epoch milliseconds, obtained by parsing `s` against
/// the strftime-style pattern `fmt`, or nothing when it does not parse. A
/// function of the two texts alone.
pub uninterp spec fn format_parse_millis(s: Seq<char>, fmt: Seq<char>) -> Option<i64>;

/// Relies on chrono::DateTime::parse_from_rfc3339 and
/// chrono::DateTime::timestamp_millis: the parse outcome and the instant
/// depend on the text alone.
#[verifier::external_body]
fn parse_rfc3339(s: &str) -> (r: Option<i64>)
    ensures
        r == rfc3339_millis(s@),
{
    match chrono::DateTime::parse_from_rfc3339(s) {
        Ok(d) => Some(d.timestamp_millis()),
        Err(_) => None,
    }
}

/// Relies on chrono::DateTime::parse_from_str and
/// chrono::DateTime::timestamp_millis: the parse outcome and the instant
/// depend on the two texts alone.
#[verifier::external_body]
fn parse_with_format(s: &str, fmt: &str) -> (r: Option<i64>)
    ensures
        r == format_parse_millis(s@, fmt@),
{
    match chrono::DateTime::parse_from_str(s, fmt) {
        Ok(d) => Some(d.timestamp_millis()),
        Err(_) => None,
    }
}

/// The fallback date pattern tried when RFC 3339 parsing fails.
pub open spec fn fallback_fmt() -> Seq<char> {
    "%Y-%m-%dT%H:%M:%SZ"@
}

/// A date field's value: RFC 3339 first, then the fallback pattern.
pub open spec fn date_spec(s: Seq<char>) -> Option<i64> {
    match rfc3339_millis(s) {
        Some(t) => Some(t),
        None => format_parse_millis(s, fallback_fmt()),
    }
}

/// Parse one date field: RFC 3339 / ISO 8601, with one fallback pattern.
pub fn parse_date(s: &str) -> (r: Option<i64>)
    ensures
        r == date_spec(s@),
{
    match parse_rfc3339(s) {
        Some(t) => Some(t),
        None => parse_with_format(s, "%Y-%m-%dT%H:%M:%SZ"),
    }
}

} // verus!
