use vstd::prelude::*;

verus! {

/// What chrono's RFC3339 parser yields on a string: `None` where the string is
/// rejected, otherwise the instant as (Unix epoch seconds, subsecond
/// nanoseconds).
pub uninterp spec fn rfc3339_parse(s: Seq<char>) -> Option<(int, int)>;

/// Relies on chrono's `DateTime::parse_from_rfc3339`, with
/// `DateTime::timestamp` and `DateTime::timestamp_subsec_nanos` reading the
/// parsed instant: the outcome is a function of the string alone. Seconds are
/// bounded by chrono's representable year range (about ±262,000 years around
/// 1970), and subsecond nanoseconds stay below two billion (values of one
/// billion and above encode leap seconds).
#[verifier::external_body]
pub(crate) fn parse_rfc3339(s: &str) -> (r: Result<(i64, u32), String>)
    ensures
        match r {
            Ok(p) => rfc3339_parse(s@) == Some((p.0 as int, p.1 as int))
                && -0x1_0000_0000_0000 < p.0 < 0x1_0000_0000_0000 && p.1 < 2_000_000_000,
            Err(_) => rfc3339_parse(s@) is None,
        },
{
    match chrono::DateTime::parse_from_rfc3339(s) {
        Ok(dt) => Ok((dt.timestamp(), dt.timestamp_subsec_nanos())),
        Err(e) => Err(format!("{:?}", e)),
    }
}

} // verus!
