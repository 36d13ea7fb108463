use vstd::prelude::*;

verus! {

/// What the calendar library answers for the last day of the seven-day
/// window that starts at the given string: `None` where the string is not a
/// parseable ISO calendar date (or the window leaves the supported range),
/// otherwise the date six days later, ISO-formatted. The answer depends on
/// the input string alone.
pub uninterp spec fn week_end_of(s: Seq<char>) -> Option<Seq<char>>;

/// Relies on chrono's `NaiveDate`: `parse_from_str` with the `%Y-%m-%d`
/// format, `checked_add_days` with six days, and the ISO-8601 `Display`
/// form. All three are pure, so the result is a function of the input
/// string alone, named `week_end_of`.
#[verifier::external_body]
pub(crate) fn week_end_date(s: &str) -> (r: Option<String>)
    ensures
        r is Some <==> week_end_of(s@) is Some,
        r matches Some(t) ==> week_end_of(s@) == Some(t@),
{
    let d = match chrono::NaiveDate::parse_from_str(s, "%Y-%m-%d") {
        Ok(d) => d,
        Err(_) => return None,
    };
    let e = match d.checked_add_days(chrono::Days::new(6)) {
        Some(e) => e,
        None => return None,
    };
    Some(e.to_string())
}

/// Relies on chrono: `Utc::now().date_naive()` in its ISO-8601 `Display`
/// form. The result is the current calendar day, which depends on the
/// clock, so nothing is promised of it.
#[verifier::external_body]
pub(crate) fn today_date() -> String {
    chrono::Utc::now().date_naive().to_string()
}

/// Relies on chrono: `Utc::now().to_rfc3339()`. The result is the current
/// instant, which depends on the clock, so nothing is promised of it.
#[verifier::external_body]
pub(crate) fn now_timestamp() -> String {
    chrono::Utc::now().to_rfc3339()
}

} // verus!
