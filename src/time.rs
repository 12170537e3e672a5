use vstd::prelude::*;

use crate::segments::{instant_ok, MAX_INSTANT};

verus! {

/// The instant, in seconds from the Unix epoch, that a
/// `YYYY-MM-DD HH:MM:SS` text names in UTC; none where the text is not one.
pub uninterp spec fn parsed_instant(s: Seq<char>) -> Option<int>;

/// The `YYYY-MM-DD HH:MM:SS` text of an instant in UTC.
pub uninterp spec fn instant_text(secs: int) -> Seq<u8>;

/// Relies on chrono's `NaiveDateTime::parse_from_str` with the format
/// `%Y-%m-%d %H:%M:%S`, read as UTC by `and_utc().timestamp()`.
#[verifier::external_body]
fn parse_utc(s: &str) -> (r: Option<i64>)
    ensures
        r matches Some(t) ==> parsed_instant(s@) == Some(t as int),
        r is None ==> parsed_instant(s@) is None,
{
    match chrono::NaiveDateTime::parse_from_str(s, "%Y-%m-%d %H:%M:%S") {
        Ok(d) => Some(d.and_utc().timestamp()),
        Err(_) => None,
    }
}

/// Relies on chrono's `DateTime::from_timestamp`, which gives a date for
/// every instant inside the calendar's range, and on its `format` with
/// `%Y-%m-%d %H:%M:%S`.
#[verifier::external_body]
fn format_utc(secs: i64) -> (r: Vec<u8>)
    requires
        instant_ok(secs as int),
    ensures
        r@ == instant_text(secs as int),
{
    match chrono::DateTime::from_timestamp(secs, 0) {
        Some(d) => d.format("%Y-%m-%d %H:%M:%S").to_string().into_bytes(),
        None => Vec::new(),
    }
}

/// Reads a `YYYY-MM-DD HH:MM:SS` UTC text as an instant.
pub fn time_from_string(time_string: &str) -> (r: Option<i64>)
    ensures
        r matches Some(t) ==> parsed_instant(time_string@) == Some(t as int),
        r is None ==> parsed_instant(time_string@) is None,
{
    parse_utc(time_string)
}

/// Appends the `YYYY-MM-DD HH:MM:SS` text of an instant.
pub fn push_instant_text(out: &mut Vec<u8>, secs: i64)
    requires
        -MAX_INSTANT <= secs <= MAX_INSTANT,
    ensures
        final(out)@ == old(out)@ + instant_text(secs as int),
{
    let text = format_utc(secs);
    let mut i: usize = 0;
    while i < text.len()
        invariant
            i <= text.len(),
            out@ == old(out)@ + text@.subrange(0, i as int),
        decreases text.len() - i,
    {
        out.push(text[i]);
        assert(text@.subrange(0, i + 1) =~= text@.subrange(0, i as int).push(text@[i as int]));
        i = i + 1;
    }
    assert(text@.subrange(0, text.len() as int) =~= text@);
}

} // verus!
