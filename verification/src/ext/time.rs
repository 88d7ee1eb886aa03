//! Points in time as text: `chrono`.

use crate::util::chars::opt_text;
use vstd::prelude::*;

verus! {

/// A number of milliseconds since 1970 as text, in a zone so many seconds east
/// of Greenwich; `None` where the zone or the time is out of range.
pub uninterp spec fn time_text(millis: int, offset: int, format: Seq<char>) -> Option<Seq<char>>;

/// How many characters after a percent sign are a directive; none if they are not.
pub open spec fn directive_len(s: Seq<char>, i: int) -> Option<int> {
    if !(0 <= i < s.len()) {
        None
    } else if "yYmbBdHIMSpaAuz%"@.contains(s[i]) {
        Some(1)
    } else if i + 1 < s.len() && s[i] == '-' && "mdHIMS"@.contains(s[i + 1]) {
        Some(2)
    } else if i + 1 < s.len() && s[i] == '3' && s[i + 1] == 'f' {
        Some(2)
    } else if i + 1 < s.len() && s[i] == ':' && s[i + 1] == 'z' {
        Some(2)
    } else {
        None
    }
}

/// Whether every percent sign, from `i` on, starts a directive.
pub open spec fn is_format_from(s: Seq<char>, i: int) -> bool
    decreases s.len() - i,
{
    if i < 0 || i >= s.len() {
        i >= 0
    } else if s[i] != '%' {
        is_format_from(s, i + 1)
    } else {
        match directive_len(s, i + 1) {
            Some(n) => is_format_from(s, i + 1 + n),
            None => false,
        }
    }
}

/// `chrono::DateTime::format` in a fixed zone. A format with a directive that
/// `chrono` does not know cannot be written.
#[verifier::external_body]
pub(crate) fn format_time(millis: i64, offset: i32, format: &str) -> (r: Option<String>)
    requires
        is_format_from(format@, 0),
    ensures
        opt_text(r) == time_text(millis as int, offset as int, format@),
{
    let zone = chrono::FixedOffset::east_opt(offset)?;
    let utc = chrono::DateTime::<chrono::Utc>::from_timestamp_millis(millis)?;
    Some(utc.with_timezone(&zone).format(format).to_string())
}

} // verus!
