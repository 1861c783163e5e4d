//! Human-readable rendering of millisecond durations, as shown when configurations are listed.

use vstd::prelude::*;
use crate::text::{decimal, decimal_string};

verus! {

/// The plural ending for a count of `n` units.
pub open spec fn plural_suffix(n: nat) -> Seq<char> {
    if n == 1 { ""@ } else { "s"@ }
}

/// `n` followed by the unit's name, made plural unless `n` is one.
pub open spec fn count_text(n: nat, unit: Seq<char>) -> Seq<char> {
    decimal(n) + " "@ + unit + plural_suffix(n)
}

/// The rendering of a duration of `ms` milliseconds: milliseconds below a second,
/// whole seconds below a minute, minutes and seconds below an hour, hours and
/// minutes above; a zero second or minute part is left out.
pub open spec fn duration_text(ms: nat) -> Seq<char> {
    if ms < 1000 {
        decimal(ms) + " ms"@
    } else if ms < 60_000 {
        count_text(ms / 1000, "second"@)
    } else if ms < 3_600_000 {
        let minutes = ms / 60_000;
        let seconds = (ms % 60_000) / 1000;
        if seconds == 0 {
            count_text(minutes, "minute"@)
        } else {
            count_text(minutes, "minute"@) + " "@ + count_text(seconds, "second"@)
        }
    } else {
        let hours = ms / 3_600_000;
        let minutes = (ms % 3_600_000) / 60_000;
        if minutes == 0 {
            count_text(hours, "hour"@)
        } else {
            count_text(hours, "hour"@) + " "@ + count_text(minutes, "minute"@)
        }
    }
}

fn push_count(out: &mut String, n: u64, unit: &str)
    ensures
        final(out)@ == old(out)@ + count_text(n as nat, unit@),
{
    let digits = decimal_string(n);
    out.append(digits.as_str());
    out.append(" ");
    out.append(unit);
    if n != 1 {
        out.append("s");
    } else {
        out.append("");
    }
    assert(final(out)@ =~= old(out)@ + count_text(n as nat, unit@));
}

/// Renders a duration given in milliseconds, such as `1 minute 30 seconds`.
pub fn format_duration(ms: u64) -> (r: String)
    ensures
        r@ == duration_text(ms as nat),
{
    let mut out = String::new();
    if ms < 1000 {
        let digits = decimal_string(ms);
        out.append(digits.as_str());
        out.append(" ms");
    } else if ms < 60_000 {
        push_count(&mut out, ms / 1000, "second");
    } else if ms < 3_600_000 {
        let minutes: u64 = ms / 60_000;
        let seconds: u64 = (ms % 60_000) / 1000;
        push_count(&mut out, minutes, "minute");
        if seconds != 0 {
            out.append(" ");
            push_count(&mut out, seconds, "second");
        }
    } else {
        let hours: u64 = ms / 3_600_000;
        let minutes: u64 = (ms % 3_600_000) / 60_000;
        push_count(&mut out, hours, "hour");
        if minutes != 0 {
            out.append(" ");
            push_count(&mut out, minutes, "minute");
        }
    }
    assert(out@ =~= duration_text(ms as nat));
    out
}

} // verus!
