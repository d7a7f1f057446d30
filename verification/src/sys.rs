//! The `sys` dashboard: uptime text and progress bars.
use vstd::prelude::*;
use vstd::string::StringExecFns;
use crate::text::{decimal, join_with, join_strings, push_decimal, push_repeat, repeat};

verus! {

/// `n` followed by the unit name, plural unless `n` is 1 (`3 hours`, `1 day`).
pub open spec fn unit_text(n: nat, unit: Seq<char>) -> Seq<char> {
    decimal(n) + " "@ + unit + (if n == 1 {
        ""@
    } else {
        "s"@
    })
}

/// The parts of an uptime: whole days, the hours and the minutes left over; days and
/// hours only when non-zero, minutes when non-zero or when there is nothing else.
pub open spec fn uptime_parts(secs: nat) -> Seq<Seq<char>> {
    let days = secs / 86400;
    let hours = (secs % 86400) / 3600;
    let minutes = (secs % 3600) / 60;
    (if days > 0 {
        seq![unit_text(days, "day"@)]
    } else {
        seq![]
    }) + (if hours > 0 {
        seq![unit_text(hours, "hour"@)]
    } else {
        seq![]
    }) + (if minutes > 0 || (days == 0 && hours == 0) {
        seq![unit_text(minutes, "minute"@)]
    } else {
        seq![]
    })
}

/// The uptime, its parts joined by `, ` (`2 days, 1 hour, 5 minutes`).
pub open spec fn uptime_text(secs: nat) -> Seq<char> {
    join_with(uptime_parts(secs), ", "@)
}

fn unit_string(n: u64, unit: &str) -> (r: String)
    ensures
        r@ == unit_text(n as nat, unit@),
{
    let mut r = String::new();
    push_decimal(&mut r, n);
    r.append(" ");
    r.append(unit);
    if n == 1 {
        r.append("");
    } else {
        r.append("s");
    }
    r
}

/// The uptime of `secs` seconds in days, hours and minutes.
pub fn format_uptime(secs: u64) -> (r: String)
    ensures
        r@ == uptime_text(secs as nat),
{
    let days = secs / 86400;
    let hours = (secs % 86400) / 3600;
    let minutes = (secs % 3600) / 60;
    let mut parts: Vec<String> = Vec::new();
    if days > 0 {
        parts.push(unit_string(days, "day"));
    }
    if hours > 0 {
        parts.push(unit_string(hours, "hour"));
    }
    if minutes > 0 || (days == 0 && hours == 0) {
        parts.push(unit_string(minutes, "minute"));
    }
    assert(parts@.map_values(|s: String| s@) =~= uptime_parts(secs as nat));
    join_strings(&parts, ", ")
}

/// Seconds do not show: an uptime reads the same as the whole minutes in it.
pub proof fn lemma_uptime_ignores_seconds(secs: nat)
    ensures
        uptime_text(secs) == uptime_text(60 * (secs / 60)),
{
    let m = 60 * (secs / 60);
    assert(m / 86400 == secs / 86400 && (m % 86400) / 3600 == (secs % 86400) / 3600 && (m % 3600)
        / 60 == (secs % 3600) / 60) by (nonlinear_arith)
        requires
            m == 60 * (secs / 60),
    {
        vstd::arithmetic::div_mod::lemma_fundamental_div_mod(secs as int, 60);
    }
}

/// An uptime always has at least one part.
pub proof fn lemma_uptime_nonempty(secs: nat)
    ensures
        uptime_parts(secs).len() >= 1,
        uptime_text(secs).len() > 0,
{
    let parts = uptime_parts(secs);
    let last = parts.last();
    assert(last.len() > 0);
    if parts.len() == 1 {
    } else {
        assert(uptime_text(secs) == join_with(parts.drop_last(), ", "@) + ", "@ + last);
    }
}

/// A bar of `filled` full blocks followed by light shade up to `width` characters.
pub open spec fn progress_bar_text(filled: nat, width: nat) -> Seq<char> {
    repeat('█', filled) + repeat('░', (if filled < width {
        width - filled
    } else {
        0
    }) as nat)
}

/// A bar with `filled` of `width` cells full (`█`) and the rest empty (`░`).
pub fn progress_bar(filled: usize, width: usize) -> (r: String)
    ensures
        r@ == progress_bar_text(filled as nat, width as nat),
{
    let mut bar = String::new();
    push_repeat(&mut bar, '█', filled);
    if filled < width {
        push_repeat(&mut bar, '░', width - filled);
    } else {
        push_repeat(&mut bar, '░', 0);
    }
    bar
}

/// A bar is as long as the larger of its filled count and its width.
pub proof fn lemma_progress_bar_len(filled: nat, width: nat)
    ensures
        progress_bar_text(filled, width).len() == (if filled < width {
            width
        } else {
            filled
        }),
{
}

} // verus!
