//! The time of day.
use crate::text;
use vstd::prelude::*;

verus! {

/// A number with at least two digits.
pub open spec fn two_digits(n: nat) -> Seq<char> {
    if n < 10 {
        seq!['0'] + text::decimal(n)
    } else {
        text::decimal(n)
    }
}

/// The time of day, some seconds after a midnight.
pub open spec fn time_of_day(seconds: nat) -> Seq<char> {
    two_digits((seconds / 3600) % 24) + ":"@ + two_digits((seconds / 60) % 60) + ":"@ + two_digits(
        seconds % 60,
    )
}

/// Appends a number with at least two digits.
pub fn push_two_digits(out: &mut String, n: u64)
    ensures
        final(out)@ == old(out)@ + two_digits(n as nat),
{
    let ghost before = out@;
    if n < 10 {
        out.push('0');
    }
    text::push_decimal(out, n);
    assert(out@ =~= before + two_digits(n as nat));
}

/// The time of day in hours, minutes and seconds, some seconds after a midnight.
pub fn format_time(seconds: u64) -> (r: String)
    ensures
        r@ == time_of_day(seconds as nat),
{
    let mut out = String::new();
    push_two_digits(&mut out, (seconds / 3600) % 24);
    out.append(":");
    push_two_digits(&mut out, (seconds / 60) % 60);
    out.append(":");
    push_two_digits(&mut out, seconds % 60);
    assert(out@ =~= time_of_day(seconds as nat));
    out
}

/// `std::time::SystemTime::elapsed` on the Unix epoch: the seconds since then, or nothing
/// where the clock stands before it. What time it is is left open.
#[verifier::external_body]
fn seconds_since_epoch() -> (r: Option<u64>) {
    std::time::UNIX_EPOCH.elapsed().ok().map(|d| d.as_secs())
}

/// What is shown for a reading of the clock: the time of day, or nothing where the clock
/// stands before the Unix epoch.
pub open spec fn reading(elapsed: Option<u64>) -> Option<Seq<char>> {
    match elapsed {
        Some(seconds) => Some(time_of_day(seconds as nat)),
        None => None,
    }
}

/// The time of day for the seconds since the Unix epoch, see [`reading`].
pub fn format_elapsed(elapsed: Option<u64>) -> (r: Option<String>)
    ensures
        text::view_opt(r) == reading(elapsed),
{
    match elapsed {
        Some(seconds) => Some(format_time(seconds)),
        None => None,
    }
}

/// The current time of day, unless the clock stands before the Unix epoch: what
/// [`format_elapsed`] gives for what the clock says. What it says is left open.
pub fn chrono_timestamp() -> (r: Option<String>)
    ensures
        exists|elapsed: Option<u64>| text::view_opt(r) == #[trigger] reading(elapsed),
{
    format_elapsed(seconds_since_epoch())
}

/// The time of day comes around every day.
pub proof fn days_repeat(seconds: nat, days: nat)
    ensures
        time_of_day(seconds + 86400 * days) == time_of_day(seconds),
{
    assert((seconds + 86400 * days) / 3600 == seconds / 3600 + 24 * days) by (nonlinear_arith);
    assert((seconds + 86400 * days) / 60 == seconds / 60 + 1440 * days) by (nonlinear_arith);
    assert((seconds / 3600 + 24 * days) % 24 == (seconds / 3600) % 24) by (nonlinear_arith);
    assert((seconds / 60 + 1440 * days) % 60 == (seconds / 60) % 60) by (nonlinear_arith);
    assert((seconds + 86400 * days) % 60 == seconds % 60) by (nonlinear_arith);
}

/// The time of day has hours, minutes and seconds, with two digits each.
pub proof fn times_have_hours_minutes_and_seconds(h: nat, m: nat, s: nat)
    requires
        h < 24,
        m < 60,
        s < 60,
    ensures
        time_of_day(3600 * h + 60 * m + s) == two_digits(h) + seq![':'] + two_digits(m) + seq![
            ':',
        ] + two_digits(s),
        s < 10 ==> two_digits(s) == seq!['0'] + text::decimal(s),
        s >= 10 ==> two_digits(s) == text::decimal(s),
{
    reveal_strlit(":");
    assert(":"@ =~= seq![':']);
    assert((3600 * h + 60 * m + s) / 3600 == h);
    assert((3600 * h + 60 * m + s) / 60 == 60 * h + m);
    assert((60 * h + m) % 60 == m);
    assert((3600 * h + 60 * m + s) % 60 == s);
}

}
