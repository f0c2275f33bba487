//! Durations as the editor writes them: how long ago a file was touched, a
//! take's running time, the recorder's elapsed clock, an export's progress
//! and the gallery transport's label.

use vstd::prelude::*;
use crate::text::{decimal, two_places, push_decimal, push_two_places, push_str, push_char};
use std::time::{Duration, SystemTime};

verus! {

pub const MINUTE: u64 = 60;
pub const HOUR: u64 = 3600;
pub const DAY: u64 = 86400;
pub const WEEK: u64 = 604800;
pub const MONTH: u64 = 2592000;

/// How long ago, `seconds` back, reads on a Recent tile: "just now" under a
/// minute, then whole minutes, hours, days, weeks (up to two months) and
/// months, each rounded down.
pub open spec fn age_text(seconds: nat) -> Seq<char> {
    if seconds < MINUTE {
        "just now"@
    } else if seconds < HOUR {
        decimal(seconds / MINUTE as nat) + "m ago"@
    } else if seconds < DAY {
        decimal(seconds / HOUR as nat) + "h ago"@
    } else if seconds < WEEK {
        decimal(seconds / DAY as nat) + "d ago"@
    } else if seconds < 2 * MONTH {
        decimal(seconds / WEEK as nat) + "w ago"@
    } else {
        decimal(seconds / MONTH as nat) + "mo ago"@
    }
}

/// `age_text` of `seconds`.
pub fn age(seconds: u64) -> (r: String)
    ensures
        r@ == age_text(seconds as nat),
{
    let mut s = String::new();
    if seconds < MINUTE {
        push_str(&mut s, "just now");
    } else if seconds < HOUR {
        push_decimal(&mut s, seconds / MINUTE);
        push_str(&mut s, "m ago");
    } else if seconds < DAY {
        push_decimal(&mut s, seconds / HOUR);
        push_str(&mut s, "h ago");
    } else if seconds < WEEK {
        push_decimal(&mut s, seconds / DAY);
        push_str(&mut s, "d ago");
    } else if seconds < 2 * MONTH {
        push_decimal(&mut s, seconds / WEEK);
        push_str(&mut s, "w ago");
    } else {
        push_decimal(&mut s, seconds / MONTH);
        push_str(&mut s, "mo ago");
    }
    assert(s@ =~= age_text(seconds as nat));
    s
}

#[verifier::external_type_specification]
#[verifier::external_body]
pub struct ExSystemTime(SystemTime);

/// The time from `modified` to now, by `SystemTime::elapsed`: `None` where
/// the clock reads a time before `modified` (the call's error). Nothing is
/// stated of the duration: it depends on the clock.
#[verifier::external_body]
fn elapsed_since(modified: SystemTime) -> Option<Duration> {
    modified.elapsed().ok()
}

/// The whole seconds of `d`, by `Duration::as_secs`. Nothing is stated of
/// the count: a `Duration` is opaque here.
#[verifier::external_body]
fn whole_seconds(d: Duration) -> u64 {
    d.as_secs()
}

/// The age text of a time `elapsed` seconds back, or of none where the time
/// lies ahead of the clock (`None`): `age_text` of the seconds, or of 0.
pub fn age_of_elapsed(elapsed: Option<u64>) -> (r: String)
    ensures
        r@ == age_text(match elapsed { Some(s) => s as nat, None => 0 }),
{
    match elapsed {
        Some(s) => age(s),
        None => age(0),
    }
}

/// How long ago `modified` was, short enough to share a Recent tile's line
/// with its running time: "2m ago", "3h ago", "4d ago". The seconds come
/// from the clock, so the text is that of some count of seconds;
/// `age_of_elapsed` states which text each count gives.
pub fn relative_age(modified: SystemTime) -> (r: String)
    ensures
        exists|seconds: nat| r@ == age_text(seconds),
{
    let elapsed = match elapsed_since(modified) {
        Some(d) => Some(whole_seconds(d)),
        None => None,
    };
    age_of_elapsed(elapsed)
}

/// A take's length in whole seconds as a clock reads it: "1:24", or
/// "1:02:03" past an hour.
pub open spec fn clock_text(total: nat) -> Seq<char> {
    let hours = total / HOUR as nat;
    let minutes = total / MINUTE as nat % 60;
    let seconds = total % 60;
    if hours > 0 {
        decimal(hours) + seq![':'] + two_places(minutes) + seq![':'] + two_places(seconds)
    } else {
        decimal(minutes) + seq![':'] + two_places(seconds)
    }
}

/// `clock_text` of `total`.
pub fn clock(total: u64) -> (r: String)
    ensures
        r@ == clock_text(total as nat),
{
    let hours = total / HOUR;
    let minutes = total / MINUTE % 60;
    let seconds = total % 60;
    let mut s = String::new();
    if hours > 0 {
        push_decimal(&mut s, hours);
        push_char(&mut s, ':');
        push_two_places(&mut s, minutes);
    } else {
        push_decimal(&mut s, minutes);
    }
    push_char(&mut s, ':');
    push_two_places(&mut s, seconds);
    assert(s@ =~= clock_text(total as nat));
    s
}

/// The recorder bar's clock for `seconds` captured: minutes and seconds,
/// each to two places at least, "00:42".
pub open spec fn elapsed_text(seconds: nat) -> Seq<char> {
    two_places(seconds / 60) + seq![':'] + two_places(seconds % 60)
}

/// `elapsed_text` of `seconds`.
pub fn elapsed(seconds: u64) -> (r: String)
    ensures
        r@ == elapsed_text(seconds as nat),
{
    let mut s = String::new();
    push_two_places(&mut s, seconds / 60);
    push_char(&mut s, ':');
    push_two_places(&mut s, seconds % 60);
    assert(s@ =~= elapsed_text(seconds as nat));
    s
}

/// How much of an export is left, `left` seconds: "40s", or "2m 5s" from a
/// minute on.
pub open spec fn left_text(left: nat) -> Seq<char> {
    if left >= 60 {
        decimal(left / 60) + "m "@ + decimal(left % 60) + seq!['s']
    } else {
        decimal(left) + seq!['s']
    }
}

/// The export pill's detail: "62%", and with a guess at what is left,
/// "62% · 40s left".
pub open spec fn progress_text(percent: nat, left: Option<nat>) -> Seq<char> {
    match left {
        None => decimal(percent) + seq!['%'],
        Some(l) => decimal(percent) + "% · "@ + left_text(l) + " left"@,
    }
}

/// `progress_text` of `percent` and `left`.
pub fn progress(percent: u32, left: Option<u64>) -> (r: String)
    ensures
        r@ == progress_text(percent as nat, match left { Some(l) => Some(l as nat), None => None }),
{
    let mut s = String::new();
    push_decimal(&mut s, percent as u64);
    match left {
        None => {
            push_char(&mut s, '%');
        },
        Some(l) => {
            push_str(&mut s, "% · ");
            if l >= 60 {
                push_decimal(&mut s, l / 60);
                push_str(&mut s, "m ");
                push_decimal(&mut s, l % 60);
            } else {
                push_decimal(&mut s, l);
            }
            push_char(&mut s, 's');
            push_str(&mut s, " left");
        },
    }
    assert(s@ =~= progress_text(percent as nat, match left { Some(l) => Some(l as nat), None => None }));
    s
}

/// The gallery's transport clock, in hundredths of a second, against the
/// take's length in seconds: "01:05.25 / 02:28".
pub open spec fn transport_text(centis: nat, length: nat) -> Seq<char> {
    two_places(centis / 6000) + seq![':'] + two_places(centis / 100 % 60) + seq!['.']
        + two_places(centis % 100) + " / "@ + two_places(length / 60) + seq![':']
        + two_places(length % 60)
}

/// `transport_text` of the playhead's hundredths and the take's length.
pub fn transport_label(centis: u32, length: u32) -> (r: String)
    ensures
        r@ == transport_text(centis as nat, length as nat),
{
    let mut s = String::new();
    push_two_places(&mut s, (centis / 6000) as u64);
    push_char(&mut s, ':');
    push_two_places(&mut s, (centis / 100 % 60) as u64);
    push_char(&mut s, '.');
    push_two_places(&mut s, (centis % 100) as u64);
    push_str(&mut s, " / ");
    push_two_places(&mut s, (length / 60) as u64);
    push_char(&mut s, ':');
    push_two_places(&mut s, (length % 60) as u64);
    assert(s@ =~= transport_text(centis as nat, length as nat));
    s
}

} // verus!
