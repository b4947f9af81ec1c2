//! The timing lines of a dev tick, and the switch that turns them on.

use vstd::prelude::*;

use crate::text::{eq_ignore_ascii_case, same_ignoring_ascii_case, trim_chars, trimmed};

verus! {

/// The value, with white space around it left out and in any case, is `1` or
/// `true`.
pub open spec fn switched_on(raw: Seq<char>) -> bool {
    same_ignoring_ascii_case(trimmed(raw), "1"@) || same_ignoring_ascii_case(
        trimmed(raw),
        "true"@,
    )
}

/// Whether the value of `ZFB_DEV_TIMING` turns the timing lines on. They are off
/// where it has none.
pub fn dev_timing_enabled(raw: Option<&str>) -> (r: bool)
    ensures
        r == match raw {
            Some(v) => switched_on(v@),
            None => false,
        },
{
    match raw {
        Some(v) => {
            let t = trim_chars(v);
            eq_ignore_ascii_case(&t, "1") || eq_ignore_ascii_case(&t, "true")
        },
        None => false,
    }
}

/// The line for the pages being written.
pub fn format_tick_page_write_complete_line() -> (r: &'static str)
    ensures
        r@ == "[zfb-timing] tick: page write complete"@,
{
    "[zfb-timing] tick: page write complete"
}

/// The line for the islands being published.
pub fn format_tick_islands_published_line() -> (r: &'static str)
    ensures
        r@ == "[zfb-timing] tick: islands published"@,
{
    "[zfb-timing] tick: islands published"
}

/// The line for the client scripts being published.
pub fn format_tick_client_scripts_published_line() -> (r: &'static str)
    ensures
        r@ == "[zfb-timing] tick: client scripts published"@,
{
    "[zfb-timing] tick: client scripts published"
}

} // verus!
