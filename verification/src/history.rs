//! How a received chart is named and checked before it is written into the
//! operator's own pictures directory.
//!
//! The name carries the local time and the geometry, because a directory of
//! charts is browsed by a person: a file named for what it is and when it
//! arrived does not have to be opened to be identified.

use vstd::prelude::*;

use crate::clock::{Clock, stamp, stamp_text};
use crate::text::{decimal_text, push_decimal};

verus! {

/// The name of a chart stamped `stamp`, sent at index of cooperation `ioc` and
/// `lines_per_minute`.
pub open spec fn chart_name_text(stamp: Seq<char>, ioc: nat, lines_per_minute: nat) -> Seq<char> {
    stamp + "-IOC"@ + decimal_text(ioc) + "-"@ + decimal_text(lines_per_minute) + "LPM.png"@
}

/// Names a chart from its time stamp and its geometry.
pub fn chart_name(stamp: &str, ioc: u32, lines_per_minute: u32) -> (name: String)
    ensures
        name@ == chart_name_text(stamp@, ioc as nat, lines_per_minute as nat),
{
    let mut name = stamp.to_owned();
    name.append("-IOC");
    push_decimal(&mut name, ioc);
    name.append("-");
    push_decimal(&mut name, lines_per_minute);
    name.append("LPM.png");
    name
}

/// Names a chart that arrived at `clock`, stamped on the station's own clock
/// as year, month, day, hour, minute and second.
pub fn file_name(ioc: u32, lines_per_minute: u32, clock: &Clock) -> (name: String)
    requires
        clock.wf(),
    ensures
        name@ == chart_name_text(stamp_text(*clock), ioc as nat, lines_per_minute as nat),
{
    let stamped = stamp(clock);
    chart_name(stamped.as_str(), ioc, lines_per_minute)
}

/// Why a chart was not saved.
pub const NOTHING_TO_SAVE: &'static str = "the chart has no pixels to save";

/// Checks that `len` gray levels make a picture `width` wide and `height`
/// lines tall, with at least one pixel.
pub fn check_chart(width: usize, height: usize, len: usize) -> (checked: Result<(), String>)
    ensures
        checked is Ok <==> (width > 0 && height > 0 && len == width * height),
        checked matches Err(message) ==> message@ == NOTHING_TO_SAVE@,
{
    if width == 0 || height == 0 {
        return Err(NOTHING_TO_SAVE.to_owned());
    }
    match width.checked_mul(height) {
        Some(pixels) => {
            if len == pixels {
                Ok(())
            } else {
                Err(NOTHING_TO_SAVE.to_owned())
            }
        },
        None => Err(NOTHING_TO_SAVE.to_owned()),
    }
}

} // verus!
