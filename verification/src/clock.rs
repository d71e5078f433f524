//! The wall clock.  The raw reading is taken on trust; everything that must
//! hold of a timestamp is checked afterwards, in verified code.

use vstd::prelude::*;
use chrono::{Datelike, Timelike, Offset};
use crate::timestamp::Timestamp;

verus! {

/// Relies on chrono's `Local::now` and its field accessors: the civil fields
/// of the current local time and the offset, in seconds, it was taken in.
/// Nothing is promised of a clock reading.  On a host whose clock lies before
/// the Unix epoch or whose timezone data is unusable, the wrapped call itself
/// aborts the process.
#[verifier::external_body]
fn now_raw() -> (r: (i32, u32, u32, u32, u32, u32, u32, i32)) {
    let now = chrono::Local::now();
    let offset_seconds = now.offset().fix().local_minus_utc();
    (
        now.year(),
        now.month(),
        now.day(),
        now.hour(),
        now.minute(),
        now.second(),
        now.nanosecond(),
        offset_seconds,
    )
}

/// The current local time as a well-formed timestamp.  A clock reading out of
/// every range the store can represent (far years; leap-second nanoseconds
/// are folded back into the last ordinary one) is clamped field by field.
pub fn now_timestamp() -> (r: Timestamp)
    ensures
        r.wf(),
{
    let (y, mo, d, h, mi, s, ns, off) = now_raw();
    let year: u16 = if y < 1 { 1 } else if y > 9999 { 9999 } else { y as u16 };
    let month: u8 = if mo < 1 { 1 } else if mo > 12 { 12 } else { mo as u8 };
    let day: u8 = if d < 1 { 1 } else if d > 31 { 31 } else { d as u8 };
    let hour: u8 = if h > 23 { 23 } else { h as u8 };
    let minute: u8 = if mi > 59 { 59 } else { mi as u8 };
    let second: u8 = if s > 59 { 59 } else { s as u8 };
    let nanosecond: u32 = if ns > 999_999_999 { 999_999_999 } else { ns };
    let offset_minutes: i16 = if off < -86340 {
        -1439
    } else if off > 86340 {
        1439
    } else {
        (off / 60) as i16
    };
    Timestamp { year, month, day, hour, minute, second, nanosecond, offset_minutes }
}

} // verus!
