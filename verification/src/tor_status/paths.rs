//! Names of the files that a cache of consensuses and descriptors holds.

use vstd::prelude::*;
use crate::numbers::{append_chars, append_zero_padded, format_zero_padded};
use crate::text::{chars_to_string, str_to_chars};

verus! {

/// The name of the consensus file of the given hour:
/// `YYYY-MM-DD-hh-mm-ss-consensus`.
pub open spec fn spec_consensus_file_name(
    year: int,
    month: int,
    day: int,
    hour: int,
    minute: int,
    second: int,
) -> Seq<char> {
    format_zero_padded(year, 4) + seq!['-'] + format_zero_padded(month, 2) + seq!['-']
        + format_zero_padded(day, 2) + seq!['-'] + format_zero_padded(hour, 2) + seq!['-']
        + format_zero_padded(minute, 2) + seq!['-'] + format_zero_padded(second, 2)
        + "-consensus"@
}

/// The name of the folder of the descriptors published in a month:
/// `server-descriptors-YYYY-MM`.
pub open spec fn spec_descriptor_dir_name(year: int, month: int) -> Seq<char> {
    "server-descriptors-"@ + format_zero_padded(year, 4) + seq!['-'] + format_zero_padded(month, 2)
}

/// The name of the consensus file of the given hour.
pub fn consensus_file_name(
    year: i32,
    month: u32,
    day: u32,
    hour: u32,
    minute: u32,
    second: u32,
) -> (r: String)
    ensures
        r@ == spec_consensus_file_name(
            year as int,
            month as int,
            day as int,
            hour as int,
            minute as int,
            second as int,
        ),
{
    let mut out: Vec<char> = Vec::new();
    append_zero_padded(&mut out, year as i64, 4);
    out.push('-');
    append_zero_padded(&mut out, month as i64, 2);
    out.push('-');
    append_zero_padded(&mut out, day as i64, 2);
    out.push('-');
    append_zero_padded(&mut out, hour as i64, 2);
    out.push('-');
    append_zero_padded(&mut out, minute as i64, 2);
    out.push('-');
    append_zero_padded(&mut out, second as i64, 2);
    let suffix = str_to_chars("-consensus");
    append_chars(&mut out, suffix.as_slice());
    assert(out@ =~= spec_consensus_file_name(
        year as int,
        month as int,
        day as int,
        hour as int,
        minute as int,
        second as int,
    ));
    chars_to_string(out.as_slice())
}

/// The name of the folder of the descriptors published in a month.
pub fn descriptor_dir_name(year: i32, month: u32) -> (r: String)
    ensures
        r@ == spec_descriptor_dir_name(year as int, month as int),
{
    let prefix = str_to_chars("server-descriptors-");
    let mut out: Vec<char> = Vec::new();
    append_chars(&mut out, prefix.as_slice());
    append_zero_padded(&mut out, year as i64, 4);
    out.push('-');
    append_zero_padded(&mut out, month as i64, 2);
    assert(out@ =~= spec_descriptor_dir_name(year as int, month as int));
    chars_to_string(out.as_slice())
}

/// The month before `month` of `year` (months numbered from 1): the month
/// whose descriptor folder is searched when a descriptor is not in the
/// folder of its own month. There is none before January of the first year
/// that an `i32` holds.
pub fn previous_month(year: i32, month: u32) -> (r: Option<(i32, u32)>)
    requires
        1 <= month <= 12,
    ensures
        r is None <==> (month == 1 && year == i32::MIN),
        r matches Some((y, m)) ==> 1 <= m <= 12 && y * 12 + m == year * 12 + month - 1,
        r matches Some((y, m)) ==> (month > 1 ==> y == year && m == month - 1),
        r matches Some((y, m)) ==> (month == 1 ==> y == year - 1 && m == 12),
{
    if month > 1 {
        Some((year, month - 1))
    } else if year > i32::MIN {
        Some((year - 1, 12))
    } else {
        None
    }
}

} // verus!
