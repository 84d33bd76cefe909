//! Names for exported images.

use vstd::prelude::*;
use crate::text::{padded_decimal, push_padded_decimal};

verus! {

/// The name a canvas export gets from the local date and time at which it
/// was made: `brushy_YYYY-MM-DD_HH-MM-SS.png`, each field zero-padded.
pub open spec fn export_name_spec(
    year: nat,
    month: nat,
    day: nat,
    hour: nat,
    minute: nat,
    second: nat,
) -> Seq<char> {
    "brushy_"@ + padded_decimal(year, 4) + "-"@ + padded_decimal(month, 2) + "-"@
        + padded_decimal(day, 2) + "_"@ + padded_decimal(hour, 2) + "-"@ + padded_decimal(minute, 2)
        + "-"@ + padded_decimal(second, 2) + ".png"@
}

/// The export file name for the given local date and time.
pub fn export_file_name(
    year: u32,
    month: u32,
    day: u32,
    hour: u32,
    minute: u32,
    second: u32,
) -> (name: String)
    ensures
        name@ == export_name_spec(
            year as nat,
            month as nat,
            day as nat,
            hour as nat,
            minute as nat,
            second as nat,
        ),
{
    let mut name = String::from_str("brushy_");
    push_padded_decimal(&mut name, year as u64, 4);
    name.append("-");
    push_padded_decimal(&mut name, month as u64, 2);
    name.append("-");
    push_padded_decimal(&mut name, day as u64, 2);
    name.append("_");
    push_padded_decimal(&mut name, hour as u64, 2);
    name.append("-");
    push_padded_decimal(&mut name, minute as u64, 2);
    name.append("-");
    push_padded_decimal(&mut name, second as u64, 2);
    name.append(".png");
    name
}

} // verus!
