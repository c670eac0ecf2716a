//! Text for the export configuration view: output sizes in whole binary units and
//! scan-direction labels.

use vstd::arithmetic::power2::pow2;
use vstd::prelude::*;

use crate::export::ScanDirection;
use crate::text::{decimal, push_decimal, push_str};

verus! {

/// The largest binary unit no bigger than a `2^bits`-byte size, as its name and its
/// number of bits.
pub open spec fn size_unit(bits: u8) -> (Seq<char>, u8) {
    if bits >= 30 {
        ("GiB"@, 30)
    } else if bits >= 20 {
        ("MiB"@, 20)
    } else if bits >= 10 {
        ("KiB"@, 10)
    } else {
        ("B"@, 0)
    }
}

/// A `2^bits`-byte size in the largest whole binary unit: the count
/// `2^(bits - unit)`, a space and the unit.
pub open spec fn humanized_size_text(bits: u8) -> Seq<char> {
    let (unit, unit_bits) = size_unit(bits);
    decimal(pow2((bits - unit_bits) as nat)) + " "@ + unit
}

/// A `2^bits`-byte size as a whole number of B, KiB, MiB or GiB.
pub fn humanized_size(bits: u8) -> (t: String)
    requires
        bits < 94,
    ensures
        t@ == humanized_size_text(bits),
{
    let (unit, unit_bits): (&str, u8) = if bits >= 30 {
        ("GiB", 30)
    } else if bits >= 20 {
        ("MiB", 20)
    } else if bits >= 10 {
        ("KiB", 10)
    } else {
        ("B", 0)
    };
    let e = bits - unit_bits;
    let count = crate::export::pow2_u64(e as u32);
    let mut t = String::new();
    push_decimal(&mut t, count);
    push_str(&mut t, " ");
    push_str(&mut t, unit);
    t
}

/// The label of a scan direction.
pub open spec fn scan_label_text(scan: ScanDirection) -> Seq<char> {
    match scan {
        ScanDirection::Row => "Row (columns on data bits)"@,
        ScanDirection::Column => "Column (rows on data bits)"@,
    }
}

/// The human label for a scan direction.
pub fn scan_label(scan: ScanDirection) -> (t: &'static str)
    ensures
        t@ == scan_label_text(scan),
{
    match scan {
        ScanDirection::Row => "Row (columns on data bits)",
        ScanDirection::Column => "Column (rows on data bits)",
    }
}

} // verus!
