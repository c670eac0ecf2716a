//! How a character `code` is shown in the character-set table and in tooltips: its
//! printable character where it has one, and the ASCII control notation for C0
//! controls and DEL.

use vstd::prelude::*;

use crate::character_set::CharacterSet;
use crate::search::first_index;
use vstd::string::StrSliceExecFns;

use crate::text::{hex, push_char, push_hex_padded, push_str, zero_padded};

verus! {

/// How a `code` is shown: its printable character (if any) and its control notation
/// (if any). A control code has a notation and no glyph; a printable code has a
/// glyph and no notation.
#[derive(Debug, Clone, Copy, PartialEq, Eq)]
pub struct CodeDisplay {
    pub glyph: Option<char>,
    pub notation: Option<&'static str>,
}

/// A Unicode scalar value: below the surrogates, or above them up to 0x10FFFF.
pub open spec fn is_scalar(code: u32) -> bool {
    code < 0xD800 || (0xE000 <= code && code <= 0x10FFFF)
}

/// A control character (general category `Cc`): C0, DEL and C1.
pub open spec fn is_control_code(code: u32) -> bool {
    code <= 0x1F || (0x7F <= code && code <= 0x9F)
}

/// The character with scalar value `code`, if `code` is a Unicode scalar value
/// (`char::from_u32`, as documented: below 0xD800, or 0xE000 through 0x10FFFF).
#[verifier::external_body]
pub(crate) fn char_from_u32(code: u32) -> (r: Option<char>)
    ensures
        is_scalar(code) ==> r == Some(code as char),
        !is_scalar(code) ==> r is None,
{
    char::from_u32(code)
}

/// The standard ASCII name of a C0 control or DEL.
pub open spec fn control_name(code: u32) -> Option<Seq<char>> {
    if code == 0x00 { Some("NUL"@) }
    else if code == 0x01 { Some("SOH"@) }
    else if code == 0x02 { Some("STX"@) }
    else if code == 0x03 { Some("ETX"@) }
    else if code == 0x04 { Some("EOT"@) }
    else if code == 0x05 { Some("ENQ"@) }
    else if code == 0x06 { Some("ACK"@) }
    else if code == 0x07 { Some("BEL"@) }
    else if code == 0x08 { Some("BS"@) }
    else if code == 0x09 { Some("HT"@) }
    else if code == 0x0A { Some("LF"@) }
    else if code == 0x0B { Some("VT"@) }
    else if code == 0x0C { Some("FF"@) }
    else if code == 0x0D { Some("CR"@) }
    else if code == 0x0E { Some("SO"@) }
    else if code == 0x0F { Some("SI"@) }
    else if code == 0x10 { Some("DLE"@) }
    else if code == 0x11 { Some("DC1"@) }
    else if code == 0x12 { Some("DC2"@) }
    else if code == 0x13 { Some("DC3"@) }
    else if code == 0x14 { Some("DC4"@) }
    else if code == 0x15 { Some("NAK"@) }
    else if code == 0x16 { Some("SYN"@) }
    else if code == 0x17 { Some("ETB"@) }
    else if code == 0x18 { Some("CAN"@) }
    else if code == 0x19 { Some("EM"@) }
    else if code == 0x1A { Some("SUB"@) }
    else if code == 0x1B { Some("ESC"@) }
    else if code == 0x1C { Some("FS"@) }
    else if code == 0x1D { Some("GS"@) }
    else if code == 0x1E { Some("RS"@) }
    else if code == 0x1F { Some("US"@) }
    else if code == 0x7F { Some("DEL"@) }
    else { None }
}

/// The ASCII control notation for `code`, if it is a C0 control or DEL.
fn control_notation(code: u32) -> (r: Option<&'static str>)
    ensures
        match control_name(code) {
            Some(n) => r matches Some(s) && s@ == n,
            None => r is None,
        },
{
    if code == 0x00 { Some("NUL") }
    else if code == 0x01 { Some("SOH") }
    else if code == 0x02 { Some("STX") }
    else if code == 0x03 { Some("ETX") }
    else if code == 0x04 { Some("EOT") }
    else if code == 0x05 { Some("ENQ") }
    else if code == 0x06 { Some("ACK") }
    else if code == 0x07 { Some("BEL") }
    else if code == 0x08 { Some("BS") }
    else if code == 0x09 { Some("HT") }
    else if code == 0x0A { Some("LF") }
    else if code == 0x0B { Some("VT") }
    else if code == 0x0C { Some("FF") }
    else if code == 0x0D { Some("CR") }
    else if code == 0x0E { Some("SO") }
    else if code == 0x0F { Some("SI") }
    else if code == 0x10 { Some("DLE") }
    else if code == 0x11 { Some("DC1") }
    else if code == 0x12 { Some("DC2") }
    else if code == 0x13 { Some("DC3") }
    else if code == 0x14 { Some("DC4") }
    else if code == 0x15 { Some("NAK") }
    else if code == 0x16 { Some("SYN") }
    else if code == 0x17 { Some("ETB") }
    else if code == 0x18 { Some("CAN") }
    else if code == 0x19 { Some("EM") }
    else if code == 0x1A { Some("SUB") }
    else if code == 0x1B { Some("ESC") }
    else if code == 0x1C { Some("FS") }
    else if code == 0x1D { Some("GS") }
    else if code == 0x1E { Some("RS") }
    else if code == 0x1F { Some("US") }
    else if code == 0x7F { Some("DEL") }
    else { None }
}

/// The character shown for `code`: the Unicode scalar, unless it is not one or is
/// a control character.
pub open spec fn display_glyph(code: u32) -> Option<char> {
    if is_scalar(code) && !is_control_code(code) {
        Some(code as char)
    } else {
        None
    }
}

/// Maps a `code` to its table display: its character when it is a non-control
/// scalar, plus a notation for C0 controls and DEL. Codes with neither (C1 controls,
/// non-scalars) show a blank cell.
pub fn describe_code(code: u32) -> (d: CodeDisplay)
    ensures
        d.glyph == display_glyph(code),
        match control_name(code) {
            Some(n) => d.notation matches Some(s) && s@ == n,
            None => d.notation is None,
        },
{
    let scalar = char_from_u32(code);
    let glyph = match scalar {
        Some(c) => if code <= 0x1F || (0x7F <= code && code <= 0x9F) {
            None
        } else {
            Some(c)
        },
        None => None,
    };
    CodeDisplay { glyph, notation: control_notation(code) }
}

/// The label of `code`'s entry in `cs`, or nothing.
pub open spec fn entry_label(cs: Option<CharacterSet>, code: u32) -> Seq<char> {
    match cs {
        Some(cs) => match first_index(cs.codes(), code) {
            Some(i) => cs.entries@[i].label@,
            None => Seq::empty(),
        },
        None => Seq::empty(),
    }
}

/// A hover tooltip for `code`: `0x` and four upper-case hex digits, then two spaces
/// and its character or control notation when it has one, then its label on a line
/// of its own when the label is not empty.
pub open spec fn tooltip_text(code: u32, cs: Option<CharacterSet>) -> Seq<char> {
    let head = "0x"@ + zero_padded(hex(code as nat, true), 4);
    let shown = match display_glyph(code) {
        Some(c) => "  "@.push(c),
        None => match control_name(code) {
            Some(n) => "  "@ + n,
            None => Seq::empty(),
        },
    };
    let label = entry_label(cs, code);
    head + shown + if label.len() > 0 {
        "\n"@ + label
    } else {
        Seq::empty()
    }
}

/// A hover tooltip describing a `code`: its hex value, its printable character or
/// control notation, and its character-set label when present.
pub fn glyph_tooltip(code: u32, character_set: Option<&CharacterSet>) -> (t: String)
    ensures
        t@ == tooltip_text(
            code,
            match character_set {
                Some(cs) => Some(*cs),
                None => None,
            },
        ),
{
    let display = describe_code(code);
    let mut t = String::new();
    push_str(&mut t, "0x");
    push_hex_padded(&mut t, code as u64, 4, true);
    match display.glyph {
        Some(c) => {
            push_str(&mut t, "  ");
            push_char(&mut t, c);
        },
        None => match display.notation {
            Some(n) => {
                push_str(&mut t, "  ");
                push_str(&mut t, n);
            },
            None => {},
        },
    }
    let entry = match character_set {
        Some(cs) => cs.entry(code),
        None => None,
    };
    match entry {
        Some(e) => {
            if e.label.as_str().unicode_len() > 0 {
                push_str(&mut t, "\n");
                push_str(&mut t, e.label.as_str());
            }
        },
        None => {},
    }
    proof {
        let cs = match character_set {
            Some(cs) => Some(*cs),
            None => None,
        };
        assert(t@ =~= tooltip_text(code, cs));
    }
    t
}

} // verus!
