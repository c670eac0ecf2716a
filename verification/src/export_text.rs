//! The explanations shown for a refused export: which check failed, on which
//! config, with the numbers the user needs to fix it.

use vstd::arithmetic::power2::pow2;
use vstd::prelude::*;

use crate::export::{
    address_too_wide, error_agrees, export_check, lemma_dim_bits_len, pow2_u64, Dimension, ExportCheck, ExportError,
    OneToOneViolation,
};
use crate::export_config::ExportConfig;
use crate::glyph_set::GlyphSet;
use crate::limits::Limits;
use crate::persist::{debug_quoted, debug_text};
use crate::text::{decimal, hex, push_decimal, push_hex_padded, push_str, zero_padded};

verus! {

/// Small numbers as `{:?}` lists them: bracketed, separated by a comma and a space.
pub open spec fn list_text(ns: Seq<u8>) -> Seq<char>
    decreases ns.len(),
{
    if ns.len() == 0 {
        "[]"@
    } else if ns.len() == 1 {
        "["@ + decimal(ns[0] as nat) + "]"@
    } else {
        list_text(ns.drop_last()).drop_last() + ", "@ + decimal(ns.last() as nat) + "]"@
    }
}

/// `n` as `{:#06x}` shows it: `0x` and at least four lowercase hex digits.
pub open spec fn code_hex(n: u32) -> Seq<char> {
    "0x"@ + zero_padded(hex(n as nat, false), 4)
}

/// Why a config is not strict 1:1, in words.
pub open spec fn violation_text(v: OneToOneViolation) -> Seq<char> {
    match v {
        OneToOneViolation::ConstantOrInvertedAddressLine { line } => "address line A"@ + decimal(line as nat)
            + " is a constant/inverted line; a strict 1:1 map needs every line to be a plain code/page/pixel bit"@,
        OneToOneViolation::NoPixelDimension =>
            "no pixel dimension is addressed; put the row (pixel_y) or column (pixel_x) in the address map"@,
        OneToOneViolation::BothPixelDimensions =>
            "both pixel dimensions are addressed; a strict 1:1 map addresses one axis and emits the other on the data bits"@,
        OneToOneViolation::NoSourcePages => "no source pages selected"@,
        OneToOneViolation::NonContiguousBits { dimension, found } => "the "@ + dimension@
            + " address bits must be a contiguous 0..N with no gap or duplicate; found "@ + list_text(found@),
        OneToOneViolation::TooFewPageBits { page_bits, pages } => "page has "@ + decimal(page_bits as nat)
            + " address bits ("@ + decimal(pow2(page_bits as nat)) + " values) but "@ + decimal(pages as nat)
            + " pages are selected"@,
        OneToOneViolation::TooFewPixelBits { dimension, pixel_bits, extent } => dimension@ + " has "@ + decimal(
            pixel_bits as nat,
        ) + " address bits ("@ + decimal(pow2(pixel_bits as nat)) + " values) but the glyph is "@ + decimal(
            extent as nat,
        ) + " "@ + dimension@,
        OneToOneViolation::DataBitNotPixel { bit } => "data bit D"@ + decimal(bit as nat)
            + " is not a plain glyph pixel at the addressed line; a strict 1:1 map emits one glyph pixel per data bit"@,
        OneToOneViolation::DataBitOutOfRangeOrDuplicate { bit, extent } => "data bit D"@ + decimal(bit as nat)
            + " maps to an out-of-range or duplicated pixel; the data bits must be a permutation of 0.."@
            + decimal(extent as nat),
        OneToOneViolation::SourceGlyphSetMissing => "source glyph set is missing"@,
    }
}

/// The explanation of a refused export, naming the config as `{:?}` shows it.
pub open spec fn export_error_text(e: ExportError) -> Seq<char> {
    match e {
        ExportError::NotStrictOneToOne { config, reason } => "export config "@ + debug_text(config@)
            + " is not strict 1:1: "@ + violation_text(reason),
        ExportError::DataWidthMismatch { config, data_bits, extent, axis, scan } => "export config "@ + debug_text(
            config@,
        ) + ": "@ + decimal(data_bits as nat) + " ROM data bits but the glyph is "@ + decimal(extent as nat)
            + " pixels "@ + axis@ + " \u{2014} a strict 1:1 "@ + scan@ + "-scan needs one data bit per "@ + axis@,
        ExportError::CodeNotAddressable { config, code, code_bits, max } => "export config "@ + debug_text(config@)
            + ": code "@ + code_hex(code) + " is not addressable with "@ + decimal(code_bits as nat)
            + " code bits (max "@ + code_hex(max) + ")"@,
        ExportError::AddressTooWide { config, address_bits, max } => "export config "@ + debug_text(config@)
            + ": address is "@ + decimal(address_bits as nat) + " bits, over the limit of "@ + decimal(max as nat),
        ExportError::ImageTooLarge { config, words, max } => "export config "@ + debug_text(config@)
            + ": image is "@ + decimal(words as nat) + " words, over the limit of "@ + decimal(max as nat),
        ExportError::UnsupportedOutputFormat { config, name } => "export config "@ + debug_text(config@)
            + ": output format "@ + debug_text(name@) + " is not supported yet (v1 is raw binary)"@,
        ExportError::OutputTooSmall { config, image_bytes, output_bytes } => "export config "@ + debug_text(
            config@,
        ) + ": image is "@ + decimal(image_bytes as nat) + " bytes, over the output size of "@ + decimal(
            output_bytes as nat,
        ) + " bytes"@,
    }
}

/// Whether the explanation of `e` can be written: the values it shows of `2^bits`
/// fit in 64 bits.
pub open spec fn describable(e: ExportError) -> bool {
    match e {
        ExportError::NotStrictOneToOne { reason, .. } => match reason {
            OneToOneViolation::TooFewPageBits { page_bits, .. } => page_bits < 64,
            OneToOneViolation::TooFewPixelBits { pixel_bits, .. } => pixel_bits < 64,
            _ => true,
        },
        _ => true,
    }
}

/// Appends `ns` as `{:?}` lists them.
fn push_list(t: &mut String, ns: &Vec<u8>)
    ensures
        final(t)@ == old(t)@ + list_text(ns@),
{
    if ns.len() == 0 {
        push_str(t, "[]");
        proof {
            reveal_strlit("[]");
        }
        return;
    }
    let ghost start = t@;
    push_str(t, "[");
    push_decimal(t, ns[0] as u64);
    proof {
        reveal_strlit("[");
        reveal_strlit("]");
        assert(t@ == start + list_text(ns@.take(1)).drop_last()) by {
            assert(ns@.take(1).len() == 1);
            assert(list_text(ns@.take(1)) =~= "["@ + decimal(ns@[0] as nat) + "]"@);
        }
    }
    let mut i: usize = 1;
    while i < ns.len()
        invariant
            1 <= i <= ns@.len(),
            t@ == start + list_text(ns@.take(i as int)).drop_last(),
        decreases ns@.len() - i,
    {
        push_str(t, ", ");
        push_decimal(t, ns[i] as u64);
        proof {
            reveal_strlit("]");
            assert(ns@.take(i + 1).drop_last() =~= ns@.take(i as int));
            let next = list_text(ns@.take(i + 1));
            assert(next =~= list_text(ns@.take(i as int)).drop_last() + ", "@ + decimal(ns@[i as int] as nat) + "]"@);
            assert(next.drop_last() =~= list_text(ns@.take(i as int)).drop_last() + ", "@ + decimal(
                ns@[i as int] as nat,
            ));
        }
        i = i + 1;
    }
    push_str(t, "]");
    proof {
        reveal_strlit("]");
        assert(ns@.take(ns@.len() as int) =~= ns@);
        lemma_list_text_closes(ns@);
        assert(t@ =~= start + list_text(ns@));
    }
}

/// A list's text ends with its closing bracket.
proof fn lemma_list_text_closes(ns: Seq<u8>)
    requires
        ns.len() > 0,
    ensures
        list_text(ns) == list_text(ns).drop_last() + "]"@,
        list_text(ns).len() > 0,
{
    reveal_strlit("]");
    let t = list_text(ns);
    assert(t.len() > 0);
    assert(t.last() == ']');
    assert(t =~= t.drop_last() + "]"@);
}

/// Appends a code as `{:#06x}` shows it.
fn push_code_hex(t: &mut String, n: u32)
    ensures
        final(t)@ == old(t)@ + code_hex(n),
{
    push_str(t, "0x");
    push_hex_padded(t, n as u64, 4, false);
    proof {
        assert(final(t)@ =~= old(t)@ + code_hex(n));
    }
}

/// Appends the explanation of a strict 1:1 violation.
fn push_violation(t: &mut String, v: &OneToOneViolation)
    requires
        match v {
            OneToOneViolation::TooFewPageBits { page_bits, .. } => page_bits < 64,
            OneToOneViolation::TooFewPixelBits { pixel_bits, .. } => pixel_bits < 64,
            _ => true,
        },
    ensures
        final(t)@ == old(t)@ + violation_text(*v),
{
    let ghost start = t@;
    match v {
        OneToOneViolation::ConstantOrInvertedAddressLine { line } => {
            push_str(t, "address line A");
            push_decimal(t, *line as u64);
            push_str(
                t,
                " is a constant/inverted line; a strict 1:1 map needs every line to be a plain code/page/pixel bit",
            );
        },
        OneToOneViolation::NoPixelDimension => {
            push_str(
                t,
                "no pixel dimension is addressed; put the row (pixel_y) or column (pixel_x) in the address map",
            );
        },
        OneToOneViolation::BothPixelDimensions => {
            push_str(
                t,
                "both pixel dimensions are addressed; a strict 1:1 map addresses one axis and emits the other on the data bits",
            );
        },
        OneToOneViolation::NoSourcePages => {
            push_str(t, "no source pages selected");
        },
        OneToOneViolation::NonContiguousBits { dimension, found } => {
            push_str(t, "the ");
            push_str(t, dimension);
            push_str(t, " address bits must be a contiguous 0..N with no gap or duplicate; found ");
            push_list(t, found);
        },
        OneToOneViolation::TooFewPageBits { page_bits, pages } => {
            push_str(t, "page has ");
            push_decimal(t, *page_bits as u64);
            push_str(t, " address bits (");
            push_decimal(t, pow2_u64(*page_bits));
            push_str(t, " values) but ");
            push_decimal(t, *pages as u64);
            push_str(t, " pages are selected");
        },
        OneToOneViolation::TooFewPixelBits { dimension, pixel_bits, extent } => {
            push_str(t, dimension);
            push_str(t, " has ");
            push_decimal(t, *pixel_bits as u64);
            push_str(t, " address bits (");
            push_decimal(t, pow2_u64(*pixel_bits));
            push_str(t, " values) but the glyph is ");
            push_decimal(t, *extent as u64);
            push_str(t, " ");
            push_str(t, dimension);
        },
        OneToOneViolation::DataBitNotPixel { bit } => {
            push_str(t, "data bit D");
            push_decimal(t, *bit as u64);
            push_str(
                t,
                " is not a plain glyph pixel at the addressed line; a strict 1:1 map emits one glyph pixel per data bit",
            );
        },
        OneToOneViolation::DataBitOutOfRangeOrDuplicate { bit, extent } => {
            push_str(t, "data bit D");
            push_decimal(t, *bit as u64);
            push_str(
                t,
                " maps to an out-of-range or duplicated pixel; the data bits must be a permutation of 0..",
            );
            push_decimal(t, *extent as u64);
        },
        OneToOneViolation::SourceGlyphSetMissing => {
            push_str(t, "source glyph set is missing");
        },
    }
    proof {
        assert(t@ =~= start + violation_text(*v));
    }
}

impl OneToOneViolation {
    /// The reason this violation gives in words (see [`violation_text`]).
    pub fn message(&self) -> (text: String)
        requires
            match self {
                OneToOneViolation::TooFewPageBits { page_bits, .. } => page_bits < 64,
                OneToOneViolation::TooFewPixelBits { pixel_bits, .. } => pixel_bits < 64,
                _ => true,
            },
        ensures
            text@ == violation_text(*self),
    {
        let mut t = String::new();
        push_violation(&mut t, self);
        proof {
            assert(t@ =~= violation_text(*self));
        }
        t
    }
}

impl ExportError {
    /// The explanation shown for this refusal (see [`export_error_text`]).
    pub fn message(&self) -> (text: String)
        requires
            describable(*self),
        ensures
            text@ == export_error_text(*self),
    {
        let mut t = String::new();
        push_str(&mut t, "export config ");
        let config = match self {
            ExportError::NotStrictOneToOne { config, .. } => config,
            ExportError::DataWidthMismatch { config, .. } => config,
            ExportError::CodeNotAddressable { config, .. } => config,
            ExportError::AddressTooWide { config, .. } => config,
            ExportError::ImageTooLarge { config, .. } => config,
            ExportError::UnsupportedOutputFormat { config, .. } => config,
            ExportError::OutputTooSmall { config, .. } => config,
        };
        let quoted = debug_quoted(config.as_str());
        push_str(&mut t, quoted.as_str());
        let ghost head = t@;
        match self {
            ExportError::NotStrictOneToOne { reason, .. } => {
                push_str(&mut t, " is not strict 1:1: ");
                push_violation(&mut t, reason);
            },
            ExportError::DataWidthMismatch { data_bits, extent, axis, scan, .. } => {
                push_str(&mut t, ": ");
                push_decimal(&mut t, *data_bits as u64);
                push_str(&mut t, " ROM data bits but the glyph is ");
                push_decimal(&mut t, *extent as u64);
                push_str(&mut t, " pixels ");
                push_str(&mut t, axis);
                push_str(&mut t, " \u{2014} a strict 1:1 ");
                push_str(&mut t, scan);
                push_str(&mut t, "-scan needs one data bit per ");
                push_str(&mut t, axis);
            },
            ExportError::CodeNotAddressable { code, code_bits, max, .. } => {
                push_str(&mut t, ": code ");
                push_code_hex(&mut t, *code);
                push_str(&mut t, " is not addressable with ");
                push_decimal(&mut t, *code_bits as u64);
                push_str(&mut t, " code bits (max ");
                push_code_hex(&mut t, *max);
                push_str(&mut t, ")");
            },
            ExportError::AddressTooWide { address_bits, max, .. } => {
                push_str(&mut t, ": address is ");
                push_decimal(&mut t, *address_bits as u64);
                push_str(&mut t, " bits, over the limit of ");
                push_decimal(&mut t, *max as u64);
            },
            ExportError::ImageTooLarge { words, max, .. } => {
                push_str(&mut t, ": image is ");
                push_decimal(&mut t, *words);
                push_str(&mut t, " words, over the limit of ");
                push_decimal(&mut t, *max);
            },
            ExportError::UnsupportedOutputFormat { name, .. } => {
                push_str(&mut t, ": output format ");
                let quoted_name = debug_quoted(name.as_str());
                push_str(&mut t, quoted_name.as_str());
                push_str(&mut t, " is not supported yet (v1 is raw binary)");
            },
            ExportError::OutputTooSmall { image_bytes, output_bytes, .. } => {
                push_str(&mut t, ": image is ");
                push_decimal(&mut t, *image_bytes);
                push_str(&mut t, " bytes, over the output size of ");
                push_decimal(&mut t, *output_bytes);
                push_str(&mut t, " bytes");
            },
        }
        proof {
            assert(t@ =~= export_error_text(*self));
        }
        t
    }
}

/// Every refusal that validation reports can be explained: its bit counts come
/// from an address of at most 32 lines.
pub proof fn lemma_refusals_are_describable(
    e: ExportError,
    check: ExportCheck,
    source: GlyphSet,
    config: ExportConfig,
    limits: Limits,
)
    requires
        export_check(source, config, limits) == Some(check),
        error_agrees(e, check, source, config, limits),
    ensures
        describable(e),
{
    let bits = config.address_map.address_bits@;
    if check is TooFewPageBits || check is TooFewPixelBits {
        assert(!address_too_wide(config, limits));
        lemma_dim_bits_len(bits, Dimension::Page);
        lemma_dim_bits_len(bits, Dimension::PixelX);
        lemma_dim_bits_len(bits, Dimension::PixelY);
    }
}

} // verus!
