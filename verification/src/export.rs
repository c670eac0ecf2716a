//! Strict 1:1 ROM/programmer export. The font ROM is addressed by character `code`:
//! an address map says what each address line means, a data map says what each data
//! bit emits, and [`generate_image`] evaluates every address into a dense memory
//! image. [`validate_export`] establishes that a config is a real 1:1 mapping (each
//! glyph pixel to exactly one ROM bit) or explains why not; [`encode_raw_binary`] is
//! the raw file encoder; [`row_scan_config`] and [`column_scan_config`] build the
//! standard configs.

use vstd::arithmetic::power2::{lemma2_to64, lemma_pow2_strictly_increases, pow2};
use vstd::prelude::*;

use crate::bitmap::{Bitmap, BitmapView};
use crate::export_config::{
    AddressBitSource, AddressMap, CoordinateExpr, DataMap, ExportConfig, ExportSourceSpec,
    OutputBitSource, OutputFormatConfig,
};
use crate::glyph_set::GlyphSet;
use crate::ids::{lemma_mints_none, lemma_mints_step, mints_all, ExportComponentId, ExportConfigId, IdGen, PageId};
use crate::limits::Limits;
use crate::storage::DEFAULT_FILL_BYTE;
use crate::search::{first_index, first_where, lemma_first_index_props, lemma_first_where_none};
use crate::text::{decimal, push_decimal, push_str};

verus! {

/// The logical coordinates one ROM address decodes to.
#[derive(Debug, Clone, Copy, PartialEq, Eq, Structural)]
pub struct AddressedCoords {
    pub code: u32,
    pub page: u32,
    pub x: u32,
    pub y: u32,
}

/// Whether address line `line` is high in `address`; a line past bit 63 has no
/// bit of the address to read and is low.
pub open spec fn address_line(address: u64, line: int) -> bool {
    0 <= line < 64 && (address >> (line as u64)) & 1u64 != 0u64
}

/// `field` with bit `n` set when `raw` is high; bit indices past 31 are ignored.
pub open spec fn set_bit_if(field: u32, n: u8, raw: bool) -> u32 {
    if raw && n < 32 {
        field | (1u32 << (n as u32))
    } else {
        field
    }
}

/// The coordinates after one address line driven by `source` reads `raw`.
/// Constant lines carry no coordinate; `Inverted` flips the bit first.
pub open spec fn accumulate_spec(source: AddressBitSource, raw: bool, c: AddressedCoords) -> AddressedCoords
    decreases source,
{
    match source {
        AddressBitSource::Constant(_) => c,
        AddressBitSource::CodeBit(n) => AddressedCoords { code: set_bit_if(c.code, n, raw), ..c },
        AddressBitSource::PageBit(n) => AddressedCoords { page: set_bit_if(c.page, n, raw), ..c },
        AddressBitSource::PixelXBit(n) => AddressedCoords { x: set_bit_if(c.x, n, raw), ..c },
        AddressBitSource::PixelYBit(n) => AddressedCoords { y: set_bit_if(c.y, n, raw), ..c },
        AddressBitSource::Inverted(inner) => accumulate_spec(*inner, !raw, c),
    }
}

/// The coordinates decoded from the first `k` address lines.
pub open spec fn decode_prefix(bits: Seq<AddressBitSource>, address: u64, k: int) -> AddressedCoords
    decreases k,
{
    if k <= 0 {
        AddressedCoords { code: 0, page: 0, x: 0, y: 0 }
    } else {
        accumulate_spec(bits[k - 1], address_line(address, k - 1), decode_prefix(bits, address, k - 1))
    }
}

/// The coordinates `address` decodes to under `config`'s address map.
pub open spec fn decode_spec(config: ExportConfig, address: u64) -> AddressedCoords {
    decode_prefix(config.address_map.address_bits@, address, config.address_map.address_bits@.len() as int)
}

/// The bitmap an address reads: page `coords.page` of the source page list, resolved
/// by id in the glyph set, and the glyph for `coords.code` on it; `None` (blank) if
/// any step is missing.
pub open spec fn selected_bitmap(source: GlyphSet, config: ExportConfig, c: AddressedCoords) -> Option<BitmapView> {
    if (c.page as int) < config.source.pages@.len() {
        match first_index(source.page_ids(), config.source.pages@[c.page as int]) {
            Some(pi) => match first_index(source.pages@[pi].codes(), c.code) {
                Some(gi) => Some(source.pages@[pi].glyphs@[gi].bitmap@),
                None => None,
            },
            None => None,
        }
    } else {
        None
    }
}

/// A coordinate expression resolved against the addressed position.
pub open spec fn resolve_coord_spec(expr: CoordinateExpr, c: AddressedCoords) -> int {
    match expr {
        CoordinateExpr::Constant(v) => v as int,
        CoordinateExpr::AddressedX => c.x as int,
        CoordinateExpr::AddressedY => c.y as int,
        CoordinateExpr::AddressedXPlus(v) => c.x + v,
        CoordinateExpr::AddressedYPlus(v) => c.y + v,
    }
}

/// The value one data bit emits: a constant, a glyph pixel (off when there is no
/// glyph or the coordinate lies off it), or an inversion.
pub open spec fn eval_bit_spec(source: OutputBitSource, bitmap: Option<BitmapView>, c: AddressedCoords) -> bool
    decreases source,
{
    match source {
        OutputBitSource::Constant(v) => v,
        OutputBitSource::Pixel { x, y } => {
            let px = resolve_coord_spec(x, c);
            let py = resolve_coord_spec(y, c);
            &&& 0 <= px <= 65535
            &&& 0 <= py <= 65535
            &&& bitmap matches Some(b)
            &&& px < b.width
            &&& py < b.height
            &&& b.rows[py][px]
        },
        OutputBitSource::Inverted(inner) => !eval_bit_spec(*inner, bitmap, c),
    }
}

/// The word formed by the first `k` data bits: bit `i` set when data bit `i`
/// evaluates high (bits past 63 do not fit and are dropped).
pub open spec fn word_prefix(
    outputs: Seq<OutputBitSource>,
    bitmap: Option<BitmapView>,
    c: AddressedCoords,
    k: int,
) -> u64
    decreases k,
{
    if k <= 0 {
        0
    } else {
        let w = word_prefix(outputs, bitmap, c, k - 1);
        if k - 1 < 64 && eval_bit_spec(outputs[k - 1], bitmap, c) {
            w | (1u64 << ((k - 1) as u64))
        } else {
            w
        }
    }
}

/// The ROM word at `address`.
pub open spec fn output_word_spec(source: GlyphSet, config: ExportConfig, address: u64) -> u64 {
    let c = decode_spec(config, address);
    word_prefix(
        config.data_map.output_bits@,
        selected_bitmap(source, config, c),
        c,
        config.data_map.output_bits@.len() as int,
    )
}

fn set_field_bit(field: u32, n: u8, raw: bool) -> (r: u32)
    ensures
        r == set_bit_if(field, n, raw),
{
    if raw && n < 32 {
        field | (1u32 << (n as u32))
    } else {
        field
    }
}

fn accumulate(source: &AddressBitSource, raw: bool, coords: &mut AddressedCoords)
    ensures
        *final(coords) == accumulate_spec(*source, raw, *old(coords)),
    decreases source,
{
    match source {
        AddressBitSource::Constant(_) => {},
        AddressBitSource::CodeBit(n) => {
            coords.code = set_field_bit(coords.code, *n, raw);
        },
        AddressBitSource::PageBit(n) => {
            coords.page = set_field_bit(coords.page, *n, raw);
        },
        AddressBitSource::PixelXBit(n) => {
            coords.x = set_field_bit(coords.x, *n, raw);
        },
        AddressBitSource::PixelYBit(n) => {
            coords.y = set_field_bit(coords.y, *n, raw);
        },
        AddressBitSource::Inverted(inner) => {
            accumulate(inner, !raw, coords);
        },
    }
}

/// Decodes `address` into logical coordinates using the address map.
fn decode_address(config: &ExportConfig, address: u64) -> (c: AddressedCoords)
    ensures
        c == decode_spec(*config, address),
{
    let mut coords = AddressedCoords { code: 0, page: 0, x: 0, y: 0 };
    let bits = &config.address_map.address_bits;
    let mut line: usize = 0;
    while line < bits.len()
        invariant
            line <= bits@.len(),
            bits == &config.address_map.address_bits,
            coords == decode_prefix(bits@, address, line as int),
        decreases bits@.len() - line,
    {
        let raw = line < 64 && (address >> (line as u64)) & 1 != 0;
        accumulate(&bits[line], raw, &mut coords);
        line = line + 1;
    }
    coords
}

fn resolve_coord(expr: &CoordinateExpr, coords: &AddressedCoords) -> (r: i64)
    ensures
        r == resolve_coord_spec(*expr, *coords),
{
    match expr {
        CoordinateExpr::Constant(v) => *v as i64,
        CoordinateExpr::AddressedX => coords.x as i64,
        CoordinateExpr::AddressedY => coords.y as i64,
        CoordinateExpr::AddressedXPlus(v) => coords.x as i64 + *v as i64,
        CoordinateExpr::AddressedYPlus(v) => coords.y as i64 + *v as i64,
    }
}

fn eval_output_bit(source: &OutputBitSource, bitmap: Option<&Bitmap>, coords: &AddressedCoords) -> (r: bool)
    ensures
        r == eval_bit_spec(
            *source,
            match bitmap {
                Some(b) => Some(b@),
                None => None,
            },
            *coords,
        ),
    decreases source,
{
    match source {
        OutputBitSource::Constant(v) => *v,
        OutputBitSource::Pixel { x, y } => {
            let px = resolve_coord(x, coords);
            let py = resolve_coord(y, coords);
            if 0 <= px && px <= 65535 && 0 <= py && py <= 65535 {
                match bitmap {
                    Some(b) => match b.get(px as u16, py as u16) {
                        Ok(v) => v,
                        Err(_) => false,
                    },
                    None => false,
                }
            } else {
                false
            }
        },
        OutputBitSource::Inverted(inner) => !eval_output_bit(inner, bitmap, coords),
    }
}

/// The ROM word at `address`: decode the address, select the page and the glyph for
/// that code (blank when either is absent), then evaluate each data bit; bit `i` of
/// the result is data bit `Di` (see [`law_word_bits_are_data_bits`]). A miss reads
/// off, so this never fails; failures are reported by [`validate_export`]. Address
/// lines past bit 63 read low.
pub fn evaluate_output_word(source: &GlyphSet, config: &ExportConfig, address: u64) -> (w: u64)
    ensures
        w == output_word_spec(*source, *config, address),
{
    let coords = decode_address(config, address);
    let pages = &config.source.pages;
    let bitmap: Option<&Bitmap> = if (coords.page as usize) < pages.len() {
        match source.page_by_id(pages[coords.page as usize]) {
            Some(page) => {
                proof {
                    lemma_first_index_props(source.page_ids(), pages@[coords.page as int]);
                }
                match page.glyph_by_code(coords.code) {
                    Some(glyph) => Some(&glyph.bitmap),
                    None => None,
                }
            },
            None => None,
        }
    } else {
        None
    };
    let ghost sel = selected_bitmap(*source, *config, coords);
    assert(match bitmap {
        Some(b) => Some(b@),
        None => None,
    } == sel);
    let outputs = &config.data_map.output_bits;
    let mut word: u64 = 0;
    let mut i: usize = 0;
    while i < outputs.len()
        invariant
            i <= outputs@.len(),
            outputs == &config.data_map.output_bits,
            sel == match bitmap {
                Some(b) => Some(b@),
                None => None,
            },
            word == word_prefix(outputs@, sel, coords, i as int),
        decreases outputs@.len() - i,
    {
        if eval_output_bit(&outputs[i], bitmap, &coords) && i < 64 {
            word = word | (1u64 << (i as u64));
        }
        i = i + 1;
    }
    word
}

proof fn lemma_word_bit_step(w: u64, k: u64, i: u64)
    by (bit_vector)
    requires
        k < 64,
        i < 64,
    ensures
        ((w | (1u64 << k)) >> i) & 1u64 == 1u64 <==> (i == k || (w >> i) & 1u64 == 1u64),
{
}

proof fn lemma_zero_word_bit(i: u64)
    by (bit_vector)
    requires
        i < 64,
    ensures
        (0u64 >> i) & 1u64 != 1u64,
{
}

/// Bit `i` of the word formed by the first `k` data bits is set exactly when
/// `i < k` and data bit `i` evaluates high.
proof fn lemma_word_prefix_bits(
    outputs: Seq<OutputBitSource>,
    bitmap: Option<BitmapView>,
    c: AddressedCoords,
    k: int,
    i: u64,
)
    requires
        0 <= k <= outputs.len(),
        i < 64,
    ensures
        (word_prefix(outputs, bitmap, c, k) >> i) & 1u64 == 1u64 <==> ((i as int) < k && eval_bit_spec(
            outputs[i as int],
            bitmap,
            c,
        )),
    decreases k,
{
    if k <= 0 {
        lemma_zero_word_bit(i);
    } else {
        lemma_word_prefix_bits(outputs, bitmap, c, k - 1, i);
        let w = word_prefix(outputs, bitmap, c, k - 1);
        if k - 1 < 64 && eval_bit_spec(outputs[k - 1], bitmap, c) {
            lemma_word_bit_step(w, (k - 1) as u64, i);
        }
    }
}

/// Bit `i` of the ROM word is data bit `Di`: set exactly when `output_bits[i]`
/// evaluates high (for the bits a 64-bit word holds).
pub proof fn law_word_bits_are_data_bits(source: GlyphSet, config: ExportConfig, address: u64, i: u64)
    requires
        i < 64,
    ensures
        ({
            let c = decode_spec(config, address);
            (output_word_spec(source, config, address) >> i) & 1u64 == 1u64 <==> ((i as int)
                < config.data_map.output_bits@.len() && eval_bit_spec(
                config.data_map.output_bits@[i as int],
                selected_bitmap(source, config, c),
                c,
            ))
        }),
{
    let c = decode_spec(config, address);
    lemma_word_prefix_bits(
        config.data_map.output_bits@,
        selected_bitmap(source, config, c),
        c,
        config.data_map.output_bits@.len() as int,
        i,
    );
}

/// `2^n` as a `u64`, for `n < 64`.
pub(crate) fn pow2_u64(n: u32) -> (r: u64)
    requires
        n < 64,
    ensures
        r == pow2(n as nat),
        r >= 1,
        n <= 32 ==> r <= 0x1_0000_0000u64,
{
    proof {
        lemma2_to64();
        vstd::arithmetic::power2::lemma_pow2_pos(n as nat);
        if n < 32 {
            lemma_pow2_strictly_increases(n as nat, 32);
        }
        lemma_pow2_strictly_increases(n as nat, 64);
        assert(1 * pow2(n as nat) <= u64::MAX);
        vstd::bits::lemma_u64_shl_is_mul(1, n as u64);
    }
    1u64 << (n as u64)
}

/// Why an export config is not a renderable strict-1:1 ROM, with enough context to
/// explain the incompatibility.
#[derive(Debug, Clone, PartialEq, Eq)]
pub enum ExportError {
    /// The address/data maps do not form a strict 1:1 mapping.
    NotStrictOneToOne { config: String, reason: OneToOneViolation },
    /// The data map's width does not match the source glyph geometry.
    DataWidthMismatch {
        config: String,
        data_bits: usize,
        extent: u16,
        axis: &'static str,
        scan: &'static str,
    },
    /// A drawn glyph's `code` falls outside the addressable code range.
    CodeNotAddressable { config: String, code: u32, code_bits: u32, max: u32 },
    /// The address is wider than the configured limit, or than 32 lines.
    AddressTooWide { config: String, address_bits: usize, max: u32 },
    /// The dense image would exceed the configured word limit.
    ImageTooLarge { config: String, words: u64, max: u64 },
    /// The output format is not implemented (only raw binary is).
    UnsupportedOutputFormat { config: String, name: String },
    /// The image is larger than the configured target output size.
    OutputTooSmall { config: String, image_bytes: u64, output_bytes: u64 },
}

/// How a config fails to be strict 1:1.
#[derive(Debug, Clone, PartialEq, Eq)]
pub enum OneToOneViolation {
    /// Address line `line` is a constant or inverted line, not a plain dimension bit.
    ConstantOrInvertedAddressLine { line: usize },
    /// Neither pixel axis is addressed.
    NoPixelDimension,
    /// Both pixel axes are addressed.
    BothPixelDimensions,
    /// The source selects no pages.
    NoSourcePages,
    /// A dimension's address bits are not exactly `0..N`; `found` holds them sorted.
    NonContiguousBits { dimension: &'static str, found: Vec<u8> },
    /// Too few page bits for the selected pages.
    TooFewPageBits { page_bits: u32, pages: usize },
    /// Too few bits for the addressed pixel axis.
    TooFewPixelBits { dimension: &'static str, pixel_bits: u32, extent: u16 },
    /// Data bit `bit` is not a plain glyph pixel at the addressed line.
    DataBitNotPixel { bit: usize },
    /// Data bit `bit` maps outside `0..extent` or duplicates an earlier bit.
    DataBitOutOfRangeOrDuplicate { bit: usize, extent: u16 },
    /// The glyph set the config reads from is not in the document.
    SourceGlyphSetMissing,
}

/// Which glyph axis the address scans; the other axis comes out on the data bits.
#[derive(Debug, Clone, Copy, PartialEq, Eq, Structural)]
pub enum ScanDirection {
    /// The row is addressed; the columns of that row are the data bits.
    Row,
    /// The column is addressed; the rows of that column are the data bits.
    Column,
}

/// A validated 1:1 export's shape.
#[derive(Debug, Clone, Copy, PartialEq, Eq, Structural)]
pub struct ExportSummary {
    pub scan: ScanDirection,
    pub glyph_width: u16,
    pub glyph_height: u16,
    pub data_bits: usize,
    pub code_bits: u32,
    pub codes: u64,
    pub pages: usize,
    pub output_bytes: u64,
}

/// The report of a validated export, one fact per line: the pixels per scanned
/// line, the data bits, the lines per glyph, the codes, the pages and the output
/// size.
pub open spec fn summary_text(s: ExportSummary) -> Seq<char> {
    let (per_line, lines) = if s.scan == ScanDirection::Row {
        (s.glyph_width, s.glyph_height)
    } else {
        (s.glyph_height, s.glyph_width)
    };
    let line = if s.scan == ScanDirection::Row {
        "row"@
    } else {
        "column"@
    };
    "Valid 1:1 export\n"@ + decimal(per_line as nat) + " glyph pixels per "@ + line + "\n"@ + decimal(
        s.data_bits as nat,
    ) + " ROM data bits\n"@ + decimal(lines as nat) + " "@ + line + "s per glyph\n"@ + decimal(
        s.codes as nat,
    ) + " codes ("@ + decimal(s.code_bits as nat) + " code bits)\n"@ + decimal(s.pages as nat)
        + " pages\n"@ + decimal(s.output_bytes as nat) + " output bytes"@
}

impl ExportSummary {
    /// The human-readable report of this shape.
    pub fn describe(&self) -> (text: String)
        ensures
            text@ == summary_text(*self),
    {
        let (per_line, lines, line) = match self.scan {
            ScanDirection::Row => (self.glyph_width, self.glyph_height, "row"),
            ScanDirection::Column => (self.glyph_height, self.glyph_width, "column"),
        };
        let mut t = String::new();
        push_str(&mut t, "Valid 1:1 export\n");
        push_decimal(&mut t, per_line as u64);
        push_str(&mut t, " glyph pixels per ");
        push_str(&mut t, line);
        push_str(&mut t, "\n");
        push_decimal(&mut t, self.data_bits as u64);
        push_str(&mut t, " ROM data bits\n");
        push_decimal(&mut t, lines as u64);
        push_str(&mut t, " ");
        push_str(&mut t, line);
        push_str(&mut t, "s per glyph\n");
        push_decimal(&mut t, self.codes);
        push_str(&mut t, " codes (");
        push_decimal(&mut t, self.code_bits as u64);
        push_str(&mut t, " code bits)\n");
        push_decimal(&mut t, self.pages as u64);
        push_str(&mut t, " pages\n");
        push_decimal(&mut t, self.output_bytes);
        push_str(&mut t, " output bytes");
        t
    }
}

/// The address-width check shared by image generation and validation.
pub open spec fn address_too_wide(config: ExportConfig, limits: Limits) -> bool {
    config.address_map.address_bits@.len() > limits.max_export_address_width
        || config.address_map.address_bits@.len() > 32
}

/// The smaller of two `u32`s.
pub open spec fn min_u32(a: u32, b: u32) -> u32 {
    if a <= b {
        a
    } else {
        b
    }
}

/// The dense logical memory image: one word per address over the full
/// `2^address_bits` range. Fails if the address width or the image size exceeds
/// `limits`.
pub fn generate_image(source: &GlyphSet, config: &ExportConfig, limits: &Limits) -> (r: Result<Vec<u64>, ExportError>)
    ensures
        address_too_wide(*config, *limits) ==> r == Err::<Vec<u64>, ExportError>(
            ExportError::AddressTooWide {
                config: config.name,
                address_bits: config.address_map.address_bits@.len() as usize,
                max: min_u32(limits.max_export_address_width, 32),
            },
        ),
        !address_too_wide(*config, *limits) && pow2(config.address_map.address_bits@.len())
            > limits.max_output_image_pixels ==> r == Err::<Vec<u64>, ExportError>(
            ExportError::ImageTooLarge {
                config: config.name,
                words: pow2(config.address_map.address_bits@.len()) as u64,
                max: limits.max_output_image_pixels,
            },
        ),
        !address_too_wide(*config, *limits) && pow2(config.address_map.address_bits@.len())
            <= limits.max_output_image_pixels ==> (r matches Ok(image) && image@.len() == pow2(
            config.address_map.address_bits@.len(),
        ) && forall|a: int|
            0 <= a < image@.len() ==> #[trigger] image@[a] == output_word_spec(*source, *config, a as u64)),
{
    let address_bits = config.address_map.address_bits.len();
    if address_bits > limits.max_export_address_width as usize || address_bits > 32 {
        let max = if limits.max_export_address_width <= 32 {
            limits.max_export_address_width
        } else {
            32
        };
        return Err(ExportError::AddressTooWide { config: config.name.clone(), address_bits, max });
    }
    let words = pow2_u64(address_bits as u32);
    if words > limits.max_output_image_pixels {
        return Err(
            ExportError::ImageTooLarge {
                config: config.name.clone(),
                words,
                max: limits.max_output_image_pixels,
            },
        );
    }
    let mut image: Vec<u64> = Vec::new();
    let mut address: u64 = 0;
    while address < words
        invariant
            address <= words,
            address_bits == config.address_map.address_bits@.len(),
            address_bits <= 32,
            image@.len() == address,
            forall|a: int| 0 <= a < address ==> #[trigger] image@[a] == output_word_spec(*source, *config, a as u64),
        decreases words - address,
    {
        image.push(evaluate_output_word(source, config, address));
        address = address + 1;
    }
    Ok(image)
}

/// `ceil(data_bits / 8)`, at least 1: the bytes one word occupies in a raw image.
pub open spec fn bytes_per_word(data_bits: nat) -> nat {
    if data_bits == 0 {
        1
    } else {
        ((data_bits + 7) / 8) as nat
    }
}

/// The bytes actually emitted per word: `bytes_per_word`, capped at the 8 bytes of
/// a `u64`.
pub open spec fn emitted_bytes(data_bits: nat) -> nat {
    if bytes_per_word(data_bits) <= 8 {
        bytes_per_word(data_bits)
    } else {
        8
    }
}

/// Byte `j` of `word` in little-endian order.
pub open spec fn le_byte(word: u64, j: int) -> u8 {
    ((word >> ((8 * j) as u64)) & 0xffu64) as u8
}

/// Encodes a logical image as a dense raw binary file: each word emits
/// `ceil(data_bits / 8)` (at least one, at most eight) little-endian bytes.
pub fn encode_raw_binary(image: &[u64], data_bits: usize) -> (out: Vec<u8>)
    ensures
        out@.len() == image@.len() * emitted_bytes(data_bits as nat),
        forall|k: int, j: int|
            0 <= k < image@.len() && 0 <= j < emitted_bytes(data_bits as nat) ==> out@[k
                * emitted_bytes(data_bits as nat) + j] == le_byte(image@[k], j),
{
    let per_word: usize = if data_bits == 0 {
        1
    } else {
        data_bits / 8 + if data_bits % 8 == 0 {
            0
        } else {
            1
        }
    };
    let m: usize = if per_word < 8 {
        per_word
    } else {
        8
    };
    let ghost em = emitted_bytes(data_bits as nat);
    assert(m == em);
    let mut out: Vec<u8> = Vec::new();
    let mut k: usize = 0;
    while k < image.len()
        invariant
            k <= image@.len(),
            1 <= m <= 8,
            m == em,
            out@.len() == k * m,
            forall|kk: int, j: int|
                0 <= kk < k && 0 <= j < m ==> out@[kk * m + j] == le_byte(image@[kk], j),
        decreases image@.len() - k,
    {
        let word = image[k];
        let ghost before = out@;
        let mut j: usize = 0;
        while j < m
            invariant
                j <= m,
                1 <= m <= 8,
                k < image@.len(),
                word == image@[k as int],
                out@.len() == k * m + j,
                forall|i: int| 0 <= i < k * m ==> out@[i] == before[i],
                forall|jj: int| 0 <= jj < j ==> out@[k * m + jj] == le_byte(word, jj),
            decreases m - j,
        {
            out.push(((word >> ((8 * j) as u64)) & 0xff) as u8);
            j = j + 1;
        }
        proof {
            assert forall|kk: int, j: int| 0 <= kk < k + 1 && 0 <= j < m implies out@[kk * m + j]
                == le_byte(image@[kk], j) by {
                if kk < k {
                    assert(kk * m + j < k * m) by (nonlinear_arith)
                        requires
                            kk < k,
                            j < m,
                    ;
                    assert(out@[kk * m + j] == before[kk * m + j]);
                }
            }
            assert((k + 1) * m == k * m + m) by (nonlinear_arith);
        }
        k = k + 1;
    }
    out
}

// ---- strict 1:1 validation ----

/// The coordinate dimensions an address line can carry.
#[derive(Debug, Clone, Copy, PartialEq, Eq, Structural)]
pub enum Dimension {
    Code,
    Page,
    PixelX,
    PixelY,
}

/// The display name of a dimension, as used in explanations.
pub open spec fn dimension_name(d: Dimension) -> Seq<char> {
    match d {
        Dimension::Code => "code"@,
        Dimension::Page => "page"@,
        Dimension::PixelX => "pixel_x"@,
        Dimension::PixelY => "pixel_y"@,
    }
}

/// The bit index a line contributes to dimension `d`, if it is a plain `d` line.
pub open spec fn dim_bit(b: AddressBitSource, d: Dimension) -> Option<u8> {
    match b {
        AddressBitSource::CodeBit(n) => if d == Dimension::Code { Some(n) } else { None },
        AddressBitSource::PageBit(n) => if d == Dimension::Page { Some(n) } else { None },
        AddressBitSource::PixelXBit(n) => if d == Dimension::PixelX { Some(n) } else { None },
        AddressBitSource::PixelYBit(n) => if d == Dimension::PixelY { Some(n) } else { None },
        _ => None,
    }
}

/// A plain dimension bit (not a constant or inverted line).
pub open spec fn is_plain(b: AddressBitSource) -> bool {
    !(b is Constant) && !(b is Inverted)
}

/// The bit indices of dimension `d`'s lines, in address order.
pub open spec fn dim_bits(bits: Seq<AddressBitSource>, d: Dimension) -> Seq<u8>
    decreases bits.len(),
{
    if bits.len() == 0 {
        Seq::empty()
    } else {
        dim_bits(bits.drop_last(), d) + match dim_bit(bits.last(), d) {
            Some(n) => seq![n],
            None => Seq::empty(),
        }
    }
}

/// The bit indices are exactly `0..ns.len()`: each in range and none repeated.
pub open spec fn contiguous(ns: Seq<u8>) -> bool {
    &&& forall|i: int| 0 <= i < ns.len() ==> (#[trigger] ns[i] as int) < ns.len()
    &&& forall|i: int, j: int| 0 <= i < j < ns.len() ==> ns[i] != ns[j]
}

/// `s` is in ascending order.
pub open spec fn ascending(s: Seq<u8>) -> bool {
    forall|i: int, j: int| 0 <= i < j < s.len() ==> s[i] <= s[j]
}

/// For a strict-1:1 data bit (a pixel whose addressed coordinate is the scanned
/// line and whose other coordinate is a constant), that constant.
pub open spec fn data_pixel_coord_spec(o: OutputBitSource, scan: ScanDirection) -> Option<i32> {
    match o {
        OutputBitSource::Pixel { x, y } => match scan {
            ScanDirection::Row => match (x, y) {
                (CoordinateExpr::Constant(cx), CoordinateExpr::AddressedY) => Some(cx),
                _ => None,
            },
            ScanDirection::Column => match (x, y) {
                (CoordinateExpr::AddressedX, CoordinateExpr::Constant(cy)) => Some(cy),
                _ => None,
            },
        },
        _ => None,
    }
}

/// Data bit `i` is a plain pixel whose coordinate is in `0..extent` and not taken by
/// an earlier bit.
pub open spec fn data_bit_ok(outputs: Seq<OutputBitSource>, scan: ScanDirection, extent: int, i: int) -> bool {
    match data_pixel_coord_spec(outputs[i], scan) {
        Some(c) => 0 <= c < extent && forall|j: int| 0 <= j < i ==> data_pixel_coord_spec(#[trigger] outputs[j], scan) != Some(c),
        None => false,
    }
}

/// The codes of the glyphs on the selected pages, page by page in selection order
/// (a page id that does not resolve contributes nothing).
pub open spec fn selected_codes(set: GlyphSet, pages: Seq<PageId>) -> Seq<u32>
    decreases pages.len(),
{
    if pages.len() == 0 {
        Seq::empty()
    } else {
        selected_codes(set, pages.drop_last()) + match first_index(set.page_ids(), pages.last()) {
            Some(pi) => set.pages@[pi].codes(),
            None => Seq::empty(),
        }
    }
}

/// The scanned axis, when exactly one pixel dimension is addressed.
pub open spec fn scan_spec(config: ExportConfig) -> ScanDirection {
    if dim_bits(config.address_map.address_bits@, Dimension::PixelX).len() == 0 {
        ScanDirection::Row
    } else {
        ScanDirection::Column
    }
}

/// The first check a config fails, in the order the validator applies them.
pub enum ExportCheck {
    UnsupportedFormat,
    AddressTooWide,
    ImageTooLarge,
    NonPlainLine { line: int },
    NoPixelDimension,
    BothPixelDimensions,
    NoSourcePages,
    NonContiguous { dimension: Dimension },
    TooFewPageBits,
    TooFewPixelBits,
    DataWidth,
    DataBitNotPixel { bit: int },
    DataBitOutOfRange { bit: int },
    CodeNotAddressable { code: u32 },
}

/// The checks on the address map: every line plain, exactly one pixel axis, pages
/// selected, each dimension contiguous, and enough page/pixel bits.
pub open spec fn address_check(source: GlyphSet, config: ExportConfig) -> Option<ExportCheck> {
    let bits = config.address_map.address_bits@;
    let xs = dim_bits(bits, Dimension::PixelX);
    let ys = dim_bits(bits, Dimension::PixelY);
    let cs = dim_bits(bits, Dimension::Code);
    let ps = dim_bits(bits, Dimension::Page);
    let scan = scan_spec(config);
    let pixel_dim = if scan == ScanDirection::Row { Dimension::PixelY } else { Dimension::PixelX };
    let pixel_ns = if scan == ScanDirection::Row { ys } else { xs };
    let addressed_extent = if scan == ScanDirection::Row {
        source.glyph_size.height
    } else {
        source.glyph_size.width
    };
    match first_where(bits.len() as int, |i: int| !is_plain(bits[i])) {
        Some(line) => Some(ExportCheck::NonPlainLine { line }),
        None => if xs.len() == 0 && ys.len() == 0 {
            Some(ExportCheck::NoPixelDimension)
        } else if xs.len() != 0 && ys.len() != 0 {
            Some(ExportCheck::BothPixelDimensions)
        } else if config.source.pages@.len() == 0 {
            Some(ExportCheck::NoSourcePages)
        } else if !contiguous(cs) {
            Some(ExportCheck::NonContiguous { dimension: Dimension::Code })
        } else if !contiguous(ps) {
            Some(ExportCheck::NonContiguous { dimension: Dimension::Page })
        } else if pow2(ps.len()) < config.source.pages@.len() {
            Some(ExportCheck::TooFewPageBits)
        } else if !contiguous(pixel_ns) {
            Some(ExportCheck::NonContiguous { dimension: pixel_dim })
        } else if pow2(pixel_ns.len()) < addressed_extent {
            Some(ExportCheck::TooFewPixelBits)
        } else {
            None
        },
    }
}

/// The checks on the data map and the drawn codes: one data bit per pixel of the
/// other axis, forming a permutation, and every drawn code addressable.
pub open spec fn data_check(source: GlyphSet, config: ExportConfig) -> Option<ExportCheck> {
    let outputs = config.data_map.output_bits@;
    let scan = scan_spec(config);
    let data_extent = if scan == ScanDirection::Row {
        source.glyph_size.width
    } else {
        source.glyph_size.height
    };
    let codes = selected_codes(source, config.source.pages@);
    let max_code = pow2(dim_bits(config.address_map.address_bits@, Dimension::Code).len()) - 1;
    if outputs.len() != data_extent {
        Some(ExportCheck::DataWidth)
    } else {
        match first_where(outputs.len() as int, |i: int| !data_bit_ok(outputs, scan, data_extent as int, i)) {
            Some(i) => if data_pixel_coord_spec(outputs[i], scan) is None {
                Some(ExportCheck::DataBitNotPixel { bit: i })
            } else {
                Some(ExportCheck::DataBitOutOfRange { bit: i })
            },
            None => match first_where(codes.len() as int, |k: int| codes[k] > max_code) {
                Some(k) => Some(ExportCheck::CodeNotAddressable { code: codes[k] }),
                None => None,
            },
        }
    }
}

/// The first failed check of strict-1:1 validation, or `None` when `config` is a
/// strict 1:1 ROM export of `source` within `limits`.
pub open spec fn export_check(source: GlyphSet, config: ExportConfig, limits: Limits) -> Option<ExportCheck> {
    if config.output_format is Unsupported {
        Some(ExportCheck::UnsupportedFormat)
    } else if address_too_wide(config, limits) {
        Some(ExportCheck::AddressTooWide)
    } else if pow2(config.address_map.address_bits@.len()) > limits.max_output_image_pixels {
        Some(ExportCheck::ImageTooLarge)
    } else {
        match address_check(source, config) {
            Some(c) => Some(c),
            None => data_check(source, config),
        }
    }
}

/// The shape of a config that passes every check: every address line is a plain
/// dimension bit, exactly the scanned pixel axis is addressed, each addressed
/// dimension's bits are exactly `0..n`, there are enough page and pixel bits, the
/// address is at most 32 lines, the data bits are one pixel per column (row scan)
/// or row (column scan) with no column taken twice, and every drawn code fits.
pub proof fn lemma_validated_shape(source: GlyphSet, config: ExportConfig, limits: Limits)
    requires
        export_check(source, config, limits) is None,
    ensures
        ({
            let bits = config.address_map.address_bits@;
            let outputs = config.data_map.output_bits@;
            let scan = scan_spec(config);
            let xs = dim_bits(bits, Dimension::PixelX);
            let ys = dim_bits(bits, Dimension::PixelY);
            let cs = dim_bits(bits, Dimension::Code);
            let ps = dim_bits(bits, Dimension::Page);
            let data_extent = if scan == ScanDirection::Row {
                source.glyph_size.width
            } else {
                source.glyph_size.height
            };
            let codes = selected_codes(source, config.source.pages@);
            &&& bits.len() <= 32
            &&& config.output_format is RawBinary
            &&& forall|l: int| 0 <= l < bits.len() ==> is_plain(#[trigger] bits[l])
            &&& scan == ScanDirection::Row ==> xs.len() == 0 && ys.len() > 0 && contiguous(ys)
                && pow2(ys.len()) >= source.glyph_size.height
            &&& scan == ScanDirection::Column ==> ys.len() == 0 && xs.len() > 0 && contiguous(xs)
                && pow2(xs.len()) >= source.glyph_size.width
            &&& config.source.pages@.len() > 0
            &&& contiguous(cs)
            &&& contiguous(ps)
            &&& pow2(ps.len()) >= config.source.pages@.len()
            &&& outputs.len() == data_extent
            &&& forall|i: int| 0 <= i < outputs.len() ==> #[trigger] data_bit_ok(outputs, scan, outputs.len() as int, i)
            &&& forall|k: int| 0 <= k < codes.len() ==> #[trigger] codes[k] <= pow2(cs.len()) - 1
        }),
{
    let bits = config.address_map.address_bits@;
    let outputs = config.data_map.output_bits@;
    let scan = scan_spec(config);
    let data_extent = if scan == ScanDirection::Row {
        source.glyph_size.width
    } else {
        source.glyph_size.height
    };
    let codes = selected_codes(source, config.source.pages@);
    let max_code = pow2(dim_bits(bits, Dimension::Code).len()) - 1;
    let plain = |i: int| !is_plain(bits[i]);
    assert(first_where(bits.len() as int, plain) is None);
    assert forall|l: int| 0 <= l < bits.len() implies is_plain(#[trigger] bits[l]) by {
        if !is_plain(bits[l]) {
            assert(plain(l));
        }
    }
    let bad = |i: int| !data_bit_ok(outputs, scan, data_extent as int, i);
    assert(first_where(outputs.len() as int, bad) is None);
    assert(outputs.len() == data_extent);
    assert forall|i: int| 0 <= i < outputs.len() implies #[trigger] data_bit_ok(outputs, scan, outputs.len() as int, i) by {
        if !data_bit_ok(outputs, scan, data_extent as int, i) {
            assert(bad(i));
        }
    }
    let high = |k: int| codes[k] > max_code;
    assert(first_where(codes.len() as int, high) is None);
    assert forall|k: int| 0 <= k < codes.len() implies codes[k] <= max_code by {
        if codes[k] > max_code {
            assert(high(k));
        }
    }
}

/// A config of the validated shape passes every check: the converse of
/// [`lemma_validated_shape`], with the limits on the address width and image size.
pub proof fn lemma_shape_validates(source: GlyphSet, config: ExportConfig, limits: Limits)
    requires
        ({
            let bits = config.address_map.address_bits@;
            let outputs = config.data_map.output_bits@;
            let scan = scan_spec(config);
            let xs = dim_bits(bits, Dimension::PixelX);
            let ys = dim_bits(bits, Dimension::PixelY);
            let cs = dim_bits(bits, Dimension::Code);
            let ps = dim_bits(bits, Dimension::Page);
            let data_extent = if scan == ScanDirection::Row {
                source.glyph_size.width
            } else {
                source.glyph_size.height
            };
            let codes = selected_codes(source, config.source.pages@);
            &&& config.output_format is RawBinary
            &&& !address_too_wide(config, limits)
            &&& pow2(bits.len()) <= limits.max_output_image_pixels
            &&& forall|l: int| 0 <= l < bits.len() ==> is_plain(#[trigger] bits[l])
            &&& scan == ScanDirection::Row ==> xs.len() == 0 && ys.len() > 0 && contiguous(ys)
                && pow2(ys.len()) >= source.glyph_size.height
            &&& scan == ScanDirection::Column ==> ys.len() == 0 && xs.len() > 0 && contiguous(xs)
                && pow2(xs.len()) >= source.glyph_size.width
            &&& config.source.pages@.len() > 0
            &&& contiguous(cs)
            &&& contiguous(ps)
            &&& pow2(ps.len()) >= config.source.pages@.len()
            &&& outputs.len() == data_extent
            &&& forall|i: int| 0 <= i < outputs.len() ==> #[trigger] data_bit_ok(outputs, scan, outputs.len() as int, i)
            &&& forall|k: int| 0 <= k < codes.len() ==> #[trigger] codes[k] <= pow2(cs.len()) - 1
        }),
    ensures
        export_check(source, config, limits) is None,
{
    let bits = config.address_map.address_bits@;
    let outputs = config.data_map.output_bits@;
    let scan = scan_spec(config);
    let data_extent = if scan == ScanDirection::Row {
        source.glyph_size.width
    } else {
        source.glyph_size.height
    };
    let codes = selected_codes(source, config.source.pages@);
    let max_code = pow2(dim_bits(bits, Dimension::Code).len()) - 1;
    let plain = |i: int| !is_plain(bits[i]);
    assert forall|j: int| 0 <= j < bits.len() implies !#[trigger] plain(j) by {
        assert(is_plain(bits[j]));
    }
    lemma_first_where_none(bits.len() as int, plain);
    let bad = |i: int| !data_bit_ok(outputs, scan, data_extent as int, i);
    assert forall|j: int| 0 <= j < outputs.len() implies !#[trigger] bad(j) by {
        assert(data_bit_ok(outputs, scan, outputs.len() as int, j));
    }
    lemma_first_where_none(outputs.len() as int, bad);
    let high = |k: int| codes[k] > max_code;
    assert forall|j: int| 0 <= j < codes.len() implies !#[trigger] high(j) by {
        assert(codes[j] <= pow2(dim_bits(bits, Dimension::Code).len()) - 1);
    }
    lemma_first_where_none(codes.len() as int, high);
}

/// The shape reported for a config that passes every check.
pub open spec fn summary_spec(source: GlyphSet, config: ExportConfig) -> ExportSummary {
    let code_bits = dim_bits(config.address_map.address_bits@, Dimension::Code).len();
    let data_bits = config.data_map.output_bits@.len();
    ExportSummary {
        scan: scan_spec(config),
        glyph_width: source.glyph_size.width,
        glyph_height: source.glyph_size.height,
        data_bits: data_bits as usize,
        code_bits: code_bits as u32,
        codes: pow2(code_bits) as u64,
        pages: config.source.pages@.len() as usize,
        output_bytes: (pow2(config.address_map.address_bits@.len()) * bytes_per_word(data_bits)) as u64,
    }
}

/// `e` is the error reported for failed check `check`, naming `config`.
pub open spec fn error_agrees(e: ExportError, check: ExportCheck, source: GlyphSet, config: ExportConfig, limits: Limits) -> bool {
    let bits = config.address_map.address_bits@;
    let scan = scan_spec(config);
    let name = config.name;
    match check {
        ExportCheck::UnsupportedFormat => e == ExportError::UnsupportedOutputFormat {
            config: name,
            name: config.output_format->name,
        },
        ExportCheck::AddressTooWide => e == ExportError::AddressTooWide {
            config: name,
            address_bits: bits.len() as usize,
            max: min_u32(limits.max_export_address_width, 32),
        },
        ExportCheck::ImageTooLarge => e == ExportError::ImageTooLarge {
            config: name,
            words: pow2(bits.len()) as u64,
            max: limits.max_output_image_pixels,
        },
        ExportCheck::NonPlainLine { line } => e == ExportError::NotStrictOneToOne {
            config: name,
            reason: OneToOneViolation::ConstantOrInvertedAddressLine { line: line as usize },
        },
        ExportCheck::NoPixelDimension => e == ExportError::NotStrictOneToOne {
            config: name,
            reason: OneToOneViolation::NoPixelDimension,
        },
        ExportCheck::BothPixelDimensions => e == ExportError::NotStrictOneToOne {
            config: name,
            reason: OneToOneViolation::BothPixelDimensions,
        },
        ExportCheck::NoSourcePages => e == ExportError::NotStrictOneToOne {
            config: name,
            reason: OneToOneViolation::NoSourcePages,
        },
        ExportCheck::NonContiguous { dimension } => {
            &&& e matches ExportError::NotStrictOneToOne { config: c, reason: OneToOneViolation::NonContiguousBits { dimension: dn, found } }
            &&& c == name
            &&& dn@ == dimension_name(dimension)
            &&& ascending(found@)
            &&& found@.to_multiset() == dim_bits(bits, dimension).to_multiset()
        },
        ExportCheck::TooFewPageBits => e == ExportError::NotStrictOneToOne {
            config: name,
            reason: OneToOneViolation::TooFewPageBits {
                page_bits: dim_bits(bits, Dimension::Page).len() as u32,
                pages: config.source.pages@.len() as usize,
            },
        },
        ExportCheck::TooFewPixelBits => {
            &&& e matches ExportError::NotStrictOneToOne { config: c, reason: OneToOneViolation::TooFewPixelBits { dimension: dn, pixel_bits, extent } }
            &&& c == name
            &&& if scan == ScanDirection::Row {
                dn@ == "pixel_y"@ && pixel_bits == dim_bits(bits, Dimension::PixelY).len() && extent == source.glyph_size.height
            } else {
                dn@ == "pixel_x"@ && pixel_bits == dim_bits(bits, Dimension::PixelX).len() && extent == source.glyph_size.width
            }
        },
        ExportCheck::DataWidth => {
            &&& e matches ExportError::DataWidthMismatch { config: c, data_bits, extent, axis, scan: sn }
            &&& c == name
            &&& data_bits == config.data_map.output_bits@.len()
            &&& if scan == ScanDirection::Row {
                extent == source.glyph_size.width && axis@ == "wide"@ && sn@ == "row"@
            } else {
                extent == source.glyph_size.height && axis@ == "tall"@ && sn@ == "column"@
            }
        },
        ExportCheck::DataBitNotPixel { bit } => e == ExportError::NotStrictOneToOne {
            config: name,
            reason: OneToOneViolation::DataBitNotPixel { bit: bit as usize },
        },
        ExportCheck::DataBitOutOfRange { bit } => e == ExportError::NotStrictOneToOne {
            config: name,
            reason: OneToOneViolation::DataBitOutOfRangeOrDuplicate {
                bit: bit as usize,
                extent: if scan == ScanDirection::Row {
                    source.glyph_size.width
                } else {
                    source.glyph_size.height
                },
            },
        },
        ExportCheck::CodeNotAddressable { code } => {
            let code_bits = dim_bits(bits, Dimension::Code).len();
            e == ExportError::CodeNotAddressable {
                config: name,
                code,
                code_bits: code_bits as u32,
                max: (pow2(code_bits) - 1) as u32,
            }
        },
    }
}

proof fn lemma_dim_bits_step(bits: Seq<AddressBitSource>, i: int, d: Dimension)
    requires
        0 <= i < bits.len(),
    ensures
        dim_bits(bits.take(i + 1), d) == dim_bits(bits.take(i), d) + match dim_bit(bits[i], d) {
            Some(n) => seq![n],
            None => Seq::<u8>::empty(),
        },
{
    assert(bits.take(i + 1).drop_last() =~= bits.take(i));
}

pub(crate) proof fn lemma_dim_bits_len(bits: Seq<AddressBitSource>, d: Dimension)
    ensures
        dim_bits(bits, d).len() <= bits.len(),
    decreases bits.len(),
{
    if bits.len() > 0 {
        lemma_dim_bits_len(bits.drop_last(), d);
    }
}

/// Splits the address lines into per-dimension bit lists, or names the first line
/// that is a constant or inverted line.
fn classify_lines(bits: &Vec<AddressBitSource>) -> (r: Result<(Vec<u8>, Vec<u8>, Vec<u8>, Vec<u8>), usize>)
    ensures
        match first_where(bits@.len() as int, |i: int| !is_plain(bits@[i])) {
            Some(line) => r == Err::<(Vec<u8>, Vec<u8>, Vec<u8>, Vec<u8>), usize>(line as usize),
            None => r matches Ok((c, p, x, y)) && c@ == dim_bits(bits@, Dimension::Code) && p@ == dim_bits(
                bits@,
                Dimension::Page,
            ) && x@ == dim_bits(bits@, Dimension::PixelX) && y@ == dim_bits(bits@, Dimension::PixelY),
        },
{
    let mut code_ns: Vec<u8> = Vec::new();
    let mut page_ns: Vec<u8> = Vec::new();
    let mut x_ns: Vec<u8> = Vec::new();
    let mut y_ns: Vec<u8> = Vec::new();
    let ghost p = |i: int| !is_plain(bits@[i]);
    let mut i: usize = 0;
    while i < bits.len()
        invariant
            i <= bits@.len(),
            p == |i: int| !is_plain(bits@[i]),
            forall|j: int| 0 <= j < i ==> !#[trigger] p(j),
            code_ns@ == dim_bits(bits@.take(i as int), Dimension::Code),
            page_ns@ == dim_bits(bits@.take(i as int), Dimension::Page),
            x_ns@ == dim_bits(bits@.take(i as int), Dimension::PixelX),
            y_ns@ == dim_bits(bits@.take(i as int), Dimension::PixelY),
        decreases bits@.len() - i,
    {
        proof {
            lemma_dim_bits_step(bits@, i as int, Dimension::Code);
            lemma_dim_bits_step(bits@, i as int, Dimension::Page);
            lemma_dim_bits_step(bits@, i as int, Dimension::PixelX);
            lemma_dim_bits_step(bits@, i as int, Dimension::PixelY);
        }
        match &bits[i] {
            AddressBitSource::CodeBit(n) => code_ns.push(*n),
            AddressBitSource::PageBit(n) => page_ns.push(*n),
            AddressBitSource::PixelXBit(n) => x_ns.push(*n),
            AddressBitSource::PixelYBit(n) => y_ns.push(*n),
            _ => {
                proof {
                    crate::search::lemma_first_where_is(bits@.len() as int, p, i as int);
                }
                return Err(i);
            },
        }
        i = i + 1;
    }
    proof {
        crate::search::lemma_first_where_none(bits@.len() as int, p);
        assert(bits@.take(bits@.len() as int) =~= bits@);
    }
    Ok((code_ns, page_ns, x_ns, y_ns))
}

/// A sorted copy of `ns`, by insertion.
fn sorted_copy(ns: &Vec<u8>) -> (r: Vec<u8>)
    ensures
        ascending(r@),
        r@.to_multiset() == ns@.to_multiset(),
{
    let mut out: Vec<u8> = Vec::new();
    assert(out@ =~= ns@.take(0));
    let mut i: usize = 0;
    while i < ns.len()
        invariant
            i <= ns@.len(),
            ascending(out@),
            out@.to_multiset() == ns@.take(i as int).to_multiset(),
        decreases ns@.len() - i,
    {
        let n = ns[i];
        let mut pos: usize = 0;
        while pos < out.len() && out[pos] <= n
            invariant
                pos <= out@.len(),
                forall|k: int| 0 <= k < pos ==> out@[k] <= n,
            decreases out@.len() - pos,
        {
            pos = pos + 1;
        }
        let ghost before = out@;
        out.insert(pos, n);
        proof {
            assert(ns@.take(i + 1) =~= ns@.take(i as int).push(n));
            vstd::seq_lib::to_multiset_insert(before, pos as int, n);
            vstd::seq_lib::to_multiset_build(ns@.take(i as int), n);
            assert(out@ == before.insert(pos as int, n));
            assert forall|a: int, b: int| 0 <= a < b < out@.len() implies out@[a] <= out@[b] by {
                if b < pos {
                } else if b == pos {
                } else if a < pos {
                    assert(out@[b] == before[b - 1]);
                    if pos < before.len() {
                        assert(before[pos as int] > n);
                        assert(before[pos as int] <= before[b - 1]);
                    }
                } else if a == pos {
                    assert(out@[b] == before[b - 1]);
                    assert(before[pos as int] > n);
                    if b - 1 > pos {
                        assert(before[pos as int] <= before[b - 1]);
                    }
                } else {
                    assert(out@[a] == before[a - 1]);
                    assert(out@[b] == before[b - 1]);
                }
            }
        }
        i = i + 1;
    }
    proof {
        assert(ns@.take(ns@.len() as int) =~= ns@);
    }
    out
}

/// Checks that a dimension's bit indices are exactly `0..N`, returning `N`, or the
/// indices sorted for the explanation.
fn partition(ns: &Vec<u8>) -> (r: Result<u32, Vec<u8>>)
    requires
        ns@.len() <= 32,
    ensures
        contiguous(ns@) ==> r == Ok::<u32, Vec<u8>>(ns@.len() as u32),
        !contiguous(ns@) ==> (r matches Err(found) && ascending(found@) && found@.to_multiset()
            == ns@.to_multiset()),
{
    let len = ns.len();
    let mut seen: Vec<bool> = Vec::new();
    let mut k: usize = 0;
    while k < len
        invariant
            k <= len,
            seen@.len() == k,
            forall|v: int| 0 <= v < k ==> !seen@[v],
        decreases len - k,
    {
        seen.push(false);
        k = k + 1;
    }
    let mut i: usize = 0;
    while i < len
        invariant
            i <= len,
            len == ns@.len(),
            seen@.len() == len,
            forall|j: int| 0 <= j < i ==> (#[trigger] ns@[j] as int) < len,
            forall|a: int, b: int| 0 <= a < b < i ==> ns@[a] != ns@[b],
            forall|v: int| 0 <= v < len ==> (seen@[v] <==> exists|j: int| 0 <= j < i && ns@[j] as int == v),
        decreases len - i,
    {
        let n = ns[i];
        if n as usize >= len || seen[n as usize] {
            proof {
                if (n as usize) < len {
                    let j = choose|j: int| 0 <= j < i && ns@[j] as int == n as int;
                    assert(ns@[j] == ns@[i as int]);
                }
            }
            return Err(sorted_copy(ns));
        }
        seen.set(n as usize, true);
        i = i + 1;
    }
    Ok(len as u32)
}

/// Checks the data bits against the scanned axis: each must be a plain pixel at the
/// addressed line, and together they must be a permutation of `0..extent`.
fn check_data_bits(outputs: &Vec<OutputBitSource>, scan: ScanDirection, extent: u16) -> (r: Result<(), OneToOneViolation>)
    ensures
        match first_where(outputs@.len() as int, |i: int| !data_bit_ok(outputs@, scan, extent as int, i)) {
            None => r == Ok::<(), OneToOneViolation>(()),
            Some(i) => r == Err::<(), OneToOneViolation>(
                if data_pixel_coord_spec(outputs@[i], scan) is None {
                    OneToOneViolation::DataBitNotPixel { bit: i as usize }
                } else {
                    OneToOneViolation::DataBitOutOfRangeOrDuplicate { bit: i as usize, extent }
                },
            ),
        },
{
    let ghost p = |i: int| !data_bit_ok(outputs@, scan, extent as int, i);
    let mut covered: Vec<bool> = Vec::new();
    let mut k: u16 = 0;
    while k < extent
        invariant
            k <= extent,
            covered@.len() == k,
            forall|v: int| 0 <= v < k ==> !covered@[v],
        decreases extent - k,
    {
        covered.push(false);
        k = k + 1;
    }
    let mut i: usize = 0;
    while i < outputs.len()
        invariant
            i <= outputs@.len(),
            covered@.len() == extent,
            p == |i: int| !data_bit_ok(outputs@, scan, extent as int, i),
            forall|j: int| 0 <= j < i ==> !#[trigger] p(j),
            forall|v: int|
                0 <= v < extent ==> (covered@[v] <==> exists|j: int|
                    0 <= j < i && data_pixel_coord_spec(#[trigger] outputs@[j], scan) == Some(v as i32)),
        decreases outputs@.len() - i,
    {
        let coord = data_pixel_coord(&outputs[i], scan);
        match coord {
            None => {
                proof {
                    crate::search::lemma_first_where_is(outputs@.len() as int, p, i as int);
                }
                return Err(OneToOneViolation::DataBitNotPixel { bit: i });
            },
            Some(c) => {
                if c < 0 || c >= extent as i32 || covered[c as usize] {
                    proof {
                        if 0 <= c < extent {
                            let j = choose|j: int|
                                0 <= j < i && data_pixel_coord_spec(#[trigger] outputs@[j], scan) == Some(c);
                            assert(!data_bit_ok(outputs@, scan, extent as int, i as int));
                        }
                        crate::search::lemma_first_where_is(outputs@.len() as int, p, i as int);
                    }
                    return Err(OneToOneViolation::DataBitOutOfRangeOrDuplicate { bit: i, extent });
                }
                proof {
                    assert(data_bit_ok(outputs@, scan, extent as int, i as int));
                }
                covered.set(c as usize, true);
            },
        }
        i = i + 1;
    }
    proof {
        crate::search::lemma_first_where_none(outputs@.len() as int, p);
    }
    Ok(())
}

/// For a strict-1:1 data bit, the constant coordinate on the data axis.
fn data_pixel_coord(output: &OutputBitSource, scan: ScanDirection) -> (r: Option<i32>)
    ensures
        r == data_pixel_coord_spec(*output, scan),
{
    match output {
        OutputBitSource::Pixel { x, y } => match scan {
            ScanDirection::Row => match (x, y) {
                (CoordinateExpr::Constant(cx), CoordinateExpr::AddressedY) => Some(*cx),
                _ => None,
            },
            ScanDirection::Column => match (x, y) {
                (CoordinateExpr::AddressedX, CoordinateExpr::Constant(cy)) => Some(*cy),
                _ => None,
            },
        },
        _ => None,
    }
}

proof fn lemma_selected_codes_step(set: GlyphSet, pages: Seq<PageId>, p: int)
    requires
        0 <= p < pages.len(),
    ensures
        selected_codes(set, pages.take(p + 1)) == selected_codes(set, pages.take(p)) + match first_index(
            set.page_ids(),
            pages[p],
        ) {
            Some(pi) => set.pages@[pi].codes(),
            None => Seq::<u32>::empty(),
        },
{
    assert(pages.take(p + 1).drop_last() =~= pages.take(p));
}

/// The first drawn code on the selected pages that exceeds `max_code`.
fn first_unaddressable(source: &GlyphSet, pages: &Vec<PageId>, max_code: u64) -> (r: Option<u32>)
    ensures
        ({
            let codes = selected_codes(*source, pages@);
            r == match first_where(codes.len() as int, |k: int| codes[k] > max_code) {
                Some(k) => Some(codes[k]),
                None => None::<u32>,
            }
        }),
{
    let ghost all = selected_codes(*source, pages@);
    let ghost pred = |k: int| all[k] > max_code;
    let mut p: usize = 0;
    while p < pages.len()
        invariant
            p <= pages@.len(),
            all == selected_codes(*source, pages@),
            pred == |k: int| all[k] > max_code,
            selected_codes(*source, pages@.take(p as int)).len() <= all.len(),
            all.subrange(0, selected_codes(*source, pages@.take(p as int)).len() as int)
                == selected_codes(*source, pages@.take(p as int)),
            forall|k: int| 0 <= k < selected_codes(*source, pages@.take(p as int)).len() ==> !#[trigger] pred(k),
        decreases pages@.len() - p,
    {
        let ghost prefix = selected_codes(*source, pages@.take(p as int));
        proof {
            lemma_selected_codes_step(*source, pages@, p as int);
            lemma_selected_codes_prefix(*source, pages@, (p + 1) as int);
            lemma_first_index_props(source.page_ids(), pages@[p as int]);
        }
        match source.page_by_id(pages[p]) {
            Some(page) => {
                let mut g: usize = 0;
                while g < page.glyphs.len()
                    invariant
                        g <= page.glyphs@.len(),
                        all == selected_codes(*source, pages@),
                        pred == |k: int| all[k] > max_code,
                        prefix + page.codes() == selected_codes(*source, pages@.take(p + 1)),
                        all.subrange(0, (prefix + page.codes()).len() as int) == prefix + page.codes(),
                        (prefix + page.codes()).len() <= all.len(),
                        forall|k: int| 0 <= k < prefix.len() + g ==> !#[trigger] pred(k),
                    decreases page.glyphs@.len() - g,
                {
                    let code = page.glyphs[g].code;
                    proof {
                        assert(all[prefix.len() + g] == (prefix + page.codes())[prefix.len() + g]);
                    }
                    if code as u64 > max_code {
                        proof {
                            crate::search::lemma_first_where_is(all.len() as int, pred, prefix.len() + g);
                        }
                        return Some(code);
                    }
                    g = g + 1;
                }
            },
            None => {},
        }
        p = p + 1;
    }
    proof {
        assert(pages@.take(pages@.len() as int) =~= pages@);
        crate::search::lemma_first_where_none(all.len() as int, pred);
    }
    None
}

proof fn lemma_selected_codes_prefix(set: GlyphSet, pages: Seq<PageId>, p: int)
    requires
        0 <= p <= pages.len(),
    ensures
        selected_codes(set, pages.take(p)).len() <= selected_codes(set, pages).len(),
        selected_codes(set, pages).subrange(0, selected_codes(set, pages.take(p)).len() as int)
            == selected_codes(set, pages.take(p)),
    decreases pages.len() - p,
{
    if p == pages.len() {
        assert(pages.take(p) =~= pages);
        assert(selected_codes(set, pages).subrange(0, selected_codes(set, pages).len() as int)
            =~= selected_codes(set, pages));
    } else {
        lemma_selected_codes_prefix(set, pages, p + 1);
        lemma_selected_codes_step(set, pages, p);
        let a = selected_codes(set, pages.take(p));
        let b = selected_codes(set, pages.take(p + 1));
        let all = selected_codes(set, pages);
        assert(all.subrange(0, a.len() as int) =~= b.subrange(0, a.len() as int));
        assert(b.subrange(0, a.len() as int) =~= a);
    }
}


/// The address-map part of validation: every line plain, exactly one pixel axis,
/// pages selected, each dimension's bits exactly `0..N`, and enough page and pixel
/// bits. On success, the scanned axis and the number of code bits.
fn validate_address(source: &GlyphSet, config: &ExportConfig, limits: &Limits) -> (r: Result<(ScanDirection, u32), ExportError>)
    requires
        config.address_map.address_bits@.len() <= 32,
    ensures
        match address_check(*source, *config) {
            None => r == Ok::<(ScanDirection, u32), ExportError>(
                (scan_spec(*config), dim_bits(config.address_map.address_bits@, Dimension::Code).len() as u32),
            ),
            Some(check) => (r matches Err(e) && error_agrees(e, check, *source, *config, *limits)),
        },
{
    let name = config.name.clone();
    let ghost bits = config.address_map.address_bits@;
    let (code_ns, page_ns, x_ns, y_ns) = match classify_lines(&config.address_map.address_bits) {
        Err(line) => {
            return Err(
                ExportError::NotStrictOneToOne {
                    config: name,
                    reason: OneToOneViolation::ConstantOrInvertedAddressLine { line },
                },
            );
        },
        Ok(t) => t,
    };
    proof {
        lemma_dim_bits_len(bits, Dimension::Code);
        lemma_dim_bits_len(bits, Dimension::Page);
        lemma_dim_bits_len(bits, Dimension::PixelX);
        lemma_dim_bits_len(bits, Dimension::PixelY);
    }
    if x_ns.len() == 0 && y_ns.len() == 0 {
        return Err(ExportError::NotStrictOneToOne { config: name, reason: OneToOneViolation::NoPixelDimension });
    }
    if x_ns.len() != 0 && y_ns.len() != 0 {
        return Err(ExportError::NotStrictOneToOne { config: name, reason: OneToOneViolation::BothPixelDimensions });
    }
    let scan = if x_ns.len() == 0 {
        ScanDirection::Row
    } else {
        ScanDirection::Column
    };
    if config.source.pages.len() == 0 {
        return Err(ExportError::NotStrictOneToOne { config: name, reason: OneToOneViolation::NoSourcePages });
    }
    let code_bits = match partition(&code_ns) {
        Ok(n) => n,
        Err(found) => {
            return Err(
                ExportError::NotStrictOneToOne {
                    config: name,
                    reason: OneToOneViolation::NonContiguousBits { dimension: "code", found },
                },
            );
        },
    };
    let page_bits = match partition(&page_ns) {
        Ok(n) => n,
        Err(found) => {
            return Err(
                ExportError::NotStrictOneToOne {
                    config: name,
                    reason: OneToOneViolation::NonContiguousBits { dimension: "page", found },
                },
            );
        },
    };
    let pages = config.source.pages.len();
    if pow2_u64(page_bits) < pages as u64 {
        return Err(
            ExportError::NotStrictOneToOne {
                config: name,
                reason: OneToOneViolation::TooFewPageBits { page_bits, pages },
            },
        );
    }
    let size = source.glyph_size;
    let (pixel_ns, pixel_axis, addressed_extent) = match scan {
        ScanDirection::Row => (&y_ns, "pixel_y", size.height),
        ScanDirection::Column => (&x_ns, "pixel_x", size.width),
    };
    let pixel_bits = match partition(pixel_ns) {
        Ok(n) => n,
        Err(found) => {
            return Err(
                ExportError::NotStrictOneToOne {
                    config: name,
                    reason: OneToOneViolation::NonContiguousBits { dimension: pixel_axis, found },
                },
            );
        },
    };
    if pow2_u64(pixel_bits) < addressed_extent as u64 {
        return Err(
            ExportError::NotStrictOneToOne {
                config: name,
                reason: OneToOneViolation::TooFewPixelBits {
                    dimension: pixel_axis,
                    pixel_bits,
                    extent: addressed_extent,
                },
            },
        );
    }
    Ok((scan, code_bits))
}

/// The data-map part of validation, for a config whose address map passed: one data
/// bit per pixel of the other axis, together a permutation, and every drawn code on
/// the selected pages addressable with `code_bits` bits.
#[verifier::rlimit(50)]
#[verifier::spinoff_prover]
fn validate_data(
    source: &GlyphSet,
    config: &ExportConfig,
    limits: &Limits,
    scan: ScanDirection,
    code_bits: u32,
) -> (r: Result<(), ExportError>)
    requires
        config.address_map.address_bits@.len() <= 32,
        scan == scan_spec(*config),
        code_bits == dim_bits(config.address_map.address_bits@, Dimension::Code).len(),
    ensures
        match data_check(*source, *config) {
            None => r is Ok,
            Some(check) => (r matches Err(e) && error_agrees(e, check, *source, *config, *limits)),
        },
{
    proof {
        lemma_dim_bits_len(config.address_map.address_bits@, Dimension::Code);
    }
    let name = config.name.clone();
    let data_extent = match scan {
        ScanDirection::Row => source.glyph_size.width,
        ScanDirection::Column => source.glyph_size.height,
    };
    let data_bits = config.data_map.output_bits.len();
    if data_bits != data_extent as usize {
        let (axis, scan_name) = match scan {
            ScanDirection::Row => ("wide", "row"),
            ScanDirection::Column => ("tall", "column"),
        };
        return Err(
            ExportError::DataWidthMismatch {
                config: name,
                data_bits,
                extent: data_extent,
                axis,
                scan: scan_name,
            },
        );
    }
    match check_data_bits(&config.data_map.output_bits, scan, data_extent) {
        Err(reason) => {
            return Err(ExportError::NotStrictOneToOne { config: name, reason });
        },
        Ok(()) => {},
    }
    let max_code = pow2_u64(code_bits) - 1;
    let ghost codes = selected_codes(*source, config.source.pages@);
    assert((|k: int| codes[k] > max_code) =~= (|k: int| codes[k] > pow2(code_bits as nat) - 1));
    match first_unaddressable(source, &config.source.pages, max_code) {
        Some(code) => {
            return Err(
                ExportError::CodeNotAddressable { config: name, code, code_bits, max: max_code as u32 },
            );
        },
        None => {},
    }
    Ok(())
}

/// Validates that `config` is a strict 1:1 ROM export of `source` and returns its
/// shape. Checks, in order: the output format is supported; the address width and
/// image size are within `limits`; every address line is a plain dimension bit;
/// exactly one pixel axis is addressed; pages are selected; each dimension's bits are
/// exactly `0..N`; there are enough page and pixel bits; the data map is a
/// permutation of the other axis of the right width; and every drawn code is
/// addressable.
pub fn validate_export(source: &GlyphSet, config: &ExportConfig, limits: &Limits) -> (r: Result<ExportSummary, ExportError>)
    ensures
        match export_check(*source, *config, *limits) {
            None => r == Ok::<ExportSummary, ExportError>(summary_spec(*source, *config)),
            Some(check) => (r matches Err(e) && error_agrees(e, check, *source, *config, *limits)),
        },
{
    match &config.output_format {
        OutputFormatConfig::Unsupported { name: format_name } => {
            return Err(
                ExportError::UnsupportedOutputFormat { config: config.name.clone(), name: format_name.clone() },
            );
        },
        OutputFormatConfig::RawBinary => {},
    }
    let address_bits = config.address_map.address_bits.len();
    if address_bits > limits.max_export_address_width as usize || address_bits > 32 {
        let max = if limits.max_export_address_width <= 32 {
            limits.max_export_address_width
        } else {
            32
        };
        return Err(ExportError::AddressTooWide { config: config.name.clone(), address_bits, max });
    }
    let words = pow2_u64(address_bits as u32);
    if words > limits.max_output_image_pixels {
        return Err(
            ExportError::ImageTooLarge {
                config: config.name.clone(),
                words,
                max: limits.max_output_image_pixels,
            },
        );
    }
    proof {
        lemma_dim_bits_len(config.address_map.address_bits@, Dimension::Code);
    }
    let (scan, code_bits) = match validate_address(source, config, limits) {
        Ok(shape) => shape,
        Err(e) => {
            return Err(e);
        },
    };
    match validate_data(source, config, limits, scan, code_bits) {
        Ok(()) => {},
        Err(e) => {
            return Err(e);
        },
    }
    let data_bits = config.data_map.output_bits.len();
    let per_word: u64 = if data_bits == 0 {
        1
    } else {
        ((data_bits + 7) / 8) as u64
    };
    assert(words * per_word <= 0x1_0000_0000u64 * 0x2000u64) by (nonlinear_arith)
        requires
            words <= 0x1_0000_0000u64,
            per_word <= 0x2000u64,
    ;
    Ok(
        ExportSummary {
            scan,
            glyph_width: source.glyph_size.width,
            glyph_height: source.glyph_size.height,
            data_bits,
            code_bits,
            codes: pow2_u64(code_bits),
            pages: config.source.pages.len(),
            output_bytes: words * per_word,
        },
    )
}


// ---- standard configs ----

/// The number of address bits needed to index `count` values: `ceil(log2(count))`,
/// and `0` for zero or one value.
pub open spec fn address_bits_for(count: nat) -> nat
    decreases count,
{
    if count <= 1 {
        0
    } else {
        1 + address_bits_for(count / 2 + count % 2)
    }
}

pub(crate) proof fn lemma_address_bits_for(count: nat)
    ensures
        count > 1 ==> pow2((address_bits_for(count) - 1) as nat) < count <= pow2(address_bits_for(count)),
        count <= 1 ==> address_bits_for(count) == 0,
    decreases count,
{
    if count > 1 {
        let h = count / 2 + count % 2;
        lemma_address_bits_for(h);
        let b = address_bits_for(h);
        vstd::arithmetic::power2::lemma_pow2_unfold(b + 1);
        if h > 1 {
            vstd::arithmetic::power2::lemma_pow2_unfold(b);
        } else {
            lemma2_to64();
        }
    }
}

pub(crate) proof fn lemma_address_bits_for_bound(count: nat, k: nat)
    requires
        count <= pow2(k),
    ensures
        address_bits_for(count) <= k,
{
    lemma_address_bits_for(count);
    let b = address_bits_for(count);
    if b > k {
        if k < (b - 1) as nat {
            lemma_pow2_strictly_increases(k, (b - 1) as nat);
        }
    }
}

/// The number of address bits needed to index `count` values (`0` for 0 or 1):
/// the least `b` with `count <= 2^b`.
pub fn bits_for(count: u32) -> (r: u32)
    ensures
        r == address_bits_for(count as nat),
        r <= 32,
        count <= 1 ==> r == 0,
        count > 1 ==> pow2((r - 1) as nat) < count <= pow2(r as nat),
    decreases count,
{
    proof {
        lemma_address_bits_for(count as nat);
        lemma2_to64();
        lemma_address_bits_for_bound(count as nat, 32);
    }
    if count <= 1 {
        0
    } else {
        1 + bits_for(count / 2 + count % 2)
    }
}

/// The address lines of a standard preset, low to high: `axis_bits` lines of the
/// scanned pixel axis (`PixelXBit` for a column scan, `PixelYBit` for a row scan),
/// then `code_bits` code lines, then `page_bits` page lines.
pub open spec fn preset_address_bits(column: bool, axis_bits: nat, code_bits: nat, page_bits: nat) -> Seq<AddressBitSource> {
    Seq::new(
        axis_bits + code_bits + page_bits,
        |i: int|
            if i < axis_bits {
                if column {
                    AddressBitSource::PixelXBit(i as u8)
                } else {
                    AddressBitSource::PixelYBit(i as u8)
                }
            } else if i < axis_bits + code_bits {
                AddressBitSource::CodeBit((i - axis_bits) as u8)
            } else {
                AddressBitSource::PageBit((i - axis_bits - code_bits) as u8)
            },
    )
}

/// The data bits of the row-scan preset: `Di` emits column `width-1-i` of the
/// addressed row, so the leftmost pixel is the most significant bit.
pub open spec fn row_scan_outputs(width: nat) -> Seq<OutputBitSource> {
    Seq::new(
        width,
        |i: int|
            OutputBitSource::Pixel {
                x: CoordinateExpr::Constant((width - 1 - i) as i32),
                y: CoordinateExpr::AddressedY,
            },
    )
}

/// The data bits of the column-scan preset: `Di` emits row `height-1-i` of the
/// addressed column, so the top pixel is the most significant bit.
pub open spec fn column_scan_outputs(height: nat) -> Seq<OutputBitSource> {
    Seq::new(
        height,
        |i: int|
            OutputBitSource::Pixel {
                x: CoordinateExpr::AddressedX,
                y: CoordinateExpr::Constant((height - 1 - i) as i32),
            },
    )
}

/// Appends `count` address lines to `bits`, line `n` being `line(n)` for the
/// preset's kind: 0 pixel x, 1 pixel y, 2 code, 3 page.
fn push_lines(bits: &mut Vec<AddressBitSource>, kind: u8, count: u32)
    requires
        kind < 4,
        count <= 256,
    ensures
        final(bits)@.len() == old(bits)@.len() + count,
        forall|i: int| 0 <= i < old(bits)@.len() ==> final(bits)@[i] == old(bits)@[i],
        forall|n: int|
            0 <= n < count ==> #[trigger] final(bits)@[old(bits)@.len() + n] == if kind == 0 {
                AddressBitSource::PixelXBit(n as u8)
            } else if kind == 1 {
                AddressBitSource::PixelYBit(n as u8)
            } else if kind == 2 {
                AddressBitSource::CodeBit(n as u8)
            } else {
                AddressBitSource::PageBit(n as u8)
            },
{
    let ghost start = bits@.len();
    let mut n: u32 = 0;
    while n < count
        invariant
            n <= count <= 256,
            kind < 4,
            bits@.len() == start + n,
            start == old(bits)@.len(),
            forall|i: int| 0 <= i < start ==> bits@[i] == old(bits)@[i],
            forall|m: int|
                0 <= m < n ==> #[trigger] bits@[start + m] == if kind == 0 {
                    AddressBitSource::PixelXBit(m as u8)
                } else if kind == 1 {
                    AddressBitSource::PixelYBit(m as u8)
                } else if kind == 2 {
                    AddressBitSource::CodeBit(m as u8)
                } else {
                    AddressBitSource::PageBit(m as u8)
                },
        decreases count - n,
    {
        let line = n as u8;
        let b = if kind == 0 {
            AddressBitSource::PixelXBit(line)
        } else if kind == 1 {
            AddressBitSource::PixelYBit(line)
        } else if kind == 2 {
            AddressBitSource::CodeBit(line)
        } else {
            AddressBitSource::PageBit(line)
        };
        bits.push(b);
        n = n + 1;
    }
}

/// The address lines of a preset, built as [`preset_address_bits`] describes.
fn preset_lines(column: bool, axis_bits: u32, code_bits: u8, page_bits: u32) -> (r: Vec<AddressBitSource>)
    requires
        axis_bits <= 32,
        page_bits <= 32,
    ensures
        r@ == preset_address_bits(column, axis_bits as nat, code_bits as nat, page_bits as nat),
{
    let mut bits: Vec<AddressBitSource> = Vec::new();
    push_lines(&mut bits, if column { 0 } else { 1 }, axis_bits);
    push_lines(&mut bits, 2, code_bits as u32);
    push_lines(&mut bits, 3, page_bits);
    proof {
        let want = preset_address_bits(column, axis_bits as nat, code_bits as nat, page_bits as nat);
        assert forall|i: int| 0 <= i < bits@.len() implies bits@[i] == want[i] by {
            if i < axis_bits {
                assert(bits@[0 + i] == want[i]);
            } else if i < axis_bits + code_bits {
                assert(bits@[axis_bits + (i - axis_bits)] == want[i]);
            } else {
                assert(bits@[(axis_bits + code_bits) + (i - axis_bits - code_bits)] == want[i]);
            }
        }
        assert(bits@ =~= want);
    }
    bits
}

/// Builds the standard row-scan text-ROM config: the row (`pixel_y`) and enough
/// code and page bits go in the address (low to high: row, code, page), and data bit
/// `Di` emits pixel `x = width-1-i` of the addressed row, so the leftmost pixel is
/// the most significant data bit. `code_bits` sets the addressable code range; the
/// page bits are sized to `pages`.
pub fn row_scan_config<G: IdGen>(
    ids: &mut G,
    name: &str,
    glyph_set: &GlyphSet,
    pages: Vec<PageId>,
    code_bits: u8,
) -> (r: ExportConfig)
    ensures
        r.name@ == name@,
        r.description@ == Seq::<char>::empty(),
        r.source.glyph_set_id == glyph_set.id,
        r.source.pages@ == pages@,
        r.address_map.name@ == "row-scan address"@,
        r.address_map.address_bits@ == preset_address_bits(
            false,
            address_bits_for(glyph_set.glyph_size.height as nat),
            code_bits as nat,
            address_bits_for(pages@.len() as u32 as nat),
        ),
        r.data_map.name@ == "row-scan data"@,
        r.data_map.output_bits@ == row_scan_outputs(glyph_set.glyph_size.width as nat),
        r.output_format == OutputFormatConfig::RawBinary,
        r.output_address_bits is None,
        r.fill_byte == DEFAULT_FILL_BYTE,
        mints_all(*old(ids), *final(ids), seq![r.id.0, r.address_map.id.0, r.data_map.id.0]),
{
    let size = glyph_set.glyph_size;
    let y_bits = bits_for(size.height as u32);
    let page_bits = bits_for(pages.len() as u32);
    let address_bits = preset_lines(false, y_bits, code_bits, page_bits);
    let mut output_bits: Vec<OutputBitSource> = Vec::new();
    let mut i: u16 = 0;
    while i < size.width
        invariant
            i <= size.width,
            output_bits@ == row_scan_outputs(size.width as nat).take(i as int),
        decreases size.width - i,
    {
        output_bits.push(
            OutputBitSource::Pixel {
                x: CoordinateExpr::Constant((size.width - 1 - i) as i32),
                y: CoordinateExpr::AddressedY,
            },
        );
        proof {
            assert(output_bits@ =~= row_scan_outputs(size.width as nat).take(i + 1));
        }
        i = i + 1;
    }
    proof {
        assert(row_scan_outputs(size.width as nat).take(size.width as int) =~= row_scan_outputs(size.width as nat));
    }
    let ghost g0 = *ids;
    let id = ExportConfigId::new(ids);
    let ghost g1 = *ids;
    let address_id = ExportComponentId::new(ids);
    let ghost g2 = *ids;
    let data_id = ExportComponentId::new(ids);
    proof {
        lemma_mints_none(g0);
        lemma_mints_step(g0, g0, g1, Seq::empty(), id.0);
        assert(Seq::<u128>::empty().push(id.0) =~= seq![id.0]);
        lemma_mints_step(g0, g1, g2, seq![id.0], address_id.0);
        assert(seq![id.0].push(address_id.0) =~= seq![id.0, address_id.0]);
        lemma_mints_step(g0, g2, *ids, seq![id.0, address_id.0], data_id.0);
        assert(seq![id.0, address_id.0].push(data_id.0) =~= seq![id.0, address_id.0, data_id.0]);
    }
    ExportConfig {
        id,
        name: name.to_owned(),
        description: String::new(),
        source: ExportSourceSpec { glyph_set_id: glyph_set.id, pages },
        address_map: AddressMap { id: address_id, name: "row-scan address".to_owned(), address_bits },
        data_map: DataMap { id: data_id, name: "row-scan data".to_owned(), output_bits },
        output_format: OutputFormatConfig::RawBinary,
        output_address_bits: None,
        fill_byte: DEFAULT_FILL_BYTE,
    }
}

/// Builds the standard column-scan ROM config: the column (`pixel_x`) and enough
/// code and page bits go in the address (low to high: column, code, page), and data
/// bit `Di` emits row `y = height-1-i` of the addressed column, so the top pixel is
/// the most significant data bit.
pub fn column_scan_config<G: IdGen>(
    ids: &mut G,
    name: &str,
    glyph_set: &GlyphSet,
    pages: Vec<PageId>,
    code_bits: u8,
) -> (r: ExportConfig)
    ensures
        r.name@ == name@,
        r.description@ == Seq::<char>::empty(),
        r.source.glyph_set_id == glyph_set.id,
        r.source.pages@ == pages@,
        r.address_map.name@ == "column-scan address"@,
        r.address_map.address_bits@ == preset_address_bits(
            true,
            address_bits_for(glyph_set.glyph_size.width as nat),
            code_bits as nat,
            address_bits_for(pages@.len() as u32 as nat),
        ),
        r.data_map.name@ == "column-scan data"@,
        r.data_map.output_bits@ == column_scan_outputs(glyph_set.glyph_size.height as nat),
        r.output_format == OutputFormatConfig::RawBinary,
        r.output_address_bits is None,
        r.fill_byte == DEFAULT_FILL_BYTE,
        mints_all(*old(ids), *final(ids), seq![r.id.0, r.address_map.id.0, r.data_map.id.0]),
{
    let size = glyph_set.glyph_size;
    let x_bits = bits_for(size.width as u32);
    let page_bits = bits_for(pages.len() as u32);
    let address_bits = preset_lines(true, x_bits, code_bits, page_bits);
    let mut output_bits: Vec<OutputBitSource> = Vec::new();
    let mut i: u16 = 0;
    while i < size.height
        invariant
            i <= size.height,
            output_bits@ == column_scan_outputs(size.height as nat).take(i as int),
        decreases size.height - i,
    {
        output_bits.push(
            OutputBitSource::Pixel {
                x: CoordinateExpr::AddressedX,
                y: CoordinateExpr::Constant((size.height - 1 - i) as i32),
            },
        );
        proof {
            assert(output_bits@ =~= column_scan_outputs(size.height as nat).take(i + 1));
        }
        i = i + 1;
    }
    proof {
        assert(column_scan_outputs(size.height as nat).take(size.height as int) =~= column_scan_outputs(size.height as nat));
    }
    let ghost g0 = *ids;
    let id = ExportConfigId::new(ids);
    let ghost g1 = *ids;
    let address_id = ExportComponentId::new(ids);
    let ghost g2 = *ids;
    let data_id = ExportComponentId::new(ids);
    proof {
        lemma_mints_none(g0);
        lemma_mints_step(g0, g0, g1, Seq::empty(), id.0);
        assert(Seq::<u128>::empty().push(id.0) =~= seq![id.0]);
        lemma_mints_step(g0, g1, g2, seq![id.0], address_id.0);
        assert(seq![id.0].push(address_id.0) =~= seq![id.0, address_id.0]);
        lemma_mints_step(g0, g2, *ids, seq![id.0, address_id.0], data_id.0);
        assert(seq![id.0, address_id.0].push(data_id.0) =~= seq![id.0, address_id.0, data_id.0]);
    }
    ExportConfig {
        id,
        name: name.to_owned(),
        description: String::new(),
        source: ExportSourceSpec { glyph_set_id: glyph_set.id, pages },
        address_map: AddressMap { id: address_id, name: "column-scan address".to_owned(), address_bits },
        data_map: DataMap { id: data_id, name: "column-scan data".to_owned(), output_bits },
        output_format: OutputFormatConfig::RawBinary,
        output_address_bits: None,
        fill_byte: DEFAULT_FILL_BYTE,
    }
}

/// The report states the scanned geometry: a row scan reports the glyph width as
/// the pixels per row and the glyph height as the rows per glyph; a column scan
/// reports the glyph height as the pixels per column and the glyph width as the
/// columns per glyph.
pub proof fn law_summary_reports_scanned_geometry(s: ExportSummary)
    ensures
        s.scan == ScanDirection::Row ==> summary_text(s) == "Valid 1:1 export\n"@ + decimal(s.glyph_width as nat)
            + " glyph pixels per "@ + "row"@ + "\n"@ + decimal(s.data_bits as nat) + " ROM data bits\n"@ + decimal(
            s.glyph_height as nat,
        ) + " "@ + "row"@ + "s per glyph\n"@ + decimal(s.codes as nat) + " codes ("@ + decimal(s.code_bits as nat)
            + " code bits)\n"@ + decimal(s.pages as nat) + " pages\n"@ + decimal(s.output_bytes as nat)
            + " output bytes"@,
        s.scan == ScanDirection::Column ==> summary_text(s) == "Valid 1:1 export\n"@ + decimal(
            s.glyph_height as nat,
        ) + " glyph pixels per "@ + "column"@ + "\n"@ + decimal(s.data_bits as nat) + " ROM data bits\n"@ + decimal(
            s.glyph_width as nat,
        ) + " "@ + "column"@ + "s per glyph\n"@ + decimal(s.codes as nat) + " codes ("@ + decimal(
            s.code_bits as nat,
        ) + " code bits)\n"@ + decimal(s.pages as nat) + " pages\n"@ + decimal(s.output_bytes as nat)
            + " output bytes"@,
{
}

/// For a config that validation accepts, the pixels per scanned line the report
/// states are its ROM data bits: the glyph width for a row scan, the glyph height
/// for a column scan, and the report's first count is that number.
pub proof fn law_validated_report_counts_a_line_per_word(source: GlyphSet, config: ExportConfig, limits: Limits)
    requires
        export_check(source, config, limits) is None,
    ensures
        ({
            let s = summary_spec(source, config);
            let per_line = if s.scan == ScanDirection::Row {
                source.glyph_size.width
            } else {
                source.glyph_size.height
            };
            let (line, lines) = if s.scan == ScanDirection::Row {
                ("row"@, source.glyph_size.height)
            } else {
                ("column"@, source.glyph_size.width)
            };
            &&& s.data_bits == per_line
            &&& summary_text(s) == "Valid 1:1 export\n"@ + decimal(s.data_bits as nat) + " glyph pixels per "@
                + line + "\n"@ + decimal(s.data_bits as nat) + " ROM data bits\n"@ + decimal(lines as nat) + " "@
                + line + "s per glyph\n"@ + decimal(s.codes as nat) + " codes ("@ + decimal(s.code_bits as nat)
                + " code bits)\n"@ + decimal(s.pages as nat) + " pages\n"@ + decimal(s.output_bytes as nat)
                + " output bytes"@
        }),
{
    lemma_validated_shape(source, config, limits);
    law_summary_reports_scanned_geometry(summary_spec(source, config));
}

} // verus!
