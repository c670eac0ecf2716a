//! Export configuration: a named specification for producing a ROM image from a
//! glyph set by addressing it by character `code`.

use vstd::prelude::*;

use crate::ids::{ExportComponentId, ExportConfigId, GlyphSetId, PageId};

verus! {

/// A named specification for producing a ROM/programmer image from a glyph set.
#[derive(Debug, Clone, PartialEq, Eq)]
pub struct ExportConfig {
    pub id: ExportConfigId,
    pub name: String,
    pub description: String,
    /// Which glyph set and page sequence the ROM is generated from.
    pub source: ExportSourceSpec,
    /// The meaning of each ROM address bit.
    pub address_map: AddressMap,
    /// What each ROM output (data) bit emits.
    pub data_map: DataMap,
    /// The programmer-file encoding.
    pub output_format: OutputFormatConfig,
    /// The target size as an address width: the image is padded with `fill_byte`
    /// up to `2^bits` bytes; `None` for the natural image size.
    pub output_address_bits: Option<u8>,
    /// The byte that pads the image up to the target size.
    pub fill_byte: u8,
}

/// One glyph set and the ordered pages that page bits index (`pages[n]` is page `n`).
#[derive(Debug, Clone, PartialEq, Eq)]
pub struct ExportSourceSpec {
    pub glyph_set_id: GlyphSetId,
    pub pages: Vec<PageId>,
}

/// `address_bits[i]` describes address line `Ai`.
#[derive(Debug, Clone, PartialEq, Eq)]
pub struct AddressMap {
    pub id: ExportComponentId,
    pub name: String,
    pub address_bits: Vec<AddressBitSource>,
}

/// What drives one ROM address line.
#[derive(Debug, PartialEq, Eq)]
pub enum AddressBitSource {
    /// A fixed 0/1 line.
    Constant(bool),
    /// Bit `n` of the character `code`.
    CodeBit(u8),
    /// Bit `n` of the page index into the source pages.
    PageBit(u8),
    /// Bit `n` of the addressed pixel column.
    PixelXBit(u8),
    /// Bit `n` of the addressed pixel row.
    PixelYBit(u8),
    /// The inverse of the wrapped line.
    Inverted(Box<AddressBitSource>),
}

/// `output_bits[i]` describes data bit `Di`.
#[derive(Debug, Clone, PartialEq, Eq)]
pub struct DataMap {
    pub id: ExportComponentId,
    pub name: String,
    pub output_bits: Vec<OutputBitSource>,
}

/// What one ROM data bit emits.
#[derive(Debug, PartialEq, Eq)]
pub enum OutputBitSource {
    /// A fixed 0/1 bit.
    Constant(bool),
    /// A glyph pixel, its coordinates resolved against the addressed row/column; an
    /// out-of-glyph coordinate reads off.
    Pixel { x: CoordinateExpr, y: CoordinateExpr },
    /// The inverse of the wrapped bit.
    Inverted(Box<OutputBitSource>),
}

impl AddressBitSource {
    /// A structurally equal copy.
    pub fn duplicate(&self) -> (r: Self)
        ensures
            r == *self,
        decreases self,
    {
        match self {
            AddressBitSource::Constant(v) => AddressBitSource::Constant(*v),
            AddressBitSource::CodeBit(n) => AddressBitSource::CodeBit(*n),
            AddressBitSource::PageBit(n) => AddressBitSource::PageBit(*n),
            AddressBitSource::PixelXBit(n) => AddressBitSource::PixelXBit(*n),
            AddressBitSource::PixelYBit(n) => AddressBitSource::PixelYBit(*n),
            AddressBitSource::Inverted(inner) => AddressBitSource::Inverted(Box::new(inner.duplicate())),
        }
    }
}

impl Clone for AddressBitSource {
    fn clone(&self) -> (r: Self)
        ensures
            r == *self,
    {
        self.duplicate()
    }
}

impl OutputBitSource {
    /// A structurally equal copy.
    pub fn duplicate(&self) -> (r: Self)
        ensures
            r == *self,
        decreases self,
    {
        match self {
            OutputBitSource::Constant(v) => OutputBitSource::Constant(*v),
            OutputBitSource::Pixel { x, y } => OutputBitSource::Pixel { x: *x, y: *y },
            OutputBitSource::Inverted(inner) => OutputBitSource::Inverted(Box::new(inner.duplicate())),
        }
    }
}

impl Clone for OutputBitSource {
    fn clone(&self) -> (r: Self)
        ensures
            r == *self,
    {
        self.duplicate()
    }
}

/// A pixel-coordinate expression for a data bit, resolved per address.
#[derive(Debug, Clone, Copy, PartialEq, Eq, Structural)]
pub enum CoordinateExpr {
    Constant(i32),
    AddressedX,
    AddressedY,
    AddressedXPlus(i32),
    AddressedYPlus(i32),
}

/// The programmer-file encoding; only `RawBinary` is implemented.
#[derive(Debug, Clone, PartialEq, Eq)]
pub enum OutputFormatConfig {
    /// A dense little-endian raw image.
    RawBinary,
    /// A named format not yet implemented.
    Unsupported { name: String },
}

} // verus!
