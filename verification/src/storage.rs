//! The persisted storage schema: explicit `Stored*` types, distinct from the
//! runtime domain types. Field declaration order is the on-disk field order. Ids are
//! UUID strings, codes are `0x` hex strings and bitmaps are visual rows.

use vstd::prelude::*;

verus! {

/// A whole document, format version 1.
#[derive(Debug, PartialEq, Eq)]
pub struct StoredFontSpaceV1 {
    pub format_version: u32,
    pub id: String,
    pub metadata: StoredMetadata,
    pub character_sets: Vec<StoredCharacterSet>,
    pub glyph_sets: Vec<StoredGlyphSet>,
    pub export_configs: Vec<StoredExportConfig>,
}

#[derive(Debug, PartialEq, Eq)]
pub struct StoredMetadata {
    pub name: String,
    pub description: String,
}

#[derive(Debug, PartialEq, Eq)]
pub struct StoredCharacterSet {
    pub id: String,
    pub name: String,
    pub description: String,
    pub entries: Vec<StoredCharacterEntry>,
}

#[derive(Debug, PartialEq, Eq)]
pub struct StoredCharacterEntry {
    pub code: String,
    pub label: String,
}

#[derive(Debug, PartialEq, Eq)]
pub struct StoredGlyphSet {
    pub id: String,
    pub name: String,
    pub description: String,
    pub glyph_size: StoredGlyphSize,
    pub character_set_id: String,
    pub pages: Vec<StoredGlyphPage>,
}

#[derive(Debug, Clone, Copy, PartialEq, Eq, Structural)]
pub struct StoredGlyphSize {
    pub width: u16,
    pub height: u16,
}

#[derive(Debug, PartialEq, Eq)]
pub struct StoredGlyphPage {
    pub id: String,
    pub name: String,
    pub description: String,
    pub guides: Vec<StoredGuide>,
    pub glyphs: Vec<StoredGlyph>,
}

#[derive(Debug, Clone, Copy, PartialEq, Eq, Structural)]
pub enum StoredAxis {
    Horizontal,
    Vertical,
}

#[derive(Debug, PartialEq, Eq)]
pub struct StoredGuide {
    pub id: String,
    pub name: String,
    pub axis: StoredAxis,
    pub position: i32,
    pub visible: bool,
    pub locked: bool,
}

#[derive(Debug, PartialEq, Eq)]
pub struct StoredGlyph {
    pub code: String,
    pub pixels: Vec<String>,
}

/// A persisted export config: the source binding, the address and data maps, the
/// output format, the padded output size (as address bits, absent for the natural
/// size) and the padding byte.
#[derive(Debug, PartialEq, Eq)]
pub struct StoredExportConfig {
    pub id: String,
    pub name: String,
    pub description: String,
    pub source: StoredExportSource,
    pub address_map: StoredAddressMap,
    pub data_map: StoredDataMap,
    pub output_format: StoredOutputFormat,
    pub output_address_bits: Option<u8>,
    pub fill_byte: u8,
}

/// The padding byte of an export config written without one: an erased EEPROM's
/// `0xFF`.
pub const DEFAULT_FILL_BYTE: u8 = 0xFF;

#[derive(Debug, PartialEq, Eq)]
pub struct StoredExportSource {
    pub glyph_set_id: String,
    pub pages: Vec<String>,
}

#[derive(Debug, PartialEq, Eq)]
pub struct StoredAddressMap {
    pub id: String,
    pub name: String,
    pub address_bits: Vec<StoredAddressBit>,
}

/// One address line's source.
#[derive(Debug, PartialEq, Eq)]
pub enum StoredAddressBit {
    Constant(bool),
    Code(u8),
    Page(u8),
    PixelX(u8),
    PixelY(u8),
    Inverted(Box<StoredAddressBit>),
}

#[derive(Debug, PartialEq, Eq)]
pub struct StoredDataMap {
    pub id: String,
    pub name: String,
    pub output_bits: Vec<StoredOutputBit>,
}

/// One data bit's source.
#[derive(Debug, PartialEq, Eq)]
pub enum StoredOutputBit {
    Constant(bool),
    Pixel { x: StoredCoordExpr, y: StoredCoordExpr },
    Inverted(Box<StoredOutputBit>),
}

/// A pixel-coordinate expression.
#[derive(Debug, Clone, Copy, PartialEq, Eq, Structural)]
pub enum StoredCoordExpr {
    Constant(i32),
    AddressedX,
    AddressedY,
    AddressedXPlus(i32),
    AddressedYPlus(i32),
}

/// The programmer-file encoding.
#[derive(Debug, PartialEq, Eq)]
pub enum StoredOutputFormat {
    RawBinary,
    Unsupported { name: String },
}

} // verus!
