use vstd::prelude::*;

verus! {

/// Enforced upper bounds on glyph geometry, object counts, and export sizes.
#[derive(Debug, Clone, Copy, PartialEq, Eq)]
pub struct Limits {
    /// Maximum glyph width in pixels.
    pub max_glyph_width: u16,
    /// Maximum glyph height in pixels.
    pub max_glyph_height: u16,
    /// Maximum number of character slots (entries) in one character set.
    pub max_character_slots_per_set: u32,
    /// Maximum number of pages in one glyph set.
    pub max_pages_per_glyph_set: u32,
    /// Maximum total glyph pixels across a whole document.
    pub max_total_glyph_pixels_per_document: u64,
    /// Maximum export address width, in address bits.
    pub max_export_address_width: u32,
    /// Maximum number of words/pixels in a rendered output image.
    pub max_output_image_pixels: u64,
    /// Maximum total pixels carried by a copy/paste fragment.
    pub max_fragment_pixels: u64,
}

/// The standard bounds: generous for real raster fonts, far below `u16::MAX`.
pub open spec fn default_limits() -> Limits {
    Limits {
        max_glyph_width: 256,
        max_glyph_height: 256,
        max_character_slots_per_set: 65_536,
        max_pages_per_glyph_set: 256,
        max_total_glyph_pixels_per_document: 67_108_864,
        max_export_address_width: 24,
        max_output_image_pixels: 67_108_864,
        max_fragment_pixels: 16_777_216,
    }
}

impl Default for Limits {
    fn default() -> (limits: Self)
        ensures
            limits == default_limits(),
    {
        Limits {
            max_glyph_width: 256,
            max_glyph_height: 256,
            max_character_slots_per_set: 65_536,
            max_pages_per_glyph_set: 256,
            max_total_glyph_pixels_per_document: 64 * 1024 * 1024,
            max_export_address_width: 24,
            max_output_image_pixels: 64 * 1024 * 1024,
            max_fragment_pixels: 16 * 1024 * 1024,
        }
    }
}

} // verus!
