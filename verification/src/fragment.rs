//! Detached slices of domain data for copy/paste and cross-file composition.

use vstd::prelude::*;

use crate::bitmap::Bitmap;
use crate::geometry::GlyphSize;

verus! {

/// One glyph carried in a fragment: the code it rendered, that entry's label, and
/// its pixels.
#[derive(Debug, Clone, PartialEq, Eq)]
pub struct FragmentGlyph {
    pub code: u32,
    pub label: String,
    pub bitmap: Bitmap,
}

/// Glyphs copied from one geometry; every glyph's bitmap has `source_glyph_size`.
#[derive(Debug, Clone, PartialEq, Eq)]
pub struct GlyphFragment {
    pub source_glyph_size: GlyphSize,
    pub glyphs: Vec<FragmentGlyph>,
}

/// A serializable slice of domain objects used for copy/paste.
#[derive(Debug, Clone, PartialEq, Eq)]
pub enum FontSpaceFragment {
    Glyphs(GlyphFragment),
}

} // verus!
