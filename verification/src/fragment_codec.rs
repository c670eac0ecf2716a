//! The canonical stored form of copy/paste fragments, shared by the clipboard and
//! the command line. It reuses the document format's textual codecs (hex codes,
//! visual rows). A fragment is tagged by a `fragment_version` and a `kind`; only the
//! `"glyphs"` kind exists.

use vstd::prelude::*;

use crate::fragment::{FontSpaceFragment, FragmentGlyph, GlyphFragment};
use crate::geometry::{glyph_size_check, size_error_text, GlyphSize};
use crate::limits::{default_limits, Limits};
use crate::persist::{DecodeFailure, JsonError, failure_matches, first_failure};
use crate::pixels::{code_text, code_value, format_code, format_rows, parse_code, parse_rows, row_text, rows_chars, rows_result, RowError};
use crate::storage::StoredGlyphSize;
use crate::text::{chars_eq, push_str};

verus! {

/// The fragment schema version this build reads and writes.
pub const CURRENT_FRAGMENT_VERSION: u32 = 1;

/// The tag of a glyph fragment.
pub const KIND_GLYPHS: &'static str = "glyphs";

/// The stored glyph-fragment schema; field order is on-disk order.
#[derive(Debug, PartialEq, Eq)]
pub struct StoredGlyphFragment {
    pub fragment_version: u32,
    pub kind: String,
    pub source_glyph_size: StoredGlyphSize,
    pub glyphs: Vec<StoredFragmentGlyph>,
}

/// One stored fragment glyph.
#[derive(Debug, PartialEq, Eq)]
pub struct StoredFragmentGlyph {
    pub code: String,
    pub label: String,
    pub pixels: Vec<String>,
}

/// `s` stores fragment glyph `g`.
pub open spec fn encodes_fragment_glyph(s: StoredFragmentGlyph, g: FragmentGlyph) -> bool {
    &&& s.code@ == code_text(g.code)
    &&& s.label == g.label
    &&& s.pixels@.len() == g.bitmap@.height
    &&& forall|y: int| 0 <= y < s.pixels@.len() ==> #[trigger] s.pixels@[y]@ == row_text(g.bitmap@.rows[y])
}

/// `s` is the stored form of glyph fragment `f`: tagged with the current version
/// and the glyph kind, its source size, and each glyph in order.
pub open spec fn encodes_fragment(s: StoredGlyphFragment, f: GlyphFragment) -> bool {
    &&& s.fragment_version == CURRENT_FRAGMENT_VERSION
    &&& s.kind@ == KIND_GLYPHS@
    &&& s.source_glyph_size == (StoredGlyphSize { width: f.source_glyph_size.width, height: f.source_glyph_size.height })
    &&& s.glyphs@.len() == f.glyphs@.len()
    &&& forall|i: int| 0 <= i < s.glyphs@.len() ==> encodes_fragment_glyph(#[trigger] s.glyphs@[i], f.glyphs@[i])
}

/// Converts a glyph fragment to its stored form.
pub fn to_stored_glyphs(fragment: &GlyphFragment) -> (s: StoredGlyphFragment)
    ensures
        encodes_fragment(s, *fragment),
{
    let mut glyphs: Vec<StoredFragmentGlyph> = Vec::new();
    let mut i: usize = 0;
    while i < fragment.glyphs.len()
        invariant
            i <= fragment.glyphs@.len(),
            glyphs@.len() == i,
            forall|k: int| 0 <= k < i ==> encodes_fragment_glyph(#[trigger] glyphs@[k], fragment.glyphs@[k]),
        decreases fragment.glyphs@.len() - i,
    {
        let g = &fragment.glyphs[i];
        glyphs.push(
            StoredFragmentGlyph { code: format_code(g.code), label: g.label.clone(), pixels: format_rows(&g.bitmap) },
        );
        i = i + 1;
    }
    StoredGlyphFragment {
        fragment_version: CURRENT_FRAGMENT_VERSION,
        kind: KIND_GLYPHS.to_owned(),
        source_glyph_size: StoredGlyphSize {
            width: fragment.source_glyph_size.width,
            height: fragment.source_glyph_size.height,
        },
        glyphs,
    }
}

/// Converts a fragment to its stored form.
pub fn to_stored_fragment(fragment: &FontSpaceFragment) -> (s: StoredGlyphFragment)
    ensures
        match *fragment {
            FontSpaceFragment::Glyphs(g) => encodes_fragment(s, g),
        },
{
    match fragment {
        FontSpaceFragment::Glyphs(g) => to_stored_glyphs(g),
    }
}

/// Checks a fragment's tags before it is read: the version must be the current one
/// and the kind must be `"glyphs"`.
pub fn check_fragment_tags(fragment_version: u32, kind: &str) -> (r: Result<(), JsonError>)
    ensures
        fragment_version != CURRENT_FRAGMENT_VERSION ==> (r matches Err(JsonError::UnsupportedFragmentVersion {
            found,
            supported,
        }) && found == fragment_version && supported == CURRENT_FRAGMENT_VERSION),
        fragment_version == CURRENT_FRAGMENT_VERSION && kind@ != KIND_GLYPHS@ ==> (r matches Err(
            JsonError::UnknownFragmentKind { kind: k },
        ) && k@ == kind@),
        fragment_version == CURRENT_FRAGMENT_VERSION && kind@ == KIND_GLYPHS@ ==> r is Ok,
{
    if fragment_version != CURRENT_FRAGMENT_VERSION {
        return Err(
            JsonError::UnsupportedFragmentVersion { found: fragment_version, supported: CURRENT_FRAGMENT_VERSION },
        );
    }
    let cs = crate::text::chars_of(kind);
    if chars_eq(&cs, KIND_GLYPHS) {
        Ok(())
    } else {
        Err(JsonError::UnknownFragmentKind { kind: kind.to_owned() })
    }
}

/// The first malformed value of a stored fragment glyph: its code, then its rows.
pub open spec fn fragment_glyph_failure(size: GlyphSize, g: StoredFragmentGlyph) -> Option<DecodeFailure> {
    match code_value(g.code@) {
        None => Some(DecodeFailure::Code { context: "fragment glyph code"@, value: g.code@ }),
        Some(c) => match rows_result(rows_chars(g.pixels@), size) {
            Err(e) => Some(DecodeFailure::Rows { context: "fragment glyph code "@ + code_text(c), error: e }),
            Ok(_) => None,
        },
    }
}

/// The check of one stored fragment glyph.
pub open spec fn fragment_glyph_check(size: GlyphSize) -> spec_fn(StoredFragmentGlyph) -> Option<DecodeFailure> {
    |g: StoredFragmentGlyph| fragment_glyph_failure(size, g)
}

/// `g` is the fragment glyph stored as `s`, in a fragment of `size`.
pub open spec fn decodes_fragment_glyph(g: FragmentGlyph, s: StoredFragmentGlyph, size: GlyphSize) -> bool {
    &&& code_value(s.code@) == Some(g.code)
    &&& g.label == s.label
    &&& rows_result(rows_chars(s.pixels@), size) == Ok::<crate::bitmap::BitmapView, RowError>(g.bitmap@)
}

fn from_stored_fragment_glyph(s: &StoredFragmentGlyph, size: GlyphSize) -> (r: Result<FragmentGlyph, JsonError>)
    ensures
        match fragment_glyph_check(size)(*s) {
            Some(f) => (r matches Err(e) && failure_matches(e, f)),
            None => (r matches Ok(g) && decodes_fragment_glyph(g, *s, size)),
        },
{
    proof {
        reveal_strlit("fragment glyph code");
        reveal_strlit("fragment glyph code ");
    }
    let code = match parse_code(s.code.as_str()) {
        Some(c) => c,
        None => {
            return Err(JsonError::InvalidCode { context: "fragment glyph code".to_owned(), value: s.code.clone() });
        },
    };
    match parse_rows(s.pixels.as_slice(), size) {
        Ok(bitmap) => Ok(FragmentGlyph { code, bitmap, label: s.label.clone() }),
        Err(err) => {
            let mut context = String::new();
            push_str(&mut context, "fragment glyph code ");
            let c = format_code(code);
            push_str(&mut context, c.as_str());
            Err(
                match err {
                    RowError::RowCount { expected, found } => JsonError::RowCount { context, expected, found },
                    RowError::RowWidth { row, expected, found } => JsonError::RowWidth { context, row, expected, found },
                    RowError::InvalidChar { row, column, ch } => JsonError::InvalidPixelChar { context, row, column, ch },
                },
            )
        },
    }
}

/// `f` is the glyph fragment stored as `s`: the stored source size, and each glyph
/// read at that size, in order.
pub open spec fn decodes_fragment(f: GlyphFragment, s: StoredGlyphFragment) -> bool {
    let size = GlyphSize { width: s.source_glyph_size.width, height: s.source_glyph_size.height };
    &&& f.source_glyph_size == size
    &&& f.glyphs@.len() == s.glyphs@.len()
    &&& forall|i: int| 0 <= i < f.glyphs@.len() ==> decodes_fragment_glyph(#[trigger] f.glyphs@[i], s.glyphs@[i], size)
}

/// Converts a stored glyph fragment back: the source size must be a valid geometry
/// under the default limits, and every glyph's pixels must match it.
pub fn from_stored_glyphs(stored: &StoredGlyphFragment) -> (r: Result<GlyphFragment, JsonError>)
    ensures
        ({
            let size = GlyphSize { width: stored.source_glyph_size.width, height: stored.source_glyph_size.height };
            match glyph_size_check(size, default_limits()) {
                Err(reason) => (r matches Err(JsonError::InvalidFragmentGeometry { width, height, reason: text })
                    && width == size.width && height == size.height && text@ == size_error_text(reason)),
                Ok(()) => match first_failure(stored.glyphs@, fragment_glyph_check(size)) {
                    Some(f) => (r matches Err(e) && failure_matches(e, f)),
                    None => (r matches Ok(fragment) && decodes_fragment(fragment, *stored)),
                },
            }
        }),
{
    let size = GlyphSize::new(stored.source_glyph_size.width, stored.source_glyph_size.height);
    let limits = Limits::default();
    match size.validate(&limits) {
        Err(reason) => {
            return Err(
                JsonError::InvalidFragmentGeometry { width: size.width, height: size.height, reason: reason.message() },
            );
        },
        Ok(()) => {},
    }
    let ghost check = fragment_glyph_check(size);
    let mut glyphs: Vec<FragmentGlyph> = Vec::new();
    let mut i: usize = 0;
    while i < stored.glyphs.len()
        invariant
            i <= stored.glyphs@.len(),
            check == fragment_glyph_check(size),
            size == (GlyphSize { width: stored.source_glyph_size.width, height: stored.source_glyph_size.height }),
            glyph_size_check(size, default_limits()) is Ok,
            first_failure(stored.glyphs@.take(i as int), check) is None,
            glyphs@.len() == i,
            forall|k: int| 0 <= k < i ==> decodes_fragment_glyph(#[trigger] glyphs@[k], stored.glyphs@[k], size),
        decreases stored.glyphs@.len() - i,
    {
        proof {
            crate::persist::lemma_first_failure_step(stored.glyphs@, check, i as int);
        }
        match from_stored_fragment_glyph(&stored.glyphs[i], size) {
            Ok(g) => glyphs.push(g),
            Err(e) => {
                proof {
                    crate::persist::lemma_first_failure_prefix(stored.glyphs@, check, i + 1);
                }
                return Err(e);
            },
        }
        i = i + 1;
    }
    proof {
        crate::persist::lemma_first_failure_all(stored.glyphs@, check);
    }
    let fragment = GlyphFragment { source_glyph_size: size, glyphs };
    assert(decodes_fragment(fragment, *stored));
    Ok(fragment)
}

/// Storing a fragment, reading the stored form back, and storing the result gives
/// the stored form it was read from, so save → load → save reproduces the same
/// fragment text.
pub proof fn law_fragment_round_trip(stored: StoredGlyphFragment, fragment: GlyphFragment, back: GlyphFragment)
    requires
        encodes_fragment(stored, fragment),
        decodes_fragment(back, stored),
    ensures
        encodes_fragment(stored, back),
{
    let size = GlyphSize { width: stored.source_glyph_size.width, height: stored.source_glyph_size.height };
    assert forall|i: int| 0 <= i < stored.glyphs@.len() implies encodes_fragment_glyph(
        #[trigger] stored.glyphs@[i],
        back.glyphs@[i],
    ) by {
        let s = stored.glyphs@[i];
        let g = fragment.glyphs@[i];
        let b = back.glyphs@[i];
        assert(encodes_fragment_glyph(s, g));
        assert(decodes_fragment_glyph(b, s, size));
        crate::pixels::law_code_round_trip(g.code);
        crate::pixels::law_rows_text_round_trip(rows_chars(s.pixels@), size);
        assert forall|y: int| 0 <= y < s.pixels@.len() implies #[trigger] s.pixels@[y]@ == row_text(b.bitmap@.rows[y]) by {
            assert(rows_chars(s.pixels@)[y] == s.pixels@[y]@);
            assert(crate::pixels::view_rows(b.bitmap@)[y] == row_text(b.bitmap@.rows[y]));
        }
    }
}

/// Every glyph of `f` has the fragment's source size, as a fragment copied from
/// one geometry does.
pub open spec fn fragment_well_sized(f: GlyphFragment) -> bool {
    forall|i: int|
        0 <= i < f.glyphs@.len() ==> (#[trigger] f.glyphs@[i]).bitmap@.width == f.source_glyph_size.width
            && f.glyphs@[i].bitmap@.height == f.source_glyph_size.height
}

proof fn lemma_fragment_glyph_reads(s: StoredFragmentGlyph, g: FragmentGlyph, size: GlyphSize)
    requires
        encodes_fragment_glyph(s, g),
        g.bitmap@.width == size.width,
        g.bitmap@.height == size.height,
    ensures
        code_value(s.code@) == Some(g.code),
        rows_result(rows_chars(s.pixels@), size) == Ok::<crate::bitmap::BitmapView, RowError>(g.bitmap@),
{
    crate::pixels::law_code_round_trip(g.code);
    let v = g.bitmap@;
    assert(v.wf());
    let rows = rows_chars(s.pixels@);
    assert(rows =~= crate::pixels::view_rows(v)) by {
        assert forall|y: int| 0 <= y < rows.len() implies rows[y] == crate::pixels::view_rows(v)[y] by {
            assert(s.pixels@[y]@ == row_text(v.rows[y]));
        }
    }
    crate::pixels::law_rows_round_trip(v);
    assert(GlyphSize { width: v.width as u16, height: v.height as u16 } == size);
}

/// What saving writes, loading reads: the stored form of a fragment whose glyphs
/// all have its (valid) source size passes every glyph check, and whatever it reads
/// back as is the fragment itself, glyph for glyph.
pub proof fn law_saved_fragment_loads(stored: StoredGlyphFragment, fragment: GlyphFragment)
    requires
        encodes_fragment(stored, fragment),
        fragment_well_sized(fragment),
        glyph_size_check(fragment.source_glyph_size, default_limits()) is Ok,
    ensures
        first_failure(stored.glyphs@, fragment_glyph_check(fragment.source_glyph_size)) is None,
        forall|back: GlyphFragment|
            #[trigger] decodes_fragment(back, stored) ==> {
                &&& back.source_glyph_size == fragment.source_glyph_size
                &&& back.glyphs@.len() == fragment.glyphs@.len()
                &&& forall|i: int|
                    0 <= i < back.glyphs@.len() ==> (#[trigger] back.glyphs@[i]).code == fragment.glyphs@[i].code
                        && back.glyphs@[i].label == fragment.glyphs@[i].label
                        && back.glyphs@[i].bitmap@ == fragment.glyphs@[i].bitmap@
            },
{
    let size = fragment.source_glyph_size;
    assert(size == GlyphSize { width: stored.source_glyph_size.width, height: stored.source_glyph_size.height });
    let check = fragment_glyph_check(size);
    assert forall|i: int| 0 <= i < stored.glyphs@.len() implies (#[trigger] check(stored.glyphs@[i])) is None by {
        assert(encodes_fragment_glyph(stored.glyphs@[i], fragment.glyphs@[i]));
        lemma_fragment_glyph_reads(stored.glyphs@[i], fragment.glyphs@[i], size);
    }
    crate::persist::lemma_first_failure_none(stored.glyphs@, check);
    assert forall|back: GlyphFragment| #[trigger] decodes_fragment(back, stored) implies {
        &&& back.source_glyph_size == fragment.source_glyph_size
        &&& back.glyphs@.len() == fragment.glyphs@.len()
        &&& forall|i: int|
            0 <= i < back.glyphs@.len() ==> (#[trigger] back.glyphs@[i]).code == fragment.glyphs@[i].code
                && back.glyphs@[i].label == fragment.glyphs@[i].label
                && back.glyphs@[i].bitmap@ == fragment.glyphs@[i].bitmap@
    } by {
        assert forall|i: int| 0 <= i < back.glyphs@.len() implies (#[trigger] back.glyphs@[i]).code
            == fragment.glyphs@[i].code && back.glyphs@[i].label == fragment.glyphs@[i].label
            && back.glyphs@[i].bitmap@ == fragment.glyphs@[i].bitmap@ by {
            assert(encodes_fragment_glyph(stored.glyphs@[i], fragment.glyphs@[i]));
            assert(decodes_fragment_glyph(back.glyphs@[i], stored.glyphs@[i], size));
            lemma_fragment_glyph_reads(stored.glyphs@[i], fragment.glyphs@[i], size);
        }
    }
}

} // verus!
