//! Document validation: stable-id uniqueness, character-set references, entry-code
//! uniqueness, geometry agreement, per-page glyph-code uniqueness and the resource
//! limits. Hard problems are [`ValidationError`]s; a glyph whose `code` has no entry
//! in its character set is a tolerated [`ValidationWarning::DanglingGlyph`].
//!
//! The report is deterministic: the document's vectors are walked in order, and an
//! id or code is reported each time it occurs again after its first occurrence.

use std::collections::HashSet;

use vstd::prelude::*;

use crate::character_set::CharacterSet;
use crate::document::{FontSpace, CURRENT_FORMAT_VERSION};
use crate::geometry::{glyph_size_check, size_error_text, size_text, GlyphSize, GlyphSizeError};
use crate::glyph_set::{Glyph, GlyphPage, GlyphSet};
use crate::ids::{CharacterSetId, ExportConfigId, GlyphSetId, GuideId, PageId};
use crate::limits::Limits;
use crate::ids::{uuid_string, uuid_text};
use crate::text::{decimal, hex, push_decimal, push_hex_padded, push_str, zero_padded};

verus! {

broadcast use vstd::std_specs::hash::group_hash_axioms;

/// The outcome of validating a document: hard errors and tolerated warnings.
#[derive(Debug, Clone, PartialEq, Eq)]
pub struct ValidationReport {
    pub errors: Vec<ValidationError>,
    pub warnings: Vec<ValidationWarning>,
}

impl Default for ValidationReport {
    fn default() -> (r: Self)
        ensures
            r.errors@.len() == 0,
            r.warnings@.len() == 0,
    {
        ValidationReport { errors: Vec::new(), warnings: Vec::new() }
    }
}

impl ValidationReport {
    /// True when there are no hard errors; warnings do not make a document invalid.
    pub fn is_valid(&self) -> (r: bool)
        ensures
            r == (self.errors@.len() == 0),
    {
        self.errors.len() == 0
    }
}

/// A hard document-validation failure, with the objects it concerns.
#[derive(Debug, Clone, Copy, PartialEq, Eq, Structural)]
pub enum ValidationError {
    UnsupportedFormatVersion { found: u32, supported: u32 },
    DuplicateCharacterSetId(CharacterSetId),
    DuplicateGlyphSetId(GlyphSetId),
    DuplicatePageId(PageId),
    DuplicateGuideId(GuideId),
    DuplicateExportConfigId(ExportConfigId),
    UnknownCharacterSet { glyph_set: GlyphSetId, character_set: CharacterSetId },
    DuplicateEntryCode { character_set: CharacterSetId, code: u32 },
    GlyphSizeInvalid { glyph_set: GlyphSetId, source: GlyphSizeError },
    GlyphSizeMismatch { glyph_set: GlyphSetId, page: PageId, code: u32, expected: GlyphSize, found: GlyphSize },
    DuplicateGlyphCode { glyph_set: GlyphSetId, page: PageId, code: u32 },
    TooManyEntries { character_set: CharacterSetId, count: usize, max: u32 },
    TooManyPages { glyph_set: GlyphSetId, count: usize, max: u32 },
    TotalGlyphPixelsExceeded { count: u64, max: u64 },
}

/// A tolerated, non-fatal validation observation.
#[derive(Debug, Clone, Copy, PartialEq, Eq, Structural)]
pub enum ValidationWarning {
    /// A glyph whose `code` has no entry in the referenced character set: loaded,
    /// warned, and treated as blank and unaddressable until resolved.
    DanglingGlyph { glyph_set: GlyphSetId, page: PageId, code: u32 },
}

// ---- the specification of the report ----

/// The elements of `s` that occur earlier, in `seen` or before them in `s`, in
/// order: what a walk that remembers every element it has passed reports again.
pub open spec fn repeats<A>(seen: Seq<A>, s: Seq<A>) -> Seq<A>
    decreases s.len(),
{
    if s.len() == 0 {
        Seq::empty()
    } else {
        repeats(seen, s.drop_last()) + if (seen + s.drop_last()).contains(s.last()) {
            seq![s.last()]
        } else {
            Seq::empty()
        }
    }
}

/// `e` as a one-element sequence when `cond` holds, else nothing.
pub open spec fn when<A>(cond: bool, e: A) -> Seq<A> {
    if cond {
        seq![e]
    } else {
        Seq::empty()
    }
}

/// The size of a glyph's bitmap.
pub open spec fn bitmap_size(g: Glyph) -> GlyphSize {
    GlyphSize { width: g.bitmap@.width as u16, height: g.bitmap@.height as u16 }
}

/// The errors of one character set, given the sets before it: a repeated id, too
/// many entries, and each entry code that repeats an earlier one.
pub open spec fn character_set_errors(before: Seq<CharacterSet>, cs: CharacterSet, limits: Limits) -> Seq<ValidationError> {
    when(
        before.map_values(|c: CharacterSet| c.id).contains(cs.id),
        ValidationError::DuplicateCharacterSetId(cs.id),
    ) + when(
        cs.entries@.len() > limits.max_character_slots_per_set,
        ValidationError::TooManyEntries {
            character_set: cs.id,
            count: cs.entries@.len() as usize,
            max: limits.max_character_slots_per_set,
        },
    ) + repeats(Seq::empty(), cs.codes()).map_values(
        |code: u32| ValidationError::DuplicateEntryCode { character_set: cs.id, code },
    )
}

/// The errors of the character sets, in order.
pub open spec fn character_sets_errors(sets: Seq<CharacterSet>, limits: Limits) -> Seq<ValidationError>
    decreases sets.len(),
{
    if sets.len() == 0 {
        Seq::empty()
    } else {
        character_sets_errors(sets.drop_last(), limits) + character_set_errors(sets.drop_last(), sets.last(), limits)
    }
}

/// The errors of a page's glyphs: a code repeated on the page, and a bitmap whose
/// size is not the glyph set's.
pub open spec fn glyphs_errors(gs: GlyphSet, page: GlyphPage, glyphs: Seq<Glyph>) -> Seq<ValidationError>
    decreases glyphs.len(),
{
    if glyphs.len() == 0 {
        Seq::empty()
    } else {
        let before = glyphs.drop_last();
        let g = glyphs.last();
        glyphs_errors(gs, page, before) + when(
            before.map_values(|x: Glyph| x.code).contains(g.code),
            ValidationError::DuplicateGlyphCode { glyph_set: gs.id, page: page.id, code: g.code },
        ) + when(
            bitmap_size(g) != gs.glyph_size,
            ValidationError::GlyphSizeMismatch {
                glyph_set: gs.id,
                page: page.id,
                code: g.code,
                expected: gs.glyph_size,
                found: bitmap_size(g),
            },
        )
    }
}

/// The guide ids of `pages`, page by page.
pub open spec fn guide_ids_of(pages: Seq<GlyphPage>) -> Seq<GuideId>
    decreases pages.len(),
{
    if pages.len() == 0 {
        Seq::empty()
    } else {
        guide_ids_of(pages.drop_last()) + pages.last().guides@.map_values(|g: crate::glyph_set::Guide| g.id)
    }
}

/// The errors of one page, given the page and guide ids seen before it.
pub open spec fn page_errors(gs: GlyphSet, seen_pages: Seq<PageId>, seen_guides: Seq<GuideId>, page: GlyphPage) -> Seq<ValidationError> {
    when(seen_pages.contains(page.id), ValidationError::DuplicatePageId(page.id)) + repeats(
        seen_guides,
        page.guides@.map_values(|g: crate::glyph_set::Guide| g.id),
    ).map_values(|id: GuideId| ValidationError::DuplicateGuideId(id)) + glyphs_errors(gs, page, page.glyphs@)
}

/// The errors of a glyph set's pages, given the page and guide ids seen before them.
pub open spec fn pages_errors(gs: GlyphSet, seen_pages: Seq<PageId>, seen_guides: Seq<GuideId>, pages: Seq<GlyphPage>) -> Seq<ValidationError>
    decreases pages.len(),
{
    if pages.len() == 0 {
        Seq::empty()
    } else {
        let before = pages.drop_last();
        pages_errors(gs, seen_pages, seen_guides, before) + page_errors(
            gs,
            seen_pages + before.map_values(|p: GlyphPage| p.id),
            seen_guides + guide_ids_of(before),
            pages.last(),
        )
    }
}

/// The page ids of the glyph sets, set by set.
pub open spec fn all_page_ids(sets: Seq<GlyphSet>) -> Seq<PageId>
    decreases sets.len(),
{
    if sets.len() == 0 {
        Seq::empty()
    } else {
        all_page_ids(sets.drop_last()) + sets.last().page_ids()
    }
}

/// The guide ids of the glyph sets, set by set.
pub open spec fn all_guide_ids(sets: Seq<GlyphSet>) -> Seq<GuideId>
    decreases sets.len(),
{
    if sets.len() == 0 {
        Seq::empty()
    } else {
        all_guide_ids(sets.drop_last()) + guide_ids_of(sets.last().pages@)
    }
}

/// The errors of one glyph set, given the character sets and the glyph sets
/// before it: a repeated id, an invalid size, an unknown character set, too many
/// pages, then its pages' errors.
pub open spec fn glyph_set_errors(
    charsets: Seq<CharacterSet>,
    before: Seq<GlyphSet>,
    gs: GlyphSet,
    limits: Limits,
) -> Seq<ValidationError> {
    when(before.map_values(|g: GlyphSet| g.id).contains(gs.id), ValidationError::DuplicateGlyphSetId(gs.id))
        + match glyph_size_check(gs.glyph_size, limits) {
        Err(e) => seq![ValidationError::GlyphSizeInvalid { glyph_set: gs.id, source: e }],
        Ok(()) => Seq::empty(),
    } + when(
        !charsets.map_values(|c: CharacterSet| c.id).contains(gs.character_set_id),
        ValidationError::UnknownCharacterSet { glyph_set: gs.id, character_set: gs.character_set_id },
    ) + when(
        gs.pages@.len() > limits.max_pages_per_glyph_set,
        ValidationError::TooManyPages {
            glyph_set: gs.id,
            count: gs.pages@.len() as usize,
            max: limits.max_pages_per_glyph_set,
        },
    ) + pages_errors(gs, all_page_ids(before), all_guide_ids(before), gs.pages@)
}

/// The errors of the glyph sets, in order.
pub open spec fn glyph_sets_errors(charsets: Seq<CharacterSet>, sets: Seq<GlyphSet>, limits: Limits) -> Seq<ValidationError>
    decreases sets.len(),
{
    if sets.len() == 0 {
        Seq::empty()
    } else {
        glyph_sets_errors(charsets, sets.drop_last(), limits) + glyph_set_errors(
            charsets,
            sets.drop_last(),
            sets.last(),
            limits,
        )
    }
}

/// The entry codes of the last character set with id `id`, if any: the set whose
/// codes a glyph set referencing `id` is checked against.
pub open spec fn known_codes(charsets: Seq<CharacterSet>, id: CharacterSetId) -> Option<Seq<u32>>
    decreases charsets.len(),
{
    if charsets.len() == 0 {
        None
    } else if charsets.last().id == id {
        Some(charsets.last().codes())
    } else {
        known_codes(charsets.drop_last(), id)
    }
}

/// The dangling glyphs of a page: each glyph whose code is not in `known`.
pub open spec fn glyphs_warnings(gs: GlyphSet, page: GlyphPage, known: Seq<u32>, glyphs: Seq<Glyph>) -> Seq<ValidationWarning>
    decreases glyphs.len(),
{
    if glyphs.len() == 0 {
        Seq::empty()
    } else {
        glyphs_warnings(gs, page, known, glyphs.drop_last()) + when(
            !known.contains(glyphs.last().code),
            ValidationWarning::DanglingGlyph { glyph_set: gs.id, page: page.id, code: glyphs.last().code },
        )
    }
}

/// The dangling glyphs of a glyph set's pages, page by page.
pub open spec fn pages_warnings(gs: GlyphSet, known: Seq<u32>, pages: Seq<GlyphPage>) -> Seq<ValidationWarning>
    decreases pages.len(),
{
    if pages.len() == 0 {
        Seq::empty()
    } else {
        pages_warnings(gs, known, pages.drop_last()) + glyphs_warnings(gs, pages.last(), known, pages.last().glyphs@)
    }
}

/// The dangling glyphs of the glyph sets; a set whose character set is unknown
/// has none (its reference is an error instead).
pub open spec fn glyph_sets_warnings(charsets: Seq<CharacterSet>, sets: Seq<GlyphSet>) -> Seq<ValidationWarning>
    decreases sets.len(),
{
    if sets.len() == 0 {
        Seq::empty()
    } else {
        glyph_sets_warnings(charsets, sets.drop_last()) + match known_codes(charsets, sets.last().character_set_id) {
            Some(known) => pages_warnings(sets.last(), known, sets.last().pages@),
            None => Seq::empty(),
        }
    }
}

/// The pixels of the glyphs' bitmaps.
pub open spec fn glyphs_pixels(glyphs: Seq<Glyph>) -> nat
    decreases glyphs.len(),
{
    if glyphs.len() == 0 {
        0
    } else {
        glyphs_pixels(glyphs.drop_last()) + glyphs.last().bitmap@.width * glyphs.last().bitmap@.height
    }
}

/// The pixels of the pages' glyphs.
pub open spec fn pages_pixels(pages: Seq<GlyphPage>) -> nat
    decreases pages.len(),
{
    if pages.len() == 0 {
        0
    } else {
        pages_pixels(pages.drop_last()) + glyphs_pixels(pages.last().glyphs@)
    }
}

/// The pixels of all glyphs of the glyph sets.
pub open spec fn sets_pixels(sets: Seq<GlyphSet>) -> nat
    decreases sets.len(),
{
    if sets.len() == 0 {
        0
    } else {
        sets_pixels(sets.drop_last()) + pages_pixels(sets.last().pages@)
    }
}

/// `n` capped at `u64::MAX`.
pub open spec fn saturate(n: nat) -> u64 {
    if n > u64::MAX {
        u64::MAX
    } else {
        n as u64
    }
}

/// The export configs' repeated ids, in order.
pub open spec fn export_config_errors(configs: Seq<crate::export_config::ExportConfig>) -> Seq<ValidationError> {
    repeats(Seq::empty(), configs.map_values(|c: crate::export_config::ExportConfig| c.id)).map_values(
        |id: ExportConfigId| ValidationError::DuplicateExportConfigId(id),
    )
}

/// The error for a document whose glyphs hold more pixels than the limit allows.
pub open spec fn total_pixels_errors(sets: Seq<GlyphSet>, limits: Limits) -> Seq<ValidationError> {
    when(
        saturate(sets_pixels(sets)) > limits.max_total_glyph_pixels_per_document,
        ValidationError::TotalGlyphPixelsExceeded {
            count: saturate(sets_pixels(sets)),
            max: limits.max_total_glyph_pixels_per_document,
        },
    )
}

/// The error for a document of another format version.
pub open spec fn version_errors(doc: FontSpace) -> Seq<ValidationError> {
    when(
        doc.format_version != CURRENT_FORMAT_VERSION,
        ValidationError::UnsupportedFormatVersion { found: doc.format_version, supported: CURRENT_FORMAT_VERSION },
    )
}

/// Every error of `doc` under `limits`, in report order: the format version, the
/// character sets, the glyph sets, repeated export-config ids, and the total
/// pixel count (summed with saturation at `u64::MAX`).
pub open spec fn validation_errors(doc: FontSpace, limits: Limits) -> Seq<ValidationError> {
    version_errors(doc) + character_sets_errors(doc.character_sets@, limits) + glyph_sets_errors(
        doc.character_sets@,
        doc.glyph_sets@,
        limits,
    ) + export_config_errors(doc.export_configs@) + total_pixels_errors(doc.glyph_sets@, limits)
}

/// Every warning of `doc`: its dangling glyphs, in order.
pub open spec fn validation_warnings(doc: FontSpace) -> Seq<ValidationWarning> {
    glyph_sets_warnings(doc.character_sets@, doc.glyph_sets@)
}


// ---- the walk ----

proof fn lemma_repeats_step<A>(seen: Seq<A>, s: Seq<A>, i: int)
    requires
        0 <= i < s.len(),
    ensures
        repeats(seen, s.take(i + 1)) == repeats(seen, s.take(i)) + when((seen + s.take(i)).contains(s[i]), s[i]),
{
    assert(s.take(i + 1).drop_last() =~= s.take(i));
}

proof fn lemma_map_append<A, B>(a: Seq<A>, b: Seq<A>, f: spec_fn(A) -> B)
    ensures
        (a + b).map_values(f) == a.map_values(f) + b.map_values(f),
{
    assert((a + b).map_values(f) =~= a.map_values(f) + b.map_values(f));
}

/// Walks a character set's entries, reporting each code seen before; returns the
/// set of its codes.
fn entry_codes(cs: &CharacterSet, errors: &mut Vec<ValidationError>) -> (codes: HashSet<u32>)
    ensures
        final(errors)@ == old(errors)@ + repeats(Seq::empty(), cs.codes()).map_values(
            |code: u32| ValidationError::DuplicateEntryCode { character_set: cs.id, code },
        ),
        forall|c: u32| codes@.contains(c) <==> cs.codes().contains(c),
{
    let ghost f = |code: u32| ValidationError::DuplicateEntryCode { character_set: cs.id, code };
    let ghost all = cs.codes();
    let mut codes: HashSet<u32> = HashSet::new();
    let mut i: usize = 0;
    while i < cs.entries.len()
        invariant
            i <= cs.entries@.len(),
            all == cs.codes(),
            all.len() == cs.entries@.len(),
            f == (|code: u32| ValidationError::DuplicateEntryCode { character_set: cs.id, code }),
            errors@ == old(errors)@ + repeats(Seq::empty(), all.take(i as int)).map_values(f),
            forall|c: u32| codes@.contains(c) <==> all.take(i as int).contains(c),
        decreases cs.entries@.len() - i,
    {
        let code = cs.entries[i].code;
        proof {
            lemma_repeats_step(Seq::<u32>::empty(), all, i as int);
            assert(Seq::<u32>::empty() + all.take(i as int) =~= all.take(i as int));
            lemma_map_append(
                repeats(Seq::empty(), all.take(i as int)),
                when(all.take(i as int).contains(all[i as int]), all[i as int]),
                f,
            );
            assert(all.take(i + 1) =~= all.take(i as int).push(code));
        }
        let fresh = codes.insert(code);
        if !fresh {
            errors.push(ValidationError::DuplicateEntryCode { character_set: cs.id, code });
        }
        proof {
            assert(when(all.take(i as int).contains(code), code).map_values(f) =~= when(
                all.take(i as int).contains(code),
                f(code),
            ));
            let prev = all.take(i as int);
            let next = all.take(i + 1);
            assert forall|c: u32| codes@.contains(c) implies next.contains(c) by {
                if c != code {
                    let k = choose|k: int| 0 <= k < prev.len() && #[trigger] prev[k] == c;
                    assert(next[k] == c);
                } else {
                    assert(next[i as int] == c);
                }
            }
            assert forall|c: u32| next.contains(c) implies codes@.contains(c) by {
                let k = choose|k: int| 0 <= k < next.len() && #[trigger] next[k] == c;
                if k < i {
                    assert(prev[k] == c);
                }
            }
        }
        i = i + 1;
    }
    proof {
        assert(all.take(all.len() as int) =~= all);
    }
    codes
}

/// Walks a page's glyphs: a code repeated on the page and a bitmap of the wrong
/// size are errors, a code missing from `known` is a warning, and every glyph's
/// pixels are added to `total` (saturating).
fn check_glyphs(
    gs: &GlyphSet,
    page: &GlyphPage,
    known: Option<&HashSet<u32>>,
    errors: &mut Vec<ValidationError>,
    warnings: &mut Vec<ValidationWarning>,
    total: &mut u64,
    Ghost(kc): Ghost<Option<Seq<u32>>>,
    Ghost(acc): Ghost<nat>,
)
    requires
        known is Some <==> kc is Some,
        known is Some ==> forall|c: u32| known->0@.contains(c) <==> kc->0.contains(c),
        *old(total) == saturate(acc),
    ensures
        final(errors)@ == old(errors)@ + glyphs_errors(*gs, *page, page.glyphs@),
        final(warnings)@ == old(warnings)@ + match kc {
            Some(k) => glyphs_warnings(*gs, *page, k, page.glyphs@),
            None => Seq::<ValidationWarning>::empty(),
        },
        *final(total) == saturate(acc + glyphs_pixels(page.glyphs@)),
{
    let ghost glyphs = page.glyphs@;
    let ghost codes_of = |x: Glyph| x.code;
    let mut seen_codes: HashSet<u32> = HashSet::new();
    let mut i: usize = 0;
    while i < page.glyphs.len()
        invariant
            i <= glyphs.len(),
            glyphs == page.glyphs@,
            codes_of == (|x: Glyph| x.code),
            known is Some <==> kc is Some,
            known is Some ==> forall|c: u32| known->0@.contains(c) <==> kc->0.contains(c),
            errors@ == old(errors)@ + glyphs_errors(*gs, *page, glyphs.take(i as int)),
            warnings@ == old(warnings)@ + match kc {
                Some(k) => glyphs_warnings(*gs, *page, k, glyphs.take(i as int)),
                None => Seq::<ValidationWarning>::empty(),
            },
            *total == saturate(acc + glyphs_pixels(glyphs.take(i as int))),
            forall|c: u32| seen_codes@.contains(c) <==> glyphs.take(i as int).map_values(codes_of).contains(c),
        decreases glyphs.len() - i,
    {
        let glyph = &page.glyphs[i];
        let ghost prev = glyphs.take(i as int);
        let ghost next = glyphs.take(i + 1);
        proof {
            assert(next.drop_last() =~= prev);
            assert(next.last() == *glyph);
        }
        let size = glyph.bitmap.size();
        let pixels = size.pixel_count();
        *total = total.saturating_add(pixels);
        let fresh = seen_codes.insert(glyph.code);
        if !fresh {
            errors.push(ValidationError::DuplicateGlyphCode { glyph_set: gs.id, page: page.id, code: glyph.code });
        }
        if !(size == gs.glyph_size) {
            errors.push(
                ValidationError::GlyphSizeMismatch {
                    glyph_set: gs.id,
                    page: page.id,
                    code: glyph.code,
                    expected: gs.glyph_size,
                    found: size,
                },
            );
        }
        match known {
            Some(k) => {
                if !k.contains(&glyph.code) {
                    warnings.push(ValidationWarning::DanglingGlyph { glyph_set: gs.id, page: page.id, code: glyph.code });
                }
            },
            None => {},
        }
        proof {
            assert(size == bitmap_size(*glyph));
            let pm = prev.map_values(codes_of);
            let nm = next.map_values(codes_of);
            assert(nm =~= pm.push(glyph.code));
            assert forall|c: u32| seen_codes@.contains(c) implies nm.contains(c) by {
                if c != glyph.code {
                    let k = choose|k: int| 0 <= k < pm.len() && #[trigger] pm[k] == c;
                    assert(nm[k] == c);
                } else {
                    assert(nm[i as int] == c);
                }
            }
            assert forall|c: u32| nm.contains(c) implies seen_codes@.contains(c) by {
                let k = choose|k: int| 0 <= k < nm.len() && #[trigger] nm[k] == c;
                if k < i {
                    assert(pm[k] == c);
                }
            }
        }
        i = i + 1;
    }
    proof {
        assert(glyphs.take(glyphs.len() as int) =~= glyphs);
    }
}

/// Walks a page's guides, reporting each guide id seen before (on this or an
/// earlier page).
fn check_guides(
    page: &GlyphPage,
    seen_guides: &mut HashSet<u128>,
    errors: &mut Vec<ValidationError>,
    Ghost(sg): Ghost<Seq<GuideId>>,
)
    requires
        forall|x: u128| old(seen_guides)@.contains(x) <==> sg.contains(GuideId(x)),
    ensures
        forall|x: u128|
            final(seen_guides)@.contains(x) <==> (sg + page.guides@.map_values(|g: crate::glyph_set::Guide| g.id)).contains(
                GuideId(x),
            ),
        final(errors)@ == old(errors)@ + repeats(sg, page.guides@.map_values(|g: crate::glyph_set::Guide| g.id)).map_values(
            |id: GuideId| ValidationError::DuplicateGuideId(id),
        ),
{
    let ghost ids = page.guides@.map_values(|g: crate::glyph_set::Guide| g.id);
    let ghost f = |id: GuideId| ValidationError::DuplicateGuideId(id);
    let mut i: usize = 0;
    while i < page.guides.len()
        invariant
            i <= page.guides@.len(),
            ids == page.guides@.map_values(|g: crate::glyph_set::Guide| g.id),
            f == (|id: GuideId| ValidationError::DuplicateGuideId(id)),
            forall|x: u128| seen_guides@.contains(x) <==> (sg + ids.take(i as int)).contains(GuideId(x)),
            errors@ == old(errors)@ + repeats(sg, ids.take(i as int)).map_values(f),
        decreases page.guides@.len() - i,
    {
        let id = page.guides[i].id;
        proof {
            lemma_repeats_step(sg, ids, i as int);
            lemma_map_append(repeats(sg, ids.take(i as int)), when((sg + ids.take(i as int)).contains(ids[i as int]), ids[i as int]), f);
            assert(when((sg + ids.take(i as int)).contains(id), id).map_values(f) =~= when(
                (sg + ids.take(i as int)).contains(id),
                f(id),
            ));
        }
        let fresh = seen_guides.insert(id.0);
        if !fresh {
            errors.push(ValidationError::DuplicateGuideId(id));
        }
        proof {
            let prev = sg + ids.take(i as int);
            let next = sg + ids.take(i + 1);
            assert(next =~= prev.push(id));
            assert forall|x: u128| seen_guides@.contains(x) implies next.contains(GuideId(x)) by {
                if x != id.0 {
                    let k = choose|k: int| 0 <= k < prev.len() && #[trigger] prev[k] == GuideId(x);
                    assert(next[k] == GuideId(x));
                } else {
                    assert(next[prev.len() as int] == GuideId(x));
                }
            }
            assert forall|x: u128| next.contains(GuideId(x)) implies seen_guides@.contains(x) by {
                let k = choose|k: int| 0 <= k < next.len() && #[trigger] next[k] == GuideId(x);
                if k < prev.len() {
                    assert(prev[k] == GuideId(x));
                }
            }
            if !fresh {
                assert(prev.contains(id));
            } else {
                assert(!prev.contains(id));
            }
        }
        i = i + 1;
    }
    proof {
        assert(ids.take(ids.len() as int) =~= ids);
    }
}

proof fn lemma_guide_ids_step(pages: Seq<GlyphPage>, i: int)
    requires
        0 <= i < pages.len(),
    ensures
        guide_ids_of(pages.take(i + 1)) == guide_ids_of(pages.take(i)) + pages[i].guides@.map_values(
            |g: crate::glyph_set::Guide| g.id,
        ),
{
    assert(pages.take(i + 1).drop_last() =~= pages.take(i));
}

/// Walks a glyph set's pages: each page id seen before (in this or an earlier set)
/// is an error, then the page's guides and glyphs are checked.
#[verifier::spinoff_prover]
#[verifier::rlimit(40)]
fn check_pages(
    gs: &GlyphSet,
    known: Option<&HashSet<u32>>,
    seen_pages: &mut HashSet<u128>,
    seen_guides: &mut HashSet<u128>,
    errors: &mut Vec<ValidationError>,
    warnings: &mut Vec<ValidationWarning>,
    total: &mut u64,
    Ghost(sp): Ghost<Seq<PageId>>,
    Ghost(sg): Ghost<Seq<GuideId>>,
    Ghost(kc): Ghost<Option<Seq<u32>>>,
    Ghost(acc): Ghost<nat>,
)
    requires
        forall|x: u128| old(seen_pages)@.contains(x) <==> sp.contains(PageId(x)),
        forall|x: u128| old(seen_guides)@.contains(x) <==> sg.contains(GuideId(x)),
        known is Some <==> kc is Some,
        known is Some ==> forall|c: u32| known->0@.contains(c) <==> kc->0.contains(c),
        *old(total) == saturate(acc),
    ensures
        forall|x: u128| final(seen_pages)@.contains(x) <==> (sp + gs.page_ids()).contains(PageId(x)),
        forall|x: u128| final(seen_guides)@.contains(x) <==> (sg + guide_ids_of(gs.pages@)).contains(GuideId(x)),
        final(errors)@ == old(errors)@ + pages_errors(*gs, sp, sg, gs.pages@),
        final(warnings)@ == old(warnings)@ + match kc {
            Some(k) => pages_warnings(*gs, k, gs.pages@),
            None => Seq::<ValidationWarning>::empty(),
        },
        *final(total) == saturate(acc + pages_pixels(gs.pages@)),
{
    let ghost pages = gs.pages@;
    let ghost ids = gs.page_ids();
    let mut i: usize = 0;
    while i < gs.pages.len()
        invariant
            i <= pages.len(),
            pages == gs.pages@,
            ids == gs.page_ids(),
            known is Some <==> kc is Some,
            known is Some ==> forall|c: u32| known->0@.contains(c) <==> kc->0.contains(c),
            forall|x: u128| seen_pages@.contains(x) <==> (sp + ids.take(i as int)).contains(PageId(x)),
            forall|x: u128| seen_guides@.contains(x) <==> (sg + guide_ids_of(pages.take(i as int))).contains(GuideId(x)),
            errors@ == old(errors)@ + pages_errors(*gs, sp, sg, pages.take(i as int)),
            warnings@ == old(warnings)@ + match kc {
                Some(k) => pages_warnings(*gs, k, pages.take(i as int)),
                None => Seq::<ValidationWarning>::empty(),
            },
            *total == saturate(acc + pages_pixels(pages.take(i as int))),
        decreases pages.len() - i,
    {
        let page = &gs.pages[i];
        let ghost prev = pages.take(i as int);
        let ghost seen_p = sp + ids.take(i as int);
        let ghost seen_g = sg + guide_ids_of(prev);
        proof {
            assert(pages.take(i + 1).drop_last() =~= prev);
            assert(prev.map_values(|p: GlyphPage| p.id) =~= ids.take(i as int));
            lemma_guide_ids_step(pages, i as int);
        }
        let fresh = seen_pages.insert(page.id.0);
        if !fresh {
            errors.push(ValidationError::DuplicatePageId(page.id));
        }
        proof {
            let next = sp + ids.take(i + 1);
            assert(next =~= seen_p.push(page.id));
            assert forall|x: u128| seen_pages@.contains(x) implies next.contains(PageId(x)) by {
                if x != page.id.0 {
                    let k = choose|k: int| 0 <= k < seen_p.len() && #[trigger] seen_p[k] == PageId(x);
                    assert(next[k] == PageId(x));
                } else {
                    assert(next[seen_p.len() as int] == PageId(x));
                }
            }
            assert forall|x: u128| next.contains(PageId(x)) implies seen_pages@.contains(x) by {
                let k = choose|k: int| 0 <= k < next.len() && #[trigger] next[k] == PageId(x);
                if k < seen_p.len() {
                    assert(seen_p[k] == PageId(x));
                }
            }
            if fresh {
                assert(!seen_p.contains(page.id));
            } else {
                assert(seen_p.contains(page.id));
            }
        }
        check_guides(page, seen_guides, errors, Ghost(seen_g));
        check_glyphs(
            gs,
            page,
            known,
            errors,
            warnings,
            total,
            Ghost(kc),
            Ghost(acc + pages_pixels(prev)),
        );
        proof {
            assert(sg + guide_ids_of(pages.take(i + 1)) =~= seen_g + page.guides@.map_values(
                |g: crate::glyph_set::Guide| g.id,
            ));
            assert(acc + pages_pixels(pages.take(i + 1)) == acc + pages_pixels(prev) + glyphs_pixels(page.glyphs@));
        }
        i = i + 1;
    }
    proof {
        assert(pages.take(pages.len() as int) =~= pages);
        assert(ids.take(ids.len() as int) =~= ids);
    }
}

/// Walks the character sets: a repeated id, too many entries and repeated entry
/// codes are errors. Returns each set's codes, in order.
fn check_character_sets(
    sets: &Vec<CharacterSet>,
    limits: &Limits,
    errors: &mut Vec<ValidationError>,
) -> (code_sets: Vec<HashSet<u32>>)
    ensures
        final(errors)@ == old(errors)@ + character_sets_errors(sets@, *limits),
        code_sets@.len() == sets@.len(),
        forall|j: int, c: u32| 0 <= j < sets@.len() ==> (#[trigger] code_sets@[j]@.contains(c) <==> sets@[j].codes().contains(c)),
{
    let ghost ids = sets@.map_values(|c: CharacterSet| c.id);
    let mut seen: HashSet<u128> = HashSet::new();
    let mut code_sets: Vec<HashSet<u32>> = Vec::new();
    let mut i: usize = 0;
    while i < sets.len()
        invariant
            i <= sets@.len(),
            ids == sets@.map_values(|c: CharacterSet| c.id),
            errors@ == old(errors)@ + character_sets_errors(sets@.take(i as int), *limits),
            forall|x: u128| seen@.contains(x) <==> ids.take(i as int).contains(CharacterSetId(x)),
            code_sets@.len() == i,
            forall|j: int, c: u32| 0 <= j < i ==> (#[trigger] code_sets@[j]@.contains(c) <==> sets@[j].codes().contains(c)),
        decreases sets@.len() - i,
    {
        let cs = &sets[i];
        let ghost prev = sets@.take(i as int);
        let ghost seen_ids = ids.take(i as int);
        proof {
            assert(sets@.take(i + 1).drop_last() =~= prev);
            assert(prev.map_values(|c: CharacterSet| c.id) =~= seen_ids);
        }
        let ghost before = errors@;
        let fresh = seen.insert(cs.id.0);
        if !fresh {
            errors.push(ValidationError::DuplicateCharacterSetId(cs.id));
        }
        if cs.entries.len() as u64 > limits.max_character_slots_per_set as u64 {
            errors.push(
                ValidationError::TooManyEntries {
                    character_set: cs.id,
                    count: cs.entries.len(),
                    max: limits.max_character_slots_per_set,
                },
            );
        }
        proof {
            if fresh {
                assert(!seen_ids.contains(cs.id));
            } else {
                assert(seen_ids.contains(cs.id));
            }
            assert(errors@ == before + when(seen_ids.contains(cs.id), ValidationError::DuplicateCharacterSetId(cs.id))
                + when(
                cs.entries@.len() > limits.max_character_slots_per_set,
                ValidationError::TooManyEntries {
                    character_set: cs.id,
                    count: cs.entries@.len() as usize,
                    max: limits.max_character_slots_per_set,
                },
            ));
        }
        let codes = entry_codes(cs, errors);
        code_sets.push(codes);
        proof {
            let next = ids.take(i + 1);
            assert(next =~= seen_ids.push(cs.id));
            assert forall|x: u128| seen@.contains(x) implies next.contains(CharacterSetId(x)) by {
                if x != cs.id.0 {
                    let k = choose|k: int| 0 <= k < seen_ids.len() && #[trigger] seen_ids[k] == CharacterSetId(x);
                    assert(next[k] == CharacterSetId(x));
                } else {
                    assert(next[i as int] == CharacterSetId(x));
                }
            }
            assert forall|x: u128| next.contains(CharacterSetId(x)) implies seen@.contains(x) by {
                let k = choose|k: int| 0 <= k < next.len() && #[trigger] next[k] == CharacterSetId(x);
                if k < i {
                    assert(seen_ids[k] == CharacterSetId(x));
                }
            }
            assert(errors@ =~= old(errors)@ + character_sets_errors(sets@.take(i + 1), *limits));
        }
        i = i + 1;
    }
    proof {
        assert(sets@.take(sets@.len() as int) =~= sets@);
    }
    code_sets
}

proof fn lemma_known_codes(charsets: Seq<CharacterSet>, id: CharacterSetId)
    ensures
        known_codes(charsets, id) is Some <==> charsets.map_values(|c: CharacterSet| c.id).contains(id),
    decreases charsets.len(),
{
    let ids = charsets.map_values(|c: CharacterSet| c.id);
    if charsets.len() > 0 {
        let prev = charsets.drop_last();
        lemma_known_codes(prev, id);
        let pids = prev.map_values(|c: CharacterSet| c.id);
        assert(ids =~= pids.push(charsets.last().id));
        if pids.contains(id) {
            let k = choose|k: int| 0 <= k < pids.len() && #[trigger] pids[k] == id;
            assert(ids[k] == id);
        }
        assert(ids[ids.len() - 1] == charsets.last().id);
        if ids.contains(id) && charsets.last().id != id {
            let k = choose|k: int| 0 <= k < ids.len() && #[trigger] ids[k] == id;
            assert(pids[k] == id);
        }
    }
}

/// The index of the last character set with id `id`.
fn last_with_id(sets: &Vec<CharacterSet>, id: CharacterSetId) -> (r: Option<usize>)
    ensures
        match r {
            Some(j) => j < sets@.len() && known_codes(sets@, id) == Some(sets@[j as int].codes()),
            None => known_codes(sets@, id) is None,
        },
{
    let mut k: usize = sets.len();
    proof {
        assert(sets@.take(k as int) =~= sets@);
    }
    while k > 0
        invariant
            k <= sets@.len(),
            known_codes(sets@, id) == known_codes(sets@.take(k as int), id),
        decreases k,
    {
        proof {
            assert(sets@.take(k as int).drop_last() =~= sets@.take(k - 1));
        }
        if sets[k - 1].id == id {
            return Some(k - 1);
        }
        k = k - 1;
    }
    None
}

/// Walks one glyph set, given the glyph sets before it: a repeated id, an invalid
/// size, an unknown character set and too many pages are errors, then its pages
/// are walked.
fn check_glyph_set(
    charsets: &Vec<CharacterSet>,
    code_sets: &Vec<HashSet<u32>>,
    gs: &GlyphSet,
    limits: &Limits,
    seen_sets: &mut HashSet<u128>,
    seen_pages: &mut HashSet<u128>,
    seen_guides: &mut HashSet<u128>,
    errors: &mut Vec<ValidationError>,
    warnings: &mut Vec<ValidationWarning>,
    total: &mut u64,
    Ghost(prev): Ghost<Seq<GlyphSet>>,
)
    requires
        code_sets@.len() == charsets@.len(),
        forall|j: int, c: u32| 0 <= j < charsets@.len() ==> (#[trigger] code_sets@[j]@.contains(c) <==> charsets@[j].codes().contains(c)),
        forall|x: u128| old(seen_sets)@.contains(x) <==> prev.map_values(|g: GlyphSet| g.id).contains(GlyphSetId(x)),
        forall|x: u128| old(seen_pages)@.contains(x) <==> all_page_ids(prev).contains(PageId(x)),
        forall|x: u128| old(seen_guides)@.contains(x) <==> all_guide_ids(prev).contains(GuideId(x)),
        *old(total) == saturate(sets_pixels(prev)),
    ensures
        forall|x: u128| final(seen_sets)@.contains(x) <==> prev.push(*gs).map_values(|g: GlyphSet| g.id).contains(GlyphSetId(x)),
        forall|x: u128| final(seen_pages)@.contains(x) <==> all_page_ids(prev.push(*gs)).contains(PageId(x)),
        forall|x: u128| final(seen_guides)@.contains(x) <==> all_guide_ids(prev.push(*gs)).contains(GuideId(x)),
        final(errors)@ == old(errors)@ + glyph_set_errors(charsets@, prev, *gs, *limits),
        final(warnings)@ == old(warnings)@ + match known_codes(charsets@, gs.character_set_id) {
            Some(known) => pages_warnings(*gs, known, gs.pages@),
            None => Seq::<ValidationWarning>::empty(),
        },
        *final(total) == saturate(sets_pixels(prev.push(*gs))),
{
    let ghost seen_ids = prev.map_values(|g: GlyphSet| g.id);
    proof {
        lemma_known_codes(charsets@, gs.character_set_id);
        assert(prev.push(*gs).drop_last() =~= prev);
    }
    let ghost before = errors@;
    let fresh = seen_sets.insert(gs.id.0);
    if !fresh {
        errors.push(ValidationError::DuplicateGlyphSetId(gs.id));
    }
    match gs.glyph_size.validate(limits) {
        Err(source) => {
            errors.push(ValidationError::GlyphSizeInvalid { glyph_set: gs.id, source });
        },
        Ok(()) => {},
    }
    let found = last_with_id(charsets, gs.character_set_id);
    if found.is_none() {
        errors.push(
            ValidationError::UnknownCharacterSet { glyph_set: gs.id, character_set: gs.character_set_id },
        );
    }
    if gs.pages.len() as u64 > limits.max_pages_per_glyph_set as u64 {
        errors.push(
            ValidationError::TooManyPages {
                glyph_set: gs.id,
                count: gs.pages.len(),
                max: limits.max_pages_per_glyph_set,
            },
        );
    }
    proof {
        if fresh {
            assert(!seen_ids.contains(gs.id));
        } else {
            assert(seen_ids.contains(gs.id));
        }
        let next = prev.push(*gs).map_values(|g: GlyphSet| g.id);
        assert(next =~= seen_ids.push(gs.id));
        assert forall|x: u128| seen_sets@.contains(x) implies next.contains(GlyphSetId(x)) by {
            if x != gs.id.0 {
                let k = choose|k: int| 0 <= k < seen_ids.len() && #[trigger] seen_ids[k] == GlyphSetId(x);
                assert(next[k] == GlyphSetId(x));
            } else {
                assert(next[seen_ids.len() as int] == GlyphSetId(x));
            }
        }
        assert forall|x: u128| next.contains(GlyphSetId(x)) implies seen_sets@.contains(x) by {
            let k = choose|k: int| 0 <= k < next.len() && #[trigger] next[k] == GlyphSetId(x);
            if k < seen_ids.len() {
                assert(seen_ids[k] == GlyphSetId(x));
            }
        }
    }
    let ghost header = errors@;
    let known = match found {
        Some(j) => Some(&code_sets[j]),
        None => None,
    };
    let ghost kc = known_codes(charsets@, gs.character_set_id);
    check_pages(
        gs,
        known,
        seen_pages,
        seen_guides,
        errors,
        warnings,
        total,
        Ghost(all_page_ids(prev)),
        Ghost(all_guide_ids(prev)),
        Ghost(kc),
        Ghost(sets_pixels(prev)),
    );
    proof {
        assert(header =~= before + when(seen_ids.contains(gs.id), ValidationError::DuplicateGlyphSetId(gs.id))
            + match glyph_size_check(gs.glyph_size, *limits) {
            Err(e) => seq![ValidationError::GlyphSizeInvalid { glyph_set: gs.id, source: e }],
            Ok(()) => Seq::empty(),
        } + when(
            !charsets@.map_values(|c: CharacterSet| c.id).contains(gs.character_set_id),
            ValidationError::UnknownCharacterSet { glyph_set: gs.id, character_set: gs.character_set_id },
        ) + when(
            gs.pages@.len() > limits.max_pages_per_glyph_set,
            ValidationError::TooManyPages {
                glyph_set: gs.id,
                count: gs.pages@.len() as usize,
                max: limits.max_pages_per_glyph_set,
            },
        ));
        assert(errors@ =~= old(errors)@ + glyph_set_errors(charsets@, prev, *gs, *limits));
    }
}

/// Walks the glyph sets in order. Returns the total pixel count, saturated.
fn check_glyph_sets(
    charsets: &Vec<CharacterSet>,
    code_sets: &Vec<HashSet<u32>>,
    sets: &Vec<GlyphSet>,
    limits: &Limits,
    errors: &mut Vec<ValidationError>,
    warnings: &mut Vec<ValidationWarning>,
) -> (total: u64)
    requires
        code_sets@.len() == charsets@.len(),
        forall|j: int, c: u32| 0 <= j < charsets@.len() ==> (#[trigger] code_sets@[j]@.contains(c) <==> charsets@[j].codes().contains(c)),
    ensures
        final(errors)@ == old(errors)@ + glyph_sets_errors(charsets@, sets@, *limits),
        final(warnings)@ == old(warnings)@ + glyph_sets_warnings(charsets@, sets@),
        total == saturate(sets_pixels(sets@)),
{
    let mut seen_sets: HashSet<u128> = HashSet::new();
    let mut seen_pages: HashSet<u128> = HashSet::new();
    let mut seen_guides: HashSet<u128> = HashSet::new();
    let mut total: u64 = 0;
    let mut i: usize = 0;
    while i < sets.len()
        invariant
            i <= sets@.len(),
            code_sets@.len() == charsets@.len(),
            forall|j: int, c: u32| 0 <= j < charsets@.len() ==> (#[trigger] code_sets@[j]@.contains(c) <==> charsets@[j].codes().contains(c)),
            forall|x: u128| seen_sets@.contains(x) <==> sets@.take(i as int).map_values(|g: GlyphSet| g.id).contains(GlyphSetId(x)),
            forall|x: u128| seen_pages@.contains(x) <==> all_page_ids(sets@.take(i as int)).contains(PageId(x)),
            forall|x: u128| seen_guides@.contains(x) <==> all_guide_ids(sets@.take(i as int)).contains(GuideId(x)),
            errors@ == old(errors)@ + glyph_sets_errors(charsets@, sets@.take(i as int), *limits),
            warnings@ == old(warnings)@ + glyph_sets_warnings(charsets@, sets@.take(i as int)),
            total == saturate(sets_pixels(sets@.take(i as int))),
        decreases sets@.len() - i,
    {
        let ghost prev = sets@.take(i as int);
        proof {
            assert(sets@.take(i + 1) =~= prev.push(sets@[i as int]));
            assert(sets@.take(i + 1).drop_last() =~= prev);
        }
        check_glyph_set(
            charsets,
            code_sets,
            &sets[i],
            limits,
            &mut seen_sets,
            &mut seen_pages,
            &mut seen_guides,
            errors,
            warnings,
            &mut total,
            Ghost(prev),
        );
        i = i + 1;
    }
    proof {
        assert(sets@.take(sets@.len() as int) =~= sets@);
    }
    total
}


/// Walks the export configs, reporting each id seen before.
fn check_export_configs(configs: &Vec<crate::export_config::ExportConfig>, errors: &mut Vec<ValidationError>)
    ensures
        final(errors)@ == old(errors)@ + export_config_errors(configs@),
{
    let ghost ids = configs@.map_values(|c: crate::export_config::ExportConfig| c.id);
    let ghost f = |id: ExportConfigId| ValidationError::DuplicateExportConfigId(id);
    let mut seen: HashSet<u128> = HashSet::new();
    let mut i: usize = 0;
    while i < configs.len()
        invariant
            i <= configs@.len(),
            ids == configs@.map_values(|c: crate::export_config::ExportConfig| c.id),
            f == (|id: ExportConfigId| ValidationError::DuplicateExportConfigId(id)),
            forall|x: u128| seen@.contains(x) <==> ids.take(i as int).contains(ExportConfigId(x)),
            errors@ == old(errors)@ + repeats(Seq::empty(), ids.take(i as int)).map_values(f),
        decreases configs@.len() - i,
    {
        let id = configs[i].id;
        let ghost prev = ids.take(i as int);
        proof {
            lemma_repeats_step(Seq::<ExportConfigId>::empty(), ids, i as int);
            assert(Seq::<ExportConfigId>::empty() + prev =~= prev);
            lemma_map_append(repeats(Seq::empty(), prev), when(prev.contains(id), id), f);
            assert(when(prev.contains(id), id).map_values(f) =~= when(prev.contains(id), f(id)));
        }
        let fresh = seen.insert(id.0);
        if !fresh {
            errors.push(ValidationError::DuplicateExportConfigId(id));
        }
        proof {
            let next = ids.take(i + 1);
            assert(next =~= prev.push(id));
            assert forall|x: u128| seen@.contains(x) implies next.contains(ExportConfigId(x)) by {
                if x != id.0 {
                    let k = choose|k: int| 0 <= k < prev.len() && #[trigger] prev[k] == ExportConfigId(x);
                    assert(next[k] == ExportConfigId(x));
                } else {
                    assert(next[i as int] == ExportConfigId(x));
                }
            }
            assert forall|x: u128| next.contains(ExportConfigId(x)) implies seen@.contains(x) by {
                let k = choose|k: int| 0 <= k < next.len() && #[trigger] next[k] == ExportConfigId(x);
                if k < i {
                    assert(prev[k] == ExportConfigId(x));
                }
            }
            if fresh {
                assert(!prev.contains(id));
            } else {
                assert(prev.contains(id));
            }
        }
        i = i + 1;
    }
    proof {
        assert(ids.take(ids.len() as int) =~= ids);
    }
}

impl FontSpace {
    /// Validates the whole document against the structural invariants and
    /// `limits`. Never mutates; collects every problem rather than stopping at the
    /// first.
    pub fn validate(&self, limits: &Limits) -> (report: ValidationReport)
        ensures
            report.errors@ == validation_errors(*self, *limits),
            report.warnings@ == validation_warnings(*self),
    {
        let mut errors: Vec<ValidationError> = Vec::new();
        let mut warnings: Vec<ValidationWarning> = Vec::new();
        if self.format_version != CURRENT_FORMAT_VERSION {
            errors.push(
                ValidationError::UnsupportedFormatVersion {
                    found: self.format_version,
                    supported: CURRENT_FORMAT_VERSION,
                },
            );
        }
        let ghost e0 = errors@;
        let code_sets = check_character_sets(&self.character_sets, limits, &mut errors);
        let ghost e1 = errors@;
        let total = check_glyph_sets(
            &self.character_sets,
            &code_sets,
            &self.glyph_sets,
            limits,
            &mut errors,
            &mut warnings,
        );
        let ghost e2 = errors@;
        check_export_configs(&self.export_configs, &mut errors);
        let ghost e3 = errors@;
        if total > limits.max_total_glyph_pixels_per_document {
            errors.push(
                ValidationError::TotalGlyphPixelsExceeded {
                    count: total,
                    max: limits.max_total_glyph_pixels_per_document,
                },
            );
        }
        proof {
            assert(errors@ =~= validation_errors(*self, *limits));
        }
        ValidationReport { errors, warnings }
    }
}

// ---- messages ----

/// A typed id as text: the type's name and the UUID in parentheses.
pub open spec fn id_text(name: Seq<char>, u: u128) -> Seq<char> {
    name + "("@ + uuid_text(u) + ")"@
}

/// A character code as text: `0x` and at least four lowercase hex digits.
pub open spec fn code_text(code: u32) -> Seq<char> {
    "0x"@ + zero_padded(hex(code as nat, false), 4)
}

fn push_id(t: &mut String, name: &str, u: u128)
    ensures
        final(t)@ == old(t)@ + id_text(name@, u),
{
    push_str(t, name);
    push_str(t, "(");
    let text = uuid_string(u);
    push_str(t, text.as_str());
    push_str(t, ")");
    proof {
        assert(final(t)@ =~= old(t)@ + id_text(name@, u));
    }
}

fn push_code(t: &mut String, code: u32)
    ensures
        final(t)@ == old(t)@ + code_text(code),
{
    push_str(t, "0x");
    push_hex_padded(t, code as u64, 4, false);
    proof {
        assert(final(t)@ =~= old(t)@ + code_text(code));
    }
}

/// The explanation of a validation error, naming the objects it concerns.
pub open spec fn error_text(e: ValidationError) -> Seq<char> {
    match e {
        ValidationError::UnsupportedFormatVersion { found, supported } => "unsupported document format_version "@
            + decimal(found as nat) + "; this build supports "@ + decimal(supported as nat),
        ValidationError::DuplicateCharacterSetId(id) => "duplicate character set id "@ + id_text(
            "CharacterSetId"@,
            id.0,
        ),
        ValidationError::DuplicateGlyphSetId(id) => "duplicate glyph set id "@ + id_text("GlyphSetId"@, id.0),
        ValidationError::DuplicatePageId(id) => "duplicate page id "@ + id_text("PageId"@, id.0),
        ValidationError::DuplicateGuideId(id) => "duplicate guide id "@ + id_text("GuideId"@, id.0),
        ValidationError::DuplicateExportConfigId(id) => "duplicate export config id "@ + id_text(
            "ExportConfigId"@,
            id.0,
        ),
        ValidationError::UnknownCharacterSet { glyph_set, character_set } => "glyph set "@ + id_text(
            "GlyphSetId"@,
            glyph_set.0,
        ) + " references unknown character set "@ + id_text("CharacterSetId"@, character_set.0),
        ValidationError::DuplicateEntryCode { character_set, code } => "character set "@ + id_text(
            "CharacterSetId"@,
            character_set.0,
        ) + ": duplicate entry code "@ + code_text(code),
        ValidationError::GlyphSizeInvalid { glyph_set, source } => "glyph set "@ + id_text(
            "GlyphSetId"@,
            glyph_set.0,
        ) + ": invalid glyph size ("@ + size_error_text(source) + ")"@,
        ValidationError::GlyphSizeMismatch { glyph_set, page, code, expected, found } => "glyph set "@
            + id_text("GlyphSetId"@, glyph_set.0) + " / page "@ + id_text("PageId"@, page.0) + " / code "@
            + code_text(code) + ": bitmap is "@ + size_text(found) + ", expected "@ + size_text(expected),
        ValidationError::DuplicateGlyphCode { glyph_set, page, code } => "glyph set "@ + id_text(
            "GlyphSetId"@,
            glyph_set.0,
        ) + " / page "@ + id_text("PageId"@, page.0) + ": duplicate glyph for code "@ + code_text(code),
        ValidationError::TooManyEntries { character_set, count, max } => "character set "@ + id_text(
            "CharacterSetId"@,
            character_set.0,
        ) + " has "@ + decimal(count as nat) + " entries, exceeding the limit of "@ + decimal(max as nat),
        ValidationError::TooManyPages { glyph_set, count, max } => "glyph set "@ + id_text(
            "GlyphSetId"@,
            glyph_set.0,
        ) + " has "@ + decimal(count as nat) + " pages, exceeding the limit of "@ + decimal(max as nat),
        ValidationError::TotalGlyphPixelsExceeded { count, max } => "document has "@ + decimal(count as nat)
            + " total glyph pixels, exceeding the limit of "@ + decimal(max as nat),
    }
}

/// The explanation of a validation warning.
pub open spec fn warning_text(w: ValidationWarning) -> Seq<char> {
    match w {
        ValidationWarning::DanglingGlyph { glyph_set, page, code } => "dangling glyph: glyph set "@ + id_text(
            "GlyphSetId"@,
            glyph_set.0,
        ) + " / page "@ + id_text("PageId"@, page.0) + " / code "@ + code_text(code)
            + " has no character-set entry"@,
    }
}

impl ValidationError {
    /// The explanation of this error, naming the objects it concerns.
    pub fn message(&self) -> (t: String)
        ensures
            t@ == error_text(*self),
    {
        let mut t = String::new();
        match self {
            ValidationError::UnsupportedFormatVersion { found, supported } => {
                push_str(&mut t, "unsupported document format_version ");
                push_decimal(&mut t, *found as u64);
                push_str(&mut t, "; this build supports ");
                push_decimal(&mut t, *supported as u64);
            },
            ValidationError::DuplicateCharacterSetId(id) => {
                push_str(&mut t, "duplicate character set id ");
                push_id(&mut t, "CharacterSetId", id.0);
            },
            ValidationError::DuplicateGlyphSetId(id) => {
                push_str(&mut t, "duplicate glyph set id ");
                push_id(&mut t, "GlyphSetId", id.0);
            },
            ValidationError::DuplicatePageId(id) => {
                push_str(&mut t, "duplicate page id ");
                push_id(&mut t, "PageId", id.0);
            },
            ValidationError::DuplicateGuideId(id) => {
                push_str(&mut t, "duplicate guide id ");
                push_id(&mut t, "GuideId", id.0);
            },
            ValidationError::DuplicateExportConfigId(id) => {
                push_str(&mut t, "duplicate export config id ");
                push_id(&mut t, "ExportConfigId", id.0);
            },
            ValidationError::UnknownCharacterSet { glyph_set, character_set } => {
                push_str(&mut t, "glyph set ");
                push_id(&mut t, "GlyphSetId", glyph_set.0);
                push_str(&mut t, " references unknown character set ");
                push_id(&mut t, "CharacterSetId", character_set.0);
            },
            ValidationError::DuplicateEntryCode { character_set, code } => {
                push_str(&mut t, "character set ");
                push_id(&mut t, "CharacterSetId", character_set.0);
                push_str(&mut t, ": duplicate entry code ");
                push_code(&mut t, *code);
            },
            ValidationError::GlyphSizeInvalid { glyph_set, source } => {
                push_str(&mut t, "glyph set ");
                push_id(&mut t, "GlyphSetId", glyph_set.0);
                push_str(&mut t, ": invalid glyph size (");
                source.write_message(&mut t);
                push_str(&mut t, ")");
            },
            ValidationError::GlyphSizeMismatch { glyph_set, page, code, expected, found } => {
                push_str(&mut t, "glyph set ");
                push_id(&mut t, "GlyphSetId", glyph_set.0);
                push_str(&mut t, " / page ");
                push_id(&mut t, "PageId", page.0);
                push_str(&mut t, " / code ");
                push_code(&mut t, *code);
                push_str(&mut t, ": bitmap is ");
                let f = found.describe();
                push_str(&mut t, f.as_str());
                push_str(&mut t, ", expected ");
                let e = expected.describe();
                push_str(&mut t, e.as_str());
            },
            ValidationError::DuplicateGlyphCode { glyph_set, page, code } => {
                push_str(&mut t, "glyph set ");
                push_id(&mut t, "GlyphSetId", glyph_set.0);
                push_str(&mut t, " / page ");
                push_id(&mut t, "PageId", page.0);
                push_str(&mut t, ": duplicate glyph for code ");
                push_code(&mut t, *code);
            },
            ValidationError::TooManyEntries { character_set, count, max } => {
                push_str(&mut t, "character set ");
                push_id(&mut t, "CharacterSetId", character_set.0);
                push_str(&mut t, " has ");
                push_decimal(&mut t, *count as u64);
                push_str(&mut t, " entries, exceeding the limit of ");
                push_decimal(&mut t, *max as u64);
            },
            ValidationError::TooManyPages { glyph_set, count, max } => {
                push_str(&mut t, "glyph set ");
                push_id(&mut t, "GlyphSetId", glyph_set.0);
                push_str(&mut t, " has ");
                push_decimal(&mut t, *count as u64);
                push_str(&mut t, " pages, exceeding the limit of ");
                push_decimal(&mut t, *max as u64);
            },
            ValidationError::TotalGlyphPixelsExceeded { count, max } => {
                push_str(&mut t, "document has ");
                push_decimal(&mut t, *count);
                push_str(&mut t, " total glyph pixels, exceeding the limit of ");
                push_decimal(&mut t, *max);
            },
        }
        proof {
            assert(t@ =~= error_text(*self));
        }
        t
    }
}

impl ValidationWarning {
    /// The explanation of this warning.
    pub fn message(&self) -> (t: String)
        ensures
            t@ == warning_text(*self),
    {
        let mut t = String::new();
        match self {
            ValidationWarning::DanglingGlyph { glyph_set, page, code } => {
                push_str(&mut t, "dangling glyph: glyph set ");
                push_id(&mut t, "GlyphSetId", glyph_set.0);
                push_str(&mut t, " / page ");
                push_id(&mut t, "PageId", page.0);
                push_str(&mut t, " / code ");
                push_code(&mut t, *code);
                push_str(&mut t, " has no character-set entry");
            },
        }
        proof {
            assert(t@ =~= warning_text(*self));
        }
        t
    }
}
} // verus!
