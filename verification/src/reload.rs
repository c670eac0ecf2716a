//! What saving writes, loading accepts: the canonical stored form of a valid
//! document reads back without a malformed value, and the document it reads back
//! as is valid again, so loading what was saved succeeds.

use vstd::prelude::*;

use crate::document::FontSpace;
use crate::export_config::ExportConfig;
use crate::geometry::GlyphSize;
use crate::glyph_set::{Glyph, GlyphPage, GlyphSet};
use crate::ids::uuid_text;
use crate::limits::Limits;
use crate::persist::{
    canonical_glyphs, character_set_check, decodes, document_failure, encodes, encodes_character_set,
    encodes_export_config, encodes_glyph, encodes_glyph_set, encodes_page, entries_failure, entry_order,
    export_config_check, glyph_check, glyph_set_check, glyph_rank, guide_check, insert_position,
    lemma_first_failure_none, lemma_insert_position_bound, page_check, page_context, source_page_check,
    stored_size, uuid_failure,
};
use crate::pixels::{code_value, row_text, rows_chars, rows_result, RowError};
use crate::storage::{StoredCharacterEntry, StoredExportConfig, StoredGlyph, StoredGlyphPage, StoredGlyphSet};
use crate::validation::{
    all_guide_ids, all_page_ids, bitmap_size, glyph_sets_errors, glyphs_errors, guide_ids_of, page_errors, pages_errors,
    validation_errors,
};

verus! {

/// No two glyphs of `s` share a code.
pub open spec fn codes_distinct(s: Seq<Glyph>) -> bool {
    forall|i: int, j: int| 0 <= i < j < s.len() ==> (#[trigger] s[i]).code != (#[trigger] s[j]).code
}

/// Every glyph of `s` has a bitmap of `size`, and no two share a code: what
/// validation asks of a page's glyphs.
pub open spec fn glyphs_fit(size: GlyphSize, s: Seq<Glyph>) -> bool {
    &&& forall|i: int| 0 <= i < s.len() ==> bitmap_size(#[trigger] s[i]) == size
    &&& codes_distinct(s)
}

proof fn lemma_glyphs_errors_empty(gs: GlyphSet, page: GlyphPage, glyphs: Seq<Glyph>)
    ensures
        glyphs_errors(gs, page, glyphs).len() == 0 <==> glyphs_fit(gs.glyph_size, glyphs),
    decreases glyphs.len(),
{
    if glyphs.len() > 0 {
        let before = glyphs.drop_last();
        let g = glyphs.last();
        lemma_glyphs_errors_empty(gs, page, before);
        let codes = before.map_values(|x: Glyph| x.code);
        assert(codes.contains(g.code) <==> exists|k: int| 0 <= k < before.len() && (#[trigger] before[k]).code == g.code) by {
            if codes.contains(g.code) {
                let k = choose|k: int| 0 <= k < codes.len() && codes[k] == g.code;
                assert(before[k].code == g.code);
            }
            if exists|k: int| 0 <= k < before.len() && (#[trigger] before[k]).code == g.code {
                let k = choose|k: int| 0 <= k < before.len() && (#[trigger] before[k]).code == g.code;
                assert(codes[k] == g.code);
            }
        }
        if glyphs_fit(gs.glyph_size, glyphs) {
            assert(glyphs_fit(gs.glyph_size, before)) by {
                assert forall|i: int| 0 <= i < before.len() implies bitmap_size(#[trigger] before[i]) == gs.glyph_size by {
                    assert(before[i] == glyphs[i]);
                }
                assert forall|i: int, j: int| 0 <= i < j < before.len() implies (#[trigger] before[i]).code != (
                #[trigger] before[j]).code by {
                    assert(before[i] == glyphs[i] && before[j] == glyphs[j]);
                }
            }
            assert(bitmap_size(glyphs[glyphs.len() - 1]) == gs.glyph_size);
            assert forall|k: int| 0 <= k < before.len() implies (#[trigger] before[k]).code != g.code by {
                assert(before[k] == glyphs[k]);
                assert(glyphs[k].code != glyphs[glyphs.len() - 1].code);
            }
        }
        if glyphs_errors(gs, page, glyphs).len() == 0 {
            assert forall|i: int| 0 <= i < glyphs.len() implies bitmap_size(#[trigger] glyphs[i]) == gs.glyph_size by {
                if i < before.len() {
                    assert(before[i] == glyphs[i]);
                }
            }
            assert forall|i: int, j: int| 0 <= i < j < glyphs.len() implies (#[trigger] glyphs[i]).code != (
            #[trigger] glyphs[j]).code by {
                assert(before[i] == glyphs[i]);
                if j < before.len() {
                    assert(before[j] == glyphs[j]);
                } else {
                    assert(!(exists|k: int| 0 <= k < before.len() && (#[trigger] before[k]).code == g.code));
                }
            }
        }
    }
}

proof fn lemma_pages_errors_glyphs(gs: GlyphSet, seen_pages: Seq<crate::ids::PageId>, seen_guides: Seq<crate::ids::GuideId>, pages: Seq<GlyphPage>)
    requires
        pages_errors(gs, seen_pages, seen_guides, pages).len() == 0,
    ensures
        forall|j: int| 0 <= j < pages.len() ==> glyphs_errors(gs, #[trigger] pages[j], pages[j].glyphs@).len() == 0,
    decreases pages.len(),
{
    if pages.len() > 0 {
        let before = pages.drop_last();
        lemma_pages_errors_glyphs(gs, seen_pages, seen_guides, before);
        assert forall|j: int| 0 <= j < pages.len() implies glyphs_errors(gs, #[trigger] pages[j], pages[j].glyphs@).len()
            == 0 by {
            if j < before.len() {
                assert(before[j] == pages[j]);
            }
        }
    }
}

#[verifier::spinoff_prover]
#[verifier::rlimit(40)]
proof fn lemma_glyph_sets_errors_glyphs(charsets: Seq<crate::character_set::CharacterSet>, sets: Seq<GlyphSet>, limits: Limits)
    requires
        glyph_sets_errors(charsets, sets, limits).len() == 0,
    ensures
        forall|i: int, j: int|
            0 <= i < sets.len() && 0 <= j < sets[i].pages@.len() ==> glyphs_fit(
                sets[i].glyph_size,
                (#[trigger] sets[i].pages@[j]).glyphs@,
            ),
    decreases sets.len(),
{
    if sets.len() > 0 {
        let before = sets.drop_last();
        let last = sets.last();
        let pe = pages_errors(
            last,
            crate::validation::all_page_ids(before),
            crate::validation::all_guide_ids(before),
            last.pages@,
        );
        assert(glyph_sets_errors(charsets, before, limits).len() == 0 && pe.len() == 0) by {
            let ge = crate::validation::glyph_set_errors(charsets, before, last, limits);
            assert(glyph_sets_errors(charsets, sets, limits) == glyph_sets_errors(charsets, before, limits) + ge);
            assert(pe.len() <= ge.len());
        }
        lemma_glyph_sets_errors_glyphs(charsets, before, limits);
        lemma_pages_errors_glyphs(
            last,
            crate::validation::all_page_ids(before),
            crate::validation::all_guide_ids(before),
            last.pages@,
        );
        assert forall|i: int, j: int| 0 <= i < sets.len() && 0 <= j < sets[i].pages@.len() implies glyphs_fit(
            sets[i].glyph_size,
            (#[trigger] sets[i].pages@[j]).glyphs@,
        ) by {
            if i < before.len() {
                assert(before[i] == sets[i]);
                assert(glyphs_fit(before[i].glyph_size, before[i].pages@[j].glyphs@));
            } else {
                assert(glyphs_errors(last, last.pages@[j], last.pages@[j].glyphs@).len() == 0);
                lemma_glyphs_errors_empty(last, last.pages@[j], last.pages@[j].glyphs@);
            }
        }
    }
}

/// Every glyph of the canonical order is a glyph of the page, and distinct codes
/// stay distinct.
proof fn lemma_canonical_members(glyphs: Seq<Glyph>, order: Seq<u32>)
    ensures
        forall|i: int| 0 <= i < canonical_glyphs(glyphs, order).len() ==> glyphs.contains(
            #[trigger] canonical_glyphs(glyphs, order)[i],
        ),
        codes_distinct(glyphs) ==> codes_distinct(canonical_glyphs(glyphs, order)),
    decreases glyphs.len(),
{
    if glyphs.len() > 0 {
        let d = glyphs.drop_last();
        let before = canonical_glyphs(d, order);
        let g = glyphs.last();
        lemma_canonical_members(d, order);
        let canon = canonical_glyphs(glyphs, order);
        assert forall|x: Glyph| d.contains(x) implies glyphs.contains(x) by {
            let j = choose|j: int| 0 <= j < d.len() && d[j] == x;
            assert(glyphs[j] == x);
        }
        if codes_distinct(glyphs) {
            assert(codes_distinct(d)) by {
                assert forall|i: int, j: int| 0 <= i < j < d.len() implies (#[trigger] d[i]).code != (#[trigger] d[j]).code by {
                    assert(d[i] == glyphs[i] && d[j] == glyphs[j]);
                }
            }
        }
        if g.bitmap@.is_blank() {
            assert(canon == before);
            assert forall|i: int| 0 <= i < canon.len() implies glyphs.contains(#[trigger] canon[i]) by {
                assert(d.contains(before[i]));
            }
        } else {
            let pos = insert_position(before, glyph_rank(g, order), order);
            lemma_insert_position_bound(before, glyph_rank(g, order), order);
            before.insert_ensures(pos, g);
            assert(canon == before.insert(pos, g));
            assert(glyphs[glyphs.len() - 1] == g);
            assert forall|i: int| 0 <= i < canon.len() implies glyphs.contains(#[trigger] canon[i]) by {
                if i < pos {
                    assert(d.contains(before[i]));
                } else if i > pos {
                    assert(d.contains(before[i - 1]));
                }
            }
            if codes_distinct(glyphs) {
                assert forall|k: int| 0 <= k < before.len() implies (#[trigger] before[k]).code != g.code by {
                    assert(d.contains(before[k]));
                    let j = choose|j: int| 0 <= j < d.len() && d[j] == before[k];
                    assert(glyphs[j] == before[k]);
                }
                assert forall|i: int, j: int| 0 <= i < j < canon.len() implies (#[trigger] canon[i]).code != (
                #[trigger] canon[j]).code by {
                    if j < pos {
                        assert(canon[i] == before[i] && canon[j] == before[j]);
                    } else if j == pos {
                        assert(canon[i] == before[i]);
                    } else if i < pos {
                        assert(canon[i] == before[i] && canon[j] == before[j - 1]);
                    } else if i == pos {
                        assert(canon[j] == before[j - 1]);
                    } else {
                        assert(canon[i] == before[i - 1] && canon[j] == before[j - 1]);
                    }
                }
            }
        }
    }
}

/// The canonical order of glyphs that fit a size fits it too.
proof fn lemma_canonical_fits(size: GlyphSize, glyphs: Seq<Glyph>, order: Seq<u32>)
    requires
        glyphs_fit(size, glyphs),
    ensures
        glyphs_fit(size, canonical_glyphs(glyphs, order)),
{
    lemma_canonical_members(glyphs, order);
    let canon = canonical_glyphs(glyphs, order);
    assert forall|i: int| 0 <= i < canon.len() implies bitmap_size(#[trigger] canon[i]) == size by {
        assert(glyphs.contains(canon[i]));
        let j = choose|j: int| 0 <= j < glyphs.len() && glyphs[j] == canon[i];
        assert(bitmap_size(glyphs[j]) == size);
    }
}

/// A stored glyph of a glyph that has the glyph set's size reads back as that glyph.
proof fn lemma_stored_glyph_reads(s: StoredGlyph, g: Glyph, size: GlyphSize)
    requires
        encodes_glyph(s, g),
        bitmap_size(g) == size,
    ensures
        code_value(s.code@) == Some(g.code),
        rows_result(rows_chars(s.pixels@), size) == Ok::<crate::bitmap::BitmapView, RowError>(g.bitmap@),
{
    crate::pixels::law_code_round_trip(g.code);
    let v = g.bitmap@;
    assert(v.wf());
    let rows = rows_chars(s.pixels@);
    assert(rows =~= crate::pixels::view_rows(v)) by {
        assert forall|y: int| 0 <= y < rows.len() implies rows[y] == crate::pixels::view_rows(v)[y] by {
            assert(s.pixels@[y]@ == row_text(v.rows[y]));
        }
    }
    crate::pixels::law_rows_round_trip(v);
}

proof fn lemma_entries_read(ctx: Seq<char>, entries: Seq<StoredCharacterEntry>)
    requires
        forall|k: int| 0 <= k < entries.len() ==> code_value((#[trigger] entries[k]).code@) is Some,
    ensures
        entries_failure(ctx, entries) is None,
    decreases entries.len(),
{
    if entries.len() > 0 {
        let before = entries.drop_last();
        assert forall|k: int| 0 <= k < before.len() implies code_value((#[trigger] before[k]).code@) is Some by {
            assert(before[k] == entries[k]);
        }
        lemma_entries_read(ctx, before);
        assert(code_value(entries[entries.len() - 1].code@) is Some);
    }
}

proof fn lemma_canonical_uuid_reads(ctx: Seq<char>, u: u128)
    ensures
        uuid_failure(ctx, uuid_text(u)) is None,
{
    assert(exists|w: u128| #[trigger] uuid_text(w) == uuid_text(u));
}

proof fn lemma_page_reads(s: StoredGlyphPage, p: GlyphPage, order: Seq<u32>, gs_name: Seq<char>, size: GlyphSize)
    requires
        encodes_page(s, p, order),
        glyphs_fit(size, p.glyphs@),
    ensures
        page_check(gs_name, size)(s) is None,
{
    let pctx = page_context(gs_name, s.name@);
    lemma_canonical_uuid_reads(pctx, p.id.0);
    let gcheck = guide_check(pctx);
    assert forall|k: int| 0 <= k < s.guides@.len() implies (#[trigger] gcheck(s.guides@[k])) is None by {
        lemma_canonical_uuid_reads(pctx + " / guide "@ + crate::persist::debug_text(s.guides@[k].name@), p.guides@[k].id.0);
    }
    lemma_first_failure_none(s.guides@, gcheck);
    let canon = canonical_glyphs(p.glyphs@, order);
    lemma_canonical_fits(size, p.glyphs@, order);
    let ycheck = glyph_check(pctx, size);
    assert forall|k: int| 0 <= k < s.glyphs@.len() implies (#[trigger] ycheck(s.glyphs@[k])) is None by {
        assert(encodes_glyph(s.glyphs@[k], canon[k]));
        assert(bitmap_size(canon[k]) == size);
        lemma_stored_glyph_reads(s.glyphs@[k], canon[k], size);
    }
    lemma_first_failure_none(s.glyphs@, ycheck);
}

proof fn lemma_glyph_set_reads(s: StoredGlyphSet, gs: GlyphSet, doc: FontSpace)
    requires
        encodes_glyph_set(s, gs, doc),
        forall|j: int| 0 <= j < gs.pages@.len() ==> glyphs_fit(gs.glyph_size, (#[trigger] gs.pages@[j]).glyphs@),
    ensures
        glyph_set_check()(s) is None,
{
    let ctx = crate::persist::glyph_set_context(s);
    lemma_canonical_uuid_reads(ctx, gs.id.0);
    lemma_canonical_uuid_reads(ctx + " character_set_id"@, gs.character_set_id.0);
    assert(stored_size(s) == gs.glyph_size);
    let pcheck = page_check(s.name@, stored_size(s));
    assert forall|j: int| 0 <= j < s.pages@.len() implies (#[trigger] pcheck(s.pages@[j])) is None by {
        assert(encodes_page(s.pages@[j], gs.pages@[j], entry_order(doc, gs)));
        assert(glyphs_fit(gs.glyph_size, gs.pages@[j].glyphs@));
        lemma_page_reads(s.pages@[j], gs.pages@[j], entry_order(doc, gs), s.name@, stored_size(s));
    }
    lemma_first_failure_none(s.pages@, pcheck);
}

proof fn lemma_export_config_reads(s: StoredExportConfig, c: ExportConfig)
    requires
        encodes_export_config(s, c),
    ensures
        export_config_check()(s) is None,
{
    let ctx = crate::persist::export_config_context(s);
    lemma_canonical_uuid_reads(ctx, c.id.0);
    lemma_canonical_uuid_reads(ctx + " glyph_set_id"@, c.source.glyph_set_id.0);
    lemma_canonical_uuid_reads(ctx + " address_map"@, c.address_map.id.0);
    lemma_canonical_uuid_reads(ctx + " data_map"@, c.data_map.id.0);
    let pcheck = source_page_check(ctx);
    assert forall|k: int| 0 <= k < s.source.pages@.len() implies (#[trigger] pcheck(s.source.pages@[k])) is None by {
        lemma_canonical_uuid_reads(ctx + " page"@, c.source.pages@[k].0);
    }
    lemma_first_failure_none(s.source.pages@, pcheck);
}

/// The stored form of a document whose glyphs all fit their glyph sets holds no
/// malformed value.
proof fn lemma_document_reads(stored: crate::storage::StoredFontSpaceV1, doc: FontSpace)
    requires
        encodes(stored, doc),
        forall|i: int, j: int|
            0 <= i < doc.glyph_sets@.len() && 0 <= j < doc.glyph_sets@[i].pages@.len() ==> glyphs_fit(
                doc.glyph_sets@[i].glyph_size,
                (#[trigger] doc.glyph_sets@[i].pages@[j]).glyphs@,
            ),
    ensures
        document_failure(stored) is None,
{
    lemma_canonical_uuid_reads("document id"@, doc.id.0);
    let ccheck = character_set_check();
    assert forall|i: int| 0 <= i < stored.character_sets@.len() implies (#[trigger] ccheck(
        stored.character_sets@[i],
    )) is None by {
        let s = stored.character_sets@[i];
        let cs = doc.character_sets@[i];
        assert(encodes_character_set(s, cs));
        lemma_canonical_uuid_reads(crate::persist::character_set_context(s), cs.id.0);
        assert forall|k: int| 0 <= k < s.entries@.len() implies code_value((#[trigger] s.entries@[k]).code@) is Some by {
            crate::pixels::law_code_round_trip(cs.entries@[k].code);
        }
        lemma_entries_read(crate::persist::character_set_context(s), s.entries@);
    }
    lemma_first_failure_none(stored.character_sets@, ccheck);
    let gcheck = glyph_set_check();
    assert forall|i: int| 0 <= i < stored.glyph_sets@.len() implies (#[trigger] gcheck(stored.glyph_sets@[i])) is None by {
        let gs = doc.glyph_sets@[i];
        assert(encodes_glyph_set(stored.glyph_sets@[i], gs, doc));
        assert forall|j: int| 0 <= j < gs.pages@.len() implies glyphs_fit(gs.glyph_size, (#[trigger] gs.pages@[j]).glyphs@) by {
            assert(glyphs_fit(doc.glyph_sets@[i].glyph_size, doc.glyph_sets@[i].pages@[j].glyphs@));
        }
        lemma_glyph_set_reads(stored.glyph_sets@[i], gs, doc);
    }
    lemma_first_failure_none(stored.glyph_sets@, gcheck);
    let echeck = export_config_check();
    assert forall|i: int| 0 <= i < stored.export_configs@.len() implies (#[trigger] echeck(
        stored.export_configs@[i],
    )) is None by {
        lemma_export_config_reads(stored.export_configs@[i], doc.export_configs@[i]);
    }
    lemma_first_failure_none(stored.export_configs@, echeck);
}

/// `b` has the ids of `d`: its own and its guides'.
pub open spec fn page_ids_match(b: GlyphPage, d: GlyphPage) -> bool {
    &&& b.id == d.id
    &&& b.guides@.len() == d.guides@.len()
    &&& forall|k: int| 0 <= k < b.guides@.len() ==> (#[trigger] b.guides@[k]).id == d.guides@[k].id
}

/// `b` has the ids, size, character-set reference and page ids of `d`.
pub open spec fn set_ids_match(b: GlyphSet, d: GlyphSet) -> bool {
    &&& b.id == d.id
    &&& b.glyph_size == d.glyph_size
    &&& b.character_set_id == d.character_set_id
    &&& b.pages@.len() == d.pages@.len()
    &&& forall|j: int| 0 <= j < b.pages@.len() ==> page_ids_match(#[trigger] b.pages@[j], d.pages@[j])
}

proof fn lemma_guide_ids_eq(b: Seq<GlyphPage>, d: Seq<GlyphPage>)
    requires
        b.len() == d.len(),
        forall|j: int| 0 <= j < b.len() ==> page_ids_match(#[trigger] b[j], d[j]),
    ensures
        guide_ids_of(b) == guide_ids_of(d),
    decreases b.len(),
{
    if b.len() > 0 {
        let bb = b.drop_last();
        let db = d.drop_last();
        assert forall|j: int| 0 <= j < bb.len() implies page_ids_match(#[trigger] bb[j], db[j]) by {
            assert(bb[j] == b[j] && db[j] == d[j]);
        }
        lemma_guide_ids_eq(bb, db);
        let lb = b.last();
        let ld = d.last();
        assert(page_ids_match(b[b.len() - 1], d[d.len() - 1]));
        assert(lb.guides@.map_values(|g: crate::glyph_set::Guide| g.id) =~= ld.guides@.map_values(
            |g: crate::glyph_set::Guide| g.id,
        ));
    }
}

proof fn lemma_all_ids_eq(b: Seq<GlyphSet>, d: Seq<GlyphSet>)
    requires
        b.len() == d.len(),
        forall|i: int| 0 <= i < b.len() ==> set_ids_match(#[trigger] b[i], d[i]),
    ensures
        all_page_ids(b) == all_page_ids(d),
        all_guide_ids(b) == all_guide_ids(d),
    decreases b.len(),
{
    if b.len() > 0 {
        let bb = b.drop_last();
        let db = d.drop_last();
        assert forall|i: int| 0 <= i < bb.len() implies set_ids_match(#[trigger] bb[i], db[i]) by {
            assert(bb[i] == b[i] && db[i] == d[i]);
        }
        lemma_all_ids_eq(bb, db);
        let lb = b.last();
        let ld = d.last();
        assert(set_ids_match(b[b.len() - 1], d[d.len() - 1]));
        assert(lb.page_ids() =~= ld.page_ids()) by {
            assert forall|j: int| 0 <= j < lb.pages@.len() implies lb.page_ids()[j] == ld.page_ids()[j] by {
                assert(page_ids_match(lb.pages@[j], ld.pages@[j]));
            }
        }
        lemma_guide_ids_eq(lb.pages@, ld.pages@);
    }
}

proof fn lemma_pages_errors_transfer(
    gb: GlyphSet,
    gd: GlyphSet,
    seen_pages: Seq<crate::ids::PageId>,
    seen_guides: Seq<crate::ids::GuideId>,
    b: Seq<GlyphPage>,
    d: Seq<GlyphPage>,
)
    requires
        b.len() == d.len(),
        forall|j: int| 0 <= j < b.len() ==> page_ids_match(#[trigger] b[j], d[j]),
        forall|j: int| 0 <= j < b.len() ==> glyphs_errors(gb, #[trigger] b[j], b[j].glyphs@).len() == 0,
        pages_errors(gd, seen_pages, seen_guides, d).len() == 0,
    ensures
        pages_errors(gb, seen_pages, seen_guides, b).len() == 0,
    decreases b.len(),
{
    if b.len() > 0 {
        let bb = b.drop_last();
        let db = d.drop_last();
        let lb = b.last();
        let ld = d.last();
        assert forall|j: int| 0 <= j < bb.len() implies page_ids_match(#[trigger] bb[j], db[j]) by {
            assert(bb[j] == b[j] && db[j] == d[j]);
        }
        assert forall|j: int| 0 <= j < bb.len() implies glyphs_errors(gb, #[trigger] bb[j], bb[j].glyphs@).len() == 0 by {
            assert(bb[j] == b[j]);
        }
        let sp = seen_pages + db.map_values(|p: GlyphPage| p.id);
        let sg = seen_guides + guide_ids_of(db);
        let pd = page_errors(gd, sp, sg, ld);
        assert(pages_errors(gd, seen_pages, seen_guides, db).len() == 0 && pd.len() == 0) by {
            assert(pages_errors(gd, seen_pages, seen_guides, d) == pages_errors(gd, seen_pages, seen_guides, db) + pd);
        }
        lemma_pages_errors_transfer(gb, gd, seen_pages, seen_guides, bb, db);
        assert(bb.map_values(|p: GlyphPage| p.id) =~= db.map_values(|p: GlyphPage| p.id)) by {
            assert forall|j: int| 0 <= j < bb.len() implies bb[j].id == db[j].id by {
                assert(page_ids_match(bb[j], db[j]));
            }
        }
        lemma_guide_ids_eq(bb, db);
        assert(page_ids_match(b[b.len() - 1], d[d.len() - 1]));
        assert(lb.guides@.map_values(|g: crate::glyph_set::Guide| g.id) =~= ld.guides@.map_values(
            |g: crate::glyph_set::Guide| g.id,
        ));
        assert(glyphs_errors(gb, b[b.len() - 1], b[b.len() - 1].glyphs@).len() == 0);
        assert(page_errors(gb, sp, sg, lb).len() == 0);
    }
}

proof fn lemma_glyph_sets_errors_transfer(
    cb: Seq<crate::character_set::CharacterSet>,
    cd: Seq<crate::character_set::CharacterSet>,
    b: Seq<GlyphSet>,
    d: Seq<GlyphSet>,
    limits: Limits,
)
    requires
        cb.len() == cd.len(),
        forall|i: int| 0 <= i < cb.len() ==> (#[trigger] cb[i]).id == cd[i].id,
        b.len() == d.len(),
        forall|i: int| 0 <= i < b.len() ==> set_ids_match(#[trigger] b[i], d[i]),
        forall|i: int, j: int|
            0 <= i < b.len() && 0 <= j < b[i].pages@.len() ==> glyphs_fit(
                b[i].glyph_size,
                (#[trigger] b[i].pages@[j]).glyphs@,
            ),
        glyph_sets_errors(cd, d, limits).len() == 0,
    ensures
        glyph_sets_errors(cb, b, limits).len() == 0,
    decreases b.len(),
{
    if b.len() > 0 {
        let bb = b.drop_last();
        let db = d.drop_last();
        let lb = b.last();
        let ld = d.last();
        assert forall|i: int| 0 <= i < bb.len() implies set_ids_match(#[trigger] bb[i], db[i]) by {
            assert(bb[i] == b[i] && db[i] == d[i]);
        }
        assert forall|i: int, j: int| 0 <= i < bb.len() && 0 <= j < bb[i].pages@.len() implies glyphs_fit(
            bb[i].glyph_size,
            (#[trigger] bb[i].pages@[j]).glyphs@,
        ) by {
            assert(bb[i] == b[i]);
            assert(glyphs_fit(b[i].glyph_size, b[i].pages@[j].glyphs@));
        }
        let ged = crate::validation::glyph_set_errors(cd, db, ld, limits);
        assert(glyph_sets_errors(cd, db, limits).len() == 0 && ged.len() == 0) by {
            assert(glyph_sets_errors(cd, d, limits) == glyph_sets_errors(cd, db, limits) + ged);
        }
        lemma_glyph_sets_errors_transfer(cb, cd, bb, db, limits);
        assert(set_ids_match(b[b.len() - 1], d[d.len() - 1]));
        assert(cb.map_values(|c: crate::character_set::CharacterSet| c.id) =~= cd.map_values(
            |c: crate::character_set::CharacterSet| c.id,
        )) by {
            assert forall|i: int| 0 <= i < cb.len() implies cb[i].id == cd[i].id by {}
        }
        assert(bb.map_values(|g: GlyphSet| g.id) =~= db.map_values(|g: GlyphSet| g.id)) by {
            assert forall|i: int| 0 <= i < bb.len() implies bb[i].id == db[i].id by {
                assert(set_ids_match(bb[i], db[i]));
            }
        }
        lemma_all_ids_eq(bb, db);
        let sp = all_page_ids(db);
        let sg = all_guide_ids(db);
        assert(pages_errors(ld, sp, sg, ld.pages@).len() == 0);
        assert forall|j: int| 0 <= j < lb.pages@.len() implies glyphs_errors(lb, #[trigger] lb.pages@[j], lb.pages@[j].glyphs@).len()
            == 0 by {
            assert(glyphs_fit(b[b.len() - 1].glyph_size, b[b.len() - 1].pages@[j].glyphs@));
            lemma_glyphs_errors_empty(lb, lb.pages@[j], lb.pages@[j].glyphs@);
        }
        lemma_pages_errors_transfer(lb, ld, sp, sg, lb.pages@, ld.pages@);
        assert(crate::validation::glyph_set_errors(cb, bb, lb, limits).len() == 0);
    }
}

proof fn lemma_character_sets_errors_eq(
    b: Seq<crate::character_set::CharacterSet>,
    d: Seq<crate::character_set::CharacterSet>,
    limits: Limits,
)
    requires
        b.len() == d.len(),
        forall|i: int|
            0 <= i < b.len() ==> (#[trigger] b[i]).id == d[i].id && b[i].entries@.len() == d[i].entries@.len()
                && b[i].codes() == d[i].codes(),
    ensures
        crate::validation::character_sets_errors(b, limits) == crate::validation::character_sets_errors(d, limits),
    decreases b.len(),
{
    if b.len() > 0 {
        let bb = b.drop_last();
        let db = d.drop_last();
        assert forall|i: int| 0 <= i < bb.len() implies (#[trigger] bb[i]).id == db[i].id && bb[i].entries@.len()
            == db[i].entries@.len() && bb[i].codes() == db[i].codes() by {
            assert(bb[i] == b[i] && db[i] == d[i]);
        }
        lemma_character_sets_errors_eq(bb, db, limits);
        assert(bb.map_values(|c: crate::character_set::CharacterSet| c.id) =~= db.map_values(
            |c: crate::character_set::CharacterSet| c.id,
        ));
        assert(b[b.len() - 1].id == d[d.len() - 1].id);
    }
}

proof fn lemma_glyphs_pixels_insert(s: Seq<Glyph>, pos: int, g: Glyph)
    requires
        0 <= pos <= s.len(),
    ensures
        crate::validation::glyphs_pixels(s.insert(pos, g)) == crate::validation::glyphs_pixels(s) + g.bitmap@.width
            * g.bitmap@.height,
    decreases s.len(),
{
    let t = s.insert(pos, g);
    if pos == s.len() {
        assert(t.drop_last() =~= s);
    } else {
        assert(t.drop_last() =~= s.drop_last().insert(pos, g));
        assert(t.last() == s.last());
        lemma_glyphs_pixels_insert(s.drop_last(), pos, g);
    }
}

/// Pruning blank glyphs and reordering never adds pixels.
proof fn lemma_canonical_pixels(glyphs: Seq<Glyph>, order: Seq<u32>)
    ensures
        crate::validation::glyphs_pixels(canonical_glyphs(glyphs, order)) <= crate::validation::glyphs_pixels(glyphs),
    decreases glyphs.len(),
{
    if glyphs.len() > 0 {
        let d = glyphs.drop_last();
        let before = canonical_glyphs(d, order);
        let g = glyphs.last();
        lemma_canonical_pixels(d, order);
        if !g.bitmap@.is_blank() {
            let pos = insert_position(before, glyph_rank(g, order), order);
            lemma_insert_position_bound(before, glyph_rank(g, order), order);
            lemma_glyphs_pixels_insert(before, pos, g);
        }
    }
}

proof fn lemma_glyphs_pixels_eq(b: Seq<Glyph>, d: Seq<Glyph>)
    requires
        b.len() == d.len(),
        forall|i: int| 0 <= i < b.len() ==> (#[trigger] b[i]).bitmap@ == d[i].bitmap@,
    ensures
        crate::validation::glyphs_pixels(b) == crate::validation::glyphs_pixels(d),
    decreases b.len(),
{
    if b.len() > 0 {
        let bb = b.drop_last();
        let db = d.drop_last();
        assert forall|i: int| 0 <= i < bb.len() implies (#[trigger] bb[i]).bitmap@ == db[i].bitmap@ by {
            assert(bb[i] == b[i] && db[i] == d[i]);
        }
        lemma_glyphs_pixels_eq(bb, db);
        assert(b[b.len() - 1].bitmap@ == d[d.len() - 1].bitmap@);
    }
}

proof fn lemma_pages_pixels_le(b: Seq<GlyphPage>, d: Seq<GlyphPage>)
    requires
        b.len() == d.len(),
        forall|j: int|
            0 <= j < b.len() ==> crate::validation::glyphs_pixels((#[trigger] b[j]).glyphs@)
                <= crate::validation::glyphs_pixels(d[j].glyphs@),
    ensures
        crate::validation::pages_pixels(b) <= crate::validation::pages_pixels(d),
    decreases b.len(),
{
    if b.len() > 0 {
        let bb = b.drop_last();
        let db = d.drop_last();
        assert forall|j: int| 0 <= j < bb.len() implies crate::validation::glyphs_pixels((#[trigger] bb[j]).glyphs@)
            <= crate::validation::glyphs_pixels(db[j].glyphs@) by {
            assert(bb[j] == b[j] && db[j] == d[j]);
        }
        lemma_pages_pixels_le(bb, db);
        assert(crate::validation::glyphs_pixels(b[b.len() - 1].glyphs@) <= crate::validation::glyphs_pixels(
            d[d.len() - 1].glyphs@,
        ));
    }
}

proof fn lemma_sets_pixels_le(b: Seq<GlyphSet>, d: Seq<GlyphSet>)
    requires
        b.len() == d.len(),
        forall|i: int|
            0 <= i < b.len() ==> crate::validation::pages_pixels((#[trigger] b[i]).pages@)
                <= crate::validation::pages_pixels(d[i].pages@),
    ensures
        crate::validation::sets_pixels(b) <= crate::validation::sets_pixels(d),
    decreases b.len(),
{
    if b.len() > 0 {
        let bb = b.drop_last();
        let db = d.drop_last();
        assert forall|i: int| 0 <= i < bb.len() implies crate::validation::pages_pixels((#[trigger] bb[i]).pages@)
            <= crate::validation::pages_pixels(db[i].pages@) by {
            assert(bb[i] == b[i] && db[i] == d[i]);
        }
        lemma_sets_pixels_le(bb, db);
        assert(crate::validation::pages_pixels(b[b.len() - 1].pages@) <= crate::validation::pages_pixels(
            d[d.len() - 1].pages@,
        ));
    }
}

/// The page read back from the stored form of a page whose glyphs fit has the
/// page's ids, glyphs that fit, and no more pixels.
proof fn lemma_back_page(stored: StoredGlyphPage, p: GlyphPage, back: GlyphPage, order: Seq<u32>, size: GlyphSize)
    requires
        encodes_page(stored, p, order),
        crate::persist::decodes_page(back, stored, size),
        glyphs_fit(size, p.glyphs@),
    ensures
        page_ids_match(back, p),
        glyphs_fit(size, back.glyphs@),
        crate::validation::glyphs_pixels(back.glyphs@) <= crate::validation::glyphs_pixels(p.glyphs@),
{
    assert(uuid_text(p.id.0) == stored.id@);
    assert forall|k: int| 0 <= k < back.guides@.len() implies (#[trigger] back.guides@[k]).id == p.guides@[k].id by {
        assert(crate::persist::encodes_guide(stored.guides@[k], p.guides@[k]));
        assert(crate::persist::decodes_guide(back.guides@[k], stored.guides@[k]));
        assert(uuid_text(p.guides@[k].id.0) == stored.guides@[k].id@);
    }
    let canon = canonical_glyphs(p.glyphs@, order);
    crate::canonical::lemma_canonical_sorted(p.glyphs@, order);
    lemma_canonical_fits(size, p.glyphs@, order);
    lemma_canonical_pixels(p.glyphs@, order);
    let b = back.glyphs@;
    assert forall|i: int| 0 <= i < b.len() implies (#[trigger] b[i]).code == canon[i].code && b[i].bitmap@
        == canon[i].bitmap@ by {
        assert(encodes_glyph(stored.glyphs@[i], canon[i]));
        assert(crate::persist::decodes_glyph(b[i], stored.glyphs@[i], size));
        assert(!canon[i].bitmap@.is_blank());
        crate::canonical::lemma_glyph_round_trip(stored.glyphs@[i], canon[i], b[i], size);
    }
    assert forall|i: int| 0 <= i < b.len() implies bitmap_size(#[trigger] b[i]) == size by {
        assert(bitmap_size(canon[i]) == size);
    }
    assert forall|i: int, j: int| 0 <= i < j < b.len() implies (#[trigger] b[i]).code != (#[trigger] b[j]).code by {
        assert(canon[i].code != canon[j].code);
    }
    assert forall|i: int| 0 <= i < b.len() implies (#[trigger] b[i]).bitmap@ == canon[i].bitmap@ by {}
    lemma_glyphs_pixels_eq(b, canon);
}

proof fn lemma_back_glyph_set(stored: StoredGlyphSet, gs: GlyphSet, doc: FontSpace, back: GlyphSet)
    requires
        encodes_glyph_set(stored, gs, doc),
        crate::persist::decodes_glyph_set(back, stored),
        forall|j: int| 0 <= j < gs.pages@.len() ==> glyphs_fit(gs.glyph_size, (#[trigger] gs.pages@[j]).glyphs@),
    ensures
        set_ids_match(back, gs),
        forall|j: int| 0 <= j < back.pages@.len() ==> glyphs_fit(back.glyph_size, (#[trigger] back.pages@[j]).glyphs@),
        crate::validation::pages_pixels(back.pages@) <= crate::validation::pages_pixels(gs.pages@),
{
    assert(uuid_text(gs.id.0) == stored.id@);
    assert(uuid_text(gs.character_set_id.0) == stored.character_set_id@);
    assert(stored_size(stored) == gs.glyph_size);
    assert forall|j: int| 0 <= j < back.pages@.len() implies page_ids_match(#[trigger] back.pages@[j], gs.pages@[j])
        && glyphs_fit(back.glyph_size, back.pages@[j].glyphs@) && crate::validation::glyphs_pixels(
        back.pages@[j].glyphs@,
    ) <= crate::validation::glyphs_pixels(gs.pages@[j].glyphs@) by {
        assert(encodes_page(stored.pages@[j], gs.pages@[j], entry_order(doc, gs)));
        assert(crate::persist::decodes_page(back.pages@[j], stored.pages@[j], stored_size(stored)));
        assert(glyphs_fit(gs.glyph_size, gs.pages@[j].glyphs@));
        lemma_back_page(stored.pages@[j], gs.pages@[j], back.pages@[j], entry_order(doc, gs), stored_size(stored));
    }
    lemma_pages_pixels_le(back.pages@, gs.pages@);
}

/// The document read back from the stored form of a valid document is valid.
proof fn lemma_back_valid(doc: FontSpace, stored: crate::storage::StoredFontSpaceV1, back: FontSpace)
    requires
        encodes(stored, doc),
        decodes(back, stored),
        validation_errors(doc, crate::limits::default_limits()).len() == 0,
    ensures
        validation_errors(back, crate::limits::default_limits()).len() == 0,
{
    let limits = crate::limits::default_limits();
    let cd = doc.character_sets@;
    let cb = back.character_sets@;
    let gd = doc.glyph_sets@;
    let gb = back.glyph_sets@;
    assert(crate::validation::version_errors(back) == crate::validation::version_errors(doc));
    assert forall|i: int| 0 <= i < cb.len() implies (#[trigger] cb[i]).id == cd[i].id && cb[i].entries@.len()
        == cd[i].entries@.len() && cb[i].codes() == cd[i].codes() by {
        crate::canonical::lemma_character_set_round_trip(stored.character_sets@[i], cd[i], cb[i]);
    }
    lemma_character_sets_errors_eq(cb, cd, limits);
    assert(glyph_sets_errors(cd, gd, limits).len() == 0);
    lemma_glyph_sets_errors_glyphs(cd, gd, limits);
    assert forall|i: int| 0 <= i < gb.len() implies set_ids_match(#[trigger] gb[i], gd[i]) && (forall|j: int|
        0 <= j < gb[i].pages@.len() ==> glyphs_fit(gb[i].glyph_size, (#[trigger] gb[i].pages@[j]).glyphs@))
        && crate::validation::pages_pixels(gb[i].pages@) <= crate::validation::pages_pixels(gd[i].pages@) by {
        assert(encodes_glyph_set(stored.glyph_sets@[i], gd[i], doc));
        assert(crate::persist::decodes_glyph_set(gb[i], stored.glyph_sets@[i]));
        assert forall|j: int| 0 <= j < gd[i].pages@.len() implies glyphs_fit(
            gd[i].glyph_size,
            (#[trigger] gd[i].pages@[j]).glyphs@,
        ) by {}
        lemma_back_glyph_set(stored.glyph_sets@[i], gd[i], doc, gb[i]);
    }
    lemma_glyph_sets_errors_transfer(cb, cd, gb, gd, limits);
    let eb = back.export_configs@;
    let ed = doc.export_configs@;
    assert(eb.map_values(|c: ExportConfig| c.id) =~= ed.map_values(|c: ExportConfig| c.id)) by {
        assert forall|i: int| 0 <= i < eb.len() implies eb[i].id == ed[i].id by {
            assert(encodes_export_config(stored.export_configs@[i], ed[i]));
            assert(crate::persist::decodes_export_config(eb[i], stored.export_configs@[i]));
            assert(uuid_text(ed[i].id.0) == stored.export_configs@[i].id@);
        }
    }
    assert(crate::validation::export_config_errors(eb) == crate::validation::export_config_errors(ed));
    lemma_sets_pixels_le(gb, gd);
    assert(crate::validation::total_pixels_errors(gb, limits).len() == 0);
}

/// Loading what was saved succeeds: the canonical stored form of a document that
/// validates under the default limits declares the supported format version,
/// holds no malformed value, and the document it reads back as validates too, so
/// the load returns it rather than an error.
pub proof fn law_saved_document_loads(doc: FontSpace, stored: crate::storage::StoredFontSpaceV1)
    requires
        encodes(stored, doc),
        validation_errors(doc, crate::limits::default_limits()).len() == 0,
    ensures
        stored.format_version == crate::document::CURRENT_FORMAT_VERSION,
        document_failure(stored) is None,
        forall|back: FontSpace|
            #[trigger] decodes(back, stored) ==> validation_errors(back, crate::limits::default_limits()).len() == 0,
{
    let limits = crate::limits::default_limits();
    assert(crate::validation::version_errors(doc).len() == 0);
    assert(glyph_sets_errors(doc.character_sets@, doc.glyph_sets@, limits).len() == 0);
    lemma_glyph_sets_errors_glyphs(doc.character_sets@, doc.glyph_sets@, limits);
    lemma_document_reads(stored, doc);
    assert forall|back: FontSpace| #[trigger] decodes(back, stored) implies validation_errors(back, limits).len()
        == 0 by {
        lemma_back_valid(doc, stored, back);
    }
}

} // verus!
