//! The determinism of the storage form: a document read back from its canonical
//! stored form stores as exactly that form again, which is what makes
//! save → load → save reproduce the same text.

use vstd::prelude::*;

use crate::character_set::CharacterSet;
use crate::document::FontSpace;
use crate::export_config::{AddressBitSource, ExportConfig, OutputBitSource};
use crate::geometry::GlyphSize;
use crate::glyph_set::{Glyph, GlyphPage, GlyphSet};
use crate::persist::{
    canonical_glyphs, decodes, decodes_character_set, decodes_export_config, decodes_glyph, decodes_glyph_set,
    decodes_guide, decodes_page, domain_address_bit, domain_output_bit, encodes, encodes_character_set,
    encodes_export_config, encodes_glyph, encodes_glyph_set, encodes_guide, encodes_page, entry_order, glyph_rank,
    insert_position, stored_address_bit, stored_output_bit, stored_size,
};
use crate::pixels::{law_code_round_trip, law_rows_round_trip, law_rows_text_round_trip, rows_chars, view_rows};
use crate::storage::{
    StoredCharacterSet, StoredExportConfig, StoredFontSpaceV1, StoredGlyph, StoredGlyphPage,
    StoredGlyphSet,
};

verus! {

/// The glyphs are in non-decreasing [`glyph_rank`] order.
pub open spec fn rank_sorted(s: Seq<Glyph>, order: Seq<u32>) -> bool {
    forall|i: int, j: int| 0 <= i < j < s.len() ==> glyph_rank(s[i], order) <= glyph_rank(s[j], order)
}

/// No glyph is blank.
pub open spec fn none_blank(s: Seq<Glyph>) -> bool {
    forall|i: int| 0 <= i < s.len() ==> !(#[trigger] s[i]).bitmap@.is_blank()
}

proof fn lemma_insert_position_splits(s: Seq<Glyph>, r: int, order: Seq<u32>)
    requires
        rank_sorted(s, order),
    ensures
        0 <= insert_position(s, r, order) <= s.len(),
        forall|k: int| 0 <= k < insert_position(s, r, order) ==> glyph_rank(#[trigger] s[k], order) <= r,
        forall|k: int| insert_position(s, r, order) <= k < s.len() ==> glyph_rank(#[trigger] s[k], order) > r,
    decreases s.len(),
{
    if s.len() > 0 {
        let t = s.drop_first();
        assert(rank_sorted(t, order)) by {
            assert forall|i: int, j: int| 0 <= i < j < t.len() implies glyph_rank(t[i], order) <= glyph_rank(
                t[j],
                order,
            ) by {
                assert(t[i] == s[i + 1] && t[j] == s[j + 1]);
            }
        }
        lemma_insert_position_splits(t, r, order);
        if glyph_rank(s[0], order) > r {
            assert forall|k: int| 0 <= k < s.len() implies glyph_rank(#[trigger] s[k], order) > r by {
                if k > 0 {
                    assert(glyph_rank(s[0], order) <= glyph_rank(s[k], order));
                }
            }
        } else {
            assert forall|k: int| 0 <= k < insert_position(s, r, order) implies glyph_rank(#[trigger] s[k], order)
                <= r by {
                if k > 0 {
                    assert(s[k] == t[k - 1]);
                }
            }
            assert forall|k: int| insert_position(s, r, order) <= k < s.len() implies glyph_rank(
                #[trigger] s[k],
                order,
            ) > r by {
                assert(s[k] == t[k - 1]);
            }
        }
    }
}

/// The canonical glyph order is sorted by rank and holds no blank glyph.
pub(crate) proof fn lemma_canonical_sorted(glyphs: Seq<Glyph>, order: Seq<u32>)
    ensures
        rank_sorted(canonical_glyphs(glyphs, order), order),
        none_blank(canonical_glyphs(glyphs, order)),
    decreases glyphs.len(),
{
    if glyphs.len() > 0 {
        let before = canonical_glyphs(glyphs.drop_last(), order);
        lemma_canonical_sorted(glyphs.drop_last(), order);
        let g = glyphs.last();
        if !g.bitmap@.is_blank() {
            let r = glyph_rank(g, order);
            let pos = insert_position(before, r, order);
            lemma_insert_position_splits(before, r, order);
            let after = before.insert(pos, g);
            before.insert_ensures(pos, g);
            assert(after == canonical_glyphs(glyphs, order));
            assert forall|i: int, j: int| 0 <= i < j < after.len() implies glyph_rank(after[i], order)
                <= glyph_rank(after[j], order) by {
                if j < pos {
                    assert(after[i] == before[i] && after[j] == before[j]);
                } else if j == pos {
                    assert(after[i] == before[i]);
                } else if i < pos {
                    assert(after[i] == before[i] && after[j] == before[j - 1]);
                } else if i == pos {
                    assert(after[j] == before[j - 1]);
                } else {
                    assert(after[i] == before[i - 1] && after[j] == before[j - 1]);
                }
            }
            assert forall|i: int| 0 <= i < after.len() implies !(#[trigger] after[i]).bitmap@.is_blank() by {
                if i < pos {
                    assert(after[i] == before[i]);
                } else if i > pos {
                    assert(after[i] == before[i - 1]);
                }
            }
        }
    }
}

proof fn lemma_insert_position_at_end(s: Seq<Glyph>, r: int, order: Seq<u32>)
    requires
        forall|k: int| 0 <= k < s.len() ==> glyph_rank(#[trigger] s[k], order) <= r,
    ensures
        insert_position(s, r, order) == s.len(),
    decreases s.len(),
{
    if s.len() > 0 {
        let t = s.drop_first();
        assert forall|k: int| 0 <= k < t.len() implies glyph_rank(#[trigger] t[k], order) <= r by {
            assert(t[k] == s[k + 1]);
        }
        lemma_insert_position_at_end(t, r, order);
    }
}

/// Glyphs already in canonical order are their own canonical order.
proof fn lemma_canonical_fixpoint(glyphs: Seq<Glyph>, order: Seq<u32>)
    requires
        rank_sorted(glyphs, order),
        none_blank(glyphs),
    ensures
        canonical_glyphs(glyphs, order) == glyphs,
    decreases glyphs.len(),
{
    if glyphs.len() > 0 {
        let prefix = glyphs.drop_last();
        let g = glyphs.last();
        assert(rank_sorted(prefix, order));
        assert(none_blank(prefix)) by {
            assert forall|i: int| 0 <= i < prefix.len() implies !(#[trigger] prefix[i]).bitmap@.is_blank() by {
                assert(prefix[i] == glyphs[i]);
            }
        }
        lemma_canonical_fixpoint(prefix, order);
        assert(!g.bitmap@.is_blank()) by {
            assert(g == glyphs[glyphs.len() - 1]);
        }
        assert forall|k: int| 0 <= k < prefix.len() implies glyph_rank(#[trigger] prefix[k], order) <= glyph_rank(
            g,
            order,
        ) by {
            assert(prefix[k] == glyphs[k]);
        }
        lemma_insert_position_at_end(prefix, glyph_rank(g, order), order);
        assert(prefix.insert(prefix.len() as int, g) =~= glyphs);
    }
}

/// A glyph read back from the stored form of a non-blank glyph has the same code
/// and the same pixels.
pub(crate) proof fn lemma_glyph_round_trip(stored: StoredGlyph, g: Glyph, back: Glyph, size: GlyphSize)
    requires
        encodes_glyph(stored, g),
        decodes_glyph(back, stored, size),
        !g.bitmap@.is_blank(),
    ensures
        back.code == g.code,
        back.bitmap@ == g.bitmap@,
{
    law_code_round_trip(g.code);
    let v = g.bitmap@;
    let rows = rows_chars(stored.pixels@);
    assert(rows =~= view_rows(v)) by {
        assert forall|y: int| 0 <= y < rows.len() implies rows[y] == view_rows(v)[y] by {
            assert(stored.pixels@[y]@ == crate::pixels::row_text(v.rows[y]));
        }
    }
    let (x0, y0) = choose|x: int, y: int| 0 <= x < v.width && 0 <= y < v.height && v.rows[y][x];
    assert(v.wf());
    law_rows_text_round_trip(rows, size);
    assert(rows.len() == size.height);
    assert(rows[y0].len() == v.width);
    assert(crate::pixels::row_ok(rows[y0], size.width as nat));
    let own = GlyphSize { width: v.width as u16, height: v.height as u16 };
    assert(own == size);
    law_rows_round_trip(v);
}

/// Bit sources survive being stored and read back.
proof fn lemma_address_bit_round_trip(b: AddressBitSource)
    ensures
        domain_address_bit(stored_address_bit(b)) == b,
    decreases b,
{
    if let AddressBitSource::Inverted(inner) = b {
        lemma_address_bit_round_trip(*inner);
    }
}

proof fn lemma_output_bit_round_trip(b: OutputBitSource)
    ensures
        domain_output_bit(stored_output_bit(b)) == b,
    decreases b,
{
    if let OutputBitSource::Inverted(inner) = b {
        lemma_output_bit_round_trip(*inner);
    }
}

pub(crate) proof fn lemma_character_set_round_trip(stored: StoredCharacterSet, cs: CharacterSet, back: CharacterSet)
    requires
        encodes_character_set(stored, cs),
        decodes_character_set(back, stored),
    ensures
        encodes_character_set(stored, back),
        back.id == cs.id,
        back.codes() == cs.codes(),
{
    assert forall|i: int| 0 <= i < stored.entries@.len() implies back.entries@[i].code == cs.entries@[i].code by {
        law_code_round_trip(cs.entries@[i].code);
    }
    assert(back.codes() =~= cs.codes());
    assert(crate::ids::uuid_text(cs.id.0) == stored.id@);
}

proof fn lemma_page_round_trip(stored: StoredGlyphPage, p: GlyphPage, back: GlyphPage, order: Seq<u32>, size: GlyphSize)
    requires
        encodes_page(stored, p, order),
        decodes_page(back, stored, size),
    ensures
        encodes_page(stored, back, order),
{
    assert(crate::ids::uuid_text(p.id.0) == stored.id@);
    assert forall|i: int| 0 <= i < stored.guides@.len() implies encodes_guide(
        #[trigger] stored.guides@[i],
        back.guides@[i],
    ) by {
        let g = p.guides@[i];
        assert(encodes_guide(stored.guides@[i], g));
        assert(decodes_guide(back.guides@[i], stored.guides@[i]));
        assert(crate::ids::uuid_text(g.id.0) == stored.guides@[i].id@);
    }
    let canon = canonical_glyphs(p.glyphs@, order);
    lemma_canonical_sorted(p.glyphs@, order);
    assert forall|i: int| 0 <= i < canon.len() implies (#[trigger] back.glyphs@[i]).code == canon[i].code
        && back.glyphs@[i].bitmap@ == canon[i].bitmap@ by {
        assert(encodes_glyph(stored.glyphs@[i], canon[i]));
        assert(decodes_glyph(back.glyphs@[i], stored.glyphs@[i], size));
        assert(!canon[i].bitmap@.is_blank());
        lemma_glyph_round_trip(stored.glyphs@[i], canon[i], back.glyphs@[i], size);
    }
    let b = back.glyphs@;
    assert(rank_sorted(b, order)) by {
        assert forall|i: int, j: int| 0 <= i < j < b.len() implies glyph_rank(b[i], order) <= glyph_rank(b[j], order) by {
            assert(b[i].code == canon[i].code && b[j].code == canon[j].code);
        }
    }
    assert(none_blank(b)) by {
        assert forall|i: int| 0 <= i < b.len() implies !(#[trigger] b[i]).bitmap@.is_blank() by {
            assert(b[i].bitmap@ == canon[i].bitmap@);
        }
    }
    lemma_canonical_fixpoint(b, order);
    assert forall|i: int| 0 <= i < stored.glyphs@.len() implies encodes_glyph(
        #[trigger] stored.glyphs@[i],
        canonical_glyphs(back.glyphs@, order)[i],
    ) by {
        assert(encodes_glyph(stored.glyphs@[i], canon[i]));
        assert(b[i].code == canon[i].code && b[i].bitmap@ == canon[i].bitmap@);
    }
}

proof fn lemma_glyph_set_round_trip(
    stored: StoredGlyphSet,
    gs: GlyphSet,
    doc: FontSpace,
    back: GlyphSet,
    back_doc: FontSpace,
)
    requires
        encodes_glyph_set(stored, gs, doc),
        decodes_glyph_set(back, stored),
        entry_order(back_doc, back) == entry_order(doc, gs),
    ensures
        encodes_glyph_set(stored, back, back_doc),
        back.character_set_id == gs.character_set_id,
{
    assert(crate::ids::uuid_text(gs.id.0) == stored.id@);
    assert(crate::ids::uuid_text(gs.character_set_id.0) == stored.character_set_id@);
    assert forall|i: int| 0 <= i < stored.pages@.len() implies encodes_page(
        #[trigger] stored.pages@[i],
        back.pages@[i],
        entry_order(back_doc, back),
    ) by {
        assert(encodes_page(stored.pages@[i], gs.pages@[i], entry_order(doc, gs)));
        assert(decodes_page(back.pages@[i], stored.pages@[i], stored_size(stored)));
        lemma_page_round_trip(stored.pages@[i], gs.pages@[i], back.pages@[i], entry_order(doc, gs), stored_size(stored));
    }
}

proof fn lemma_export_config_round_trip(stored: StoredExportConfig, c: ExportConfig, back: ExportConfig)
    requires
        encodes_export_config(stored, c),
        decodes_export_config(back, stored),
    ensures
        encodes_export_config(stored, back),
{
    assert(crate::ids::uuid_text(c.id.0) == stored.id@);
    assert(crate::ids::uuid_text(c.source.glyph_set_id.0) == stored.source.glyph_set_id@);
    assert(crate::ids::uuid_text(c.address_map.id.0) == stored.address_map.id@);
    assert(crate::ids::uuid_text(c.data_map.id.0) == stored.data_map.id@);
    assert forall|i: int| 0 <= i < stored.source.pages@.len() implies (#[trigger] stored.source.pages@[i])@
        == crate::ids::uuid_text(back.source.pages@[i].0) by {
        assert(crate::ids::uuid_text(c.source.pages@[i].0) == stored.source.pages@[i]@);
    }
    assert(back.address_map.address_bits@ =~= c.address_map.address_bits@) by {
        assert forall|i: int| 0 <= i < c.address_map.address_bits@.len() implies back.address_map.address_bits@[i]
            == c.address_map.address_bits@[i] by {
            lemma_address_bit_round_trip(c.address_map.address_bits@[i]);
        }
    }
    assert(back.data_map.output_bits@ =~= c.data_map.output_bits@) by {
        assert forall|i: int| 0 <= i < c.data_map.output_bits@.len() implies back.data_map.output_bits@[i]
            == c.data_map.output_bits@[i] by {
            lemma_output_bit_round_trip(c.data_map.output_bits@[i]);
        }
    }
}

/// Storing a document, reading the stored form back, and storing the result gives
/// the stored form it was read from: the canonical form is a fixed point of
/// load-then-save, so save → load → save reproduces the same text.
pub proof fn law_stored_form_round_trip(stored: StoredFontSpaceV1, doc: FontSpace, back: FontSpace)
    requires
        encodes(stored, doc),
        decodes(back, stored),
    ensures
        encodes(stored, back),
{
    assert(crate::ids::uuid_text(doc.id.0) == stored.id@);
    assert forall|i: int| 0 <= i < stored.character_sets@.len() implies encodes_character_set(
        #[trigger] stored.character_sets@[i],
        back.character_sets@[i],
    ) && back.character_sets@[i].id == doc.character_sets@[i].id && back.character_sets@[i].codes()
        == doc.character_sets@[i].codes() by {
        lemma_character_set_round_trip(stored.character_sets@[i], doc.character_sets@[i], back.character_sets@[i]);
    }
    assert(back.character_set_ids() =~= doc.character_set_ids());
    assert forall|i: int| 0 <= i < stored.glyph_sets@.len() implies encodes_glyph_set(
        #[trigger] stored.glyph_sets@[i],
        back.glyph_sets@[i],
        back,
    ) by {
        let gs = doc.glyph_sets@[i];
        let b = back.glyph_sets@[i];
        assert(encodes_glyph_set(stored.glyph_sets@[i], gs, doc));
        assert(decodes_glyph_set(b, stored.glyph_sets@[i]));
        assert(crate::ids::uuid_text(gs.character_set_id.0) == stored.glyph_sets@[i].character_set_id@);
        assert(b.character_set_id == gs.character_set_id);
        assert(entry_order(back, b) == entry_order(doc, gs)) by {
            crate::search::lemma_first_index_props(doc.character_set_ids(), gs.character_set_id);
            if let Some(k) = crate::search::first_index(doc.character_set_ids(), gs.character_set_id) {
                assert(encodes_character_set(stored.character_sets@[k], back.character_sets@[k]));
            }
        }
        lemma_glyph_set_round_trip(stored.glyph_sets@[i], gs, doc, b, back);
    }
    assert forall|i: int| 0 <= i < stored.export_configs@.len() implies encodes_export_config(
        #[trigger] stored.export_configs@[i],
        back.export_configs@[i],
    ) by {
        lemma_export_config_round_trip(stored.export_configs@[i], doc.export_configs@[i], back.export_configs@[i]);
    }
}

} // verus!
