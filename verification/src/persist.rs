//! Conversion between documents and the storage schema. Saving writes the
//! canonical form: glyphs in character-set entry order with blank glyphs pruned and
//! dangling glyphs after them by code, codes as `0x` hex, bitmaps as visual rows and
//! ids as lowercase hyphenated UUIDs. Loading converts back with a precise,
//! object-naming error for the first malformed value, then validates.

use vstd::prelude::*;

use crate::character_set::{CharacterEntry, CharacterSet};
use crate::document::FontSpace;
use crate::export_config::{
    AddressBitSource, AddressMap, CoordinateExpr, DataMap, ExportConfig, ExportSourceSpec, OutputBitSource,
    OutputFormatConfig,
};
use crate::geometry::{GlyphSize, GuideAxis};
use crate::glyph_set::{Glyph, GlyphPage, GlyphSet, Guide};
use crate::ids::{uuid_string, uuid_text};
use crate::pixels::{code_text, format_code, format_rows, row_text};
use crate::limits::{default_limits, Limits};
use crate::pixels::{code_value, parse_code, parse_rows, rows_chars, rows_result, RowError};
use crate::search::{first_index, lemma_first_index_props};
use crate::text::push_str;
use crate::validation::{validation_errors, validation_warnings, ValidationError, ValidationWarning};
use crate::storage::{
    StoredAddressBit, StoredAddressMap, StoredAxis, StoredCharacterEntry, StoredCharacterSet, StoredCoordExpr,
    StoredDataMap, StoredExportConfig, StoredExportSource, StoredFontSpaceV1, StoredGlyph, StoredGlyphPage,
    StoredGlyphSet, StoredGlyphSize, StoredGuide, StoredMetadata, StoredOutputBit, StoredOutputFormat,
};

verus! {

// ---- saving ----

/// `s` stores entry `e`: its code as canonical hex and its label.
pub open spec fn encodes_entry(s: StoredCharacterEntry, e: CharacterEntry) -> bool {
    s.code@ == code_text(e.code) && s.label == e.label
}

/// `s` stores character set `cs`.
pub open spec fn encodes_character_set(s: StoredCharacterSet, cs: CharacterSet) -> bool {
    &&& s.id@ == uuid_text(cs.id.0)
    &&& s.name == cs.name
    &&& s.description == cs.description
    &&& s.entries@.len() == cs.entries@.len()
    &&& forall|i: int| 0 <= i < s.entries@.len() ==> encodes_entry(#[trigger] s.entries@[i], cs.entries@[i])
}

fn to_stored_character_set(cs: &CharacterSet) -> (s: StoredCharacterSet)
    ensures
        encodes_character_set(s, *cs),
{
    let mut entries: Vec<StoredCharacterEntry> = Vec::new();
    let mut i: usize = 0;
    while i < cs.entries.len()
        invariant
            i <= cs.entries@.len(),
            entries@.len() == i,
            forall|k: int| 0 <= k < i ==> encodes_entry(#[trigger] entries@[k], cs.entries@[k]),
        decreases cs.entries@.len() - i,
    {
        let e = &cs.entries[i];
        entries.push(StoredCharacterEntry { code: format_code(e.code), label: e.label.clone() });
        i = i + 1;
    }
    StoredCharacterSet {
        id: uuid_string(cs.id.0),
        name: cs.name.clone(),
        description: cs.description.clone(),
        entries,
    }
}

/// `s` stores glyph `g`: its code as canonical hex and its bitmap as visual rows.
pub open spec fn encodes_glyph(s: StoredGlyph, g: Glyph) -> bool {
    &&& s.code@ == code_text(g.code)
    &&& s.pixels@.len() == g.bitmap@.height
    &&& forall|y: int| 0 <= y < s.pixels@.len() ==> #[trigger] s.pixels@[y]@ == row_text(g.bitmap@.rows[y])
}

fn to_stored_glyph(g: &Glyph) -> (s: StoredGlyph)
    ensures
        encodes_glyph(s, *g),
{
    StoredGlyph { code: format_code(g.code), pixels: format_rows(&g.bitmap) }
}

/// The position of the last `x` in `s`.
pub open spec fn last_index(s: Seq<u32>, x: u32) -> Option<int>
    decreases s.len(),
{
    if s.len() == 0 {
        None
    } else if s.last() == x {
        Some(s.len() - 1)
    } else {
        last_index(s.drop_last(), x)
    }
}

/// Where glyph `g` goes in the canonical order: its code's (last) position in the
/// entry order, or, for a code with no entry, after every entry, by code.
pub open spec fn glyph_rank(g: Glyph, order: Seq<u32>) -> int {
    match last_index(order, g.code) {
        Some(i) => i,
        None => order.len() + g.code,
    }
}

/// The position at which a glyph of rank `r` joins `sorted`: after every glyph of
/// rank at most `r`.
pub open spec fn insert_position(sorted: Seq<Glyph>, r: int, order: Seq<u32>) -> int
    decreases sorted.len(),
{
    if sorted.len() == 0 {
        0
    } else if glyph_rank(sorted[0], order) > r {
        0
    } else {
        1 + insert_position(sorted.drop_first(), r, order)
    }
}

/// The canonical order of a page's glyphs: blank glyphs pruned, the rest stably
/// sorted by [`glyph_rank`].
pub open spec fn canonical_glyphs(glyphs: Seq<Glyph>, order: Seq<u32>) -> Seq<Glyph>
    decreases glyphs.len(),
{
    if glyphs.len() == 0 {
        Seq::empty()
    } else {
        let before = canonical_glyphs(glyphs.drop_last(), order);
        let g = glyphs.last();
        if g.bitmap@.is_blank() {
            before
        } else {
            before.insert(insert_position(before, glyph_rank(g, order), order), g)
        }
    }
}

pub(crate) proof fn lemma_insert_position_bound(sorted: Seq<Glyph>, r: int, order: Seq<u32>)
    ensures
        0 <= insert_position(sorted, r, order) <= sorted.len(),
    decreases sorted.len(),
{
    if sorted.len() > 0 {
        lemma_insert_position_bound(sorted.drop_first(), r, order);
    }
}

fn last_index_of(order: &Vec<u32>, code: u32) -> (r: Option<usize>)
    ensures
        r matches Some(i) ==> last_index(order@, code) == Some(i as int),
        r is None ==> last_index(order@, code) is None,
{
    let mut k: usize = order.len();
    proof {
        assert(order@.take(k as int) =~= order@);
    }
    while k > 0
        invariant
            k <= order@.len(),
            last_index(order@, code) == last_index(order@.take(k as int), code),
        decreases k,
    {
        proof {
            assert(order@.take(k as int).drop_last() =~= order@.take(k - 1));
        }
        if order[k - 1] == code {
            return Some(k - 1);
        }
        k = k - 1;
    }
    None
}

fn rank_of(g: &Glyph, order: &Vec<u32>) -> (r: u128)
    ensures
        r == glyph_rank(*g, order@),
{
    match last_index_of(order, g.code) {
        Some(i) => i as u128,
        None => order.len() as u128 + g.code as u128,
    }
}

/// The page's glyphs in canonical order, as stored glyphs.
fn ordered_stored_glyphs(page: &GlyphPage, order: &Vec<u32>) -> (stored: Vec<StoredGlyph>)
    ensures
        stored@.len() == canonical_glyphs(page.glyphs@, order@).len(),
        forall|i: int|
            0 <= i < stored@.len() ==> encodes_glyph(#[trigger] stored@[i], canonical_glyphs(page.glyphs@, order@)[i]),
{
    let ghost glyphs = page.glyphs@;
    let mut idx: Vec<usize> = Vec::new();
    let mut ranks: Vec<u128> = Vec::new();
    let mut k: usize = 0;
    while k < page.glyphs.len()
        invariant
            k <= glyphs.len(),
            glyphs == page.glyphs@,
            idx@.len() == ranks@.len(),
            forall|p: int| 0 <= p < idx@.len() ==> #[trigger] idx@[p] < glyphs.len(),
            forall|p: int| 0 <= p < idx@.len() ==> #[trigger] ranks@[p] == glyph_rank(glyphs[idx@[p] as int], order@),
            idx@.map_values(|i: usize| glyphs[i as int]) == canonical_glyphs(glyphs.take(k as int), order@),
        decreases glyphs.len() - k,
    {
        let g = &page.glyphs[k];
        let ghost before = canonical_glyphs(glyphs.take(k as int), order@);
        proof {
            assert(glyphs.take(k + 1).drop_last() =~= glyphs.take(k as int));
            assert(glyphs.take(k + 1).last() == *g);
        }
        if !g.bitmap.is_blank() {
            let r = rank_of(g, order);
            let mut pos: usize = 0;
            proof {
                assert(before.skip(0) =~= before);
            }
            while pos < idx.len() && ranks[pos] <= r
                invariant
                    pos <= idx@.len(),
                    idx@.len() == ranks@.len(),
                    before.len() == idx@.len(),
                    forall|p: int| 0 <= p < idx@.len() ==> #[trigger] ranks@[p] == glyph_rank(before[p], order@),
                    insert_position(before, r as int, order@) == pos + insert_position(before.skip(pos as int), r as int, order@),
                decreases idx@.len() - pos,
            {
                proof {
                    assert(before.skip(pos as int).drop_first() =~= before.skip(pos + 1));
                    assert(before.skip(pos as int)[0] == before[pos as int]);
                }
                pos = pos + 1;
            }
            proof {
                if pos < idx@.len() {
                    assert(before.skip(pos as int)[0] == before[pos as int]);
                }
                lemma_insert_position_bound(before, r as int, order@);
            }
            let ghost old_idx = idx@;
            let ghost old_ranks = ranks@;
            idx.insert(pos, k);
            ranks.insert(pos, r);
            proof {
                assert(idx@.map_values(|i: usize| glyphs[i as int]) =~= before.insert(pos as int, *g));
                assert forall|p: int| 0 <= p < idx@.len() implies #[trigger] ranks@[p] == glyph_rank(
                    glyphs[idx@[p] as int],
                    order@,
                ) by {
                    if p < pos {
                        assert(idx@[p] == old_idx[p]);
                    } else if p > pos {
                        assert(idx@[p] == old_idx[p - 1]);
                        assert(ranks@[p] == old_ranks[p - 1]);
                    }
                }
                assert forall|p: int| 0 <= p < idx@.len() implies #[trigger] idx@[p] < glyphs.len() by {
                    if p < pos {
                        assert(idx@[p] == old_idx[p]);
                    } else if p > pos {
                        assert(idx@[p] == old_idx[p - 1]);
                    }
                }
            }
        }
        k = k + 1;
    }
    proof {
        assert(glyphs.take(glyphs.len() as int) =~= glyphs);
    }
    let ghost canon = canonical_glyphs(glyphs, order@);
    let mut stored: Vec<StoredGlyph> = Vec::new();
    let mut p: usize = 0;
    while p < idx.len()
        invariant
            p <= idx@.len(),
            glyphs == page.glyphs@,
            forall|q: int| 0 <= q < idx@.len() ==> #[trigger] idx@[q] < glyphs.len(),
            idx@.map_values(|i: usize| glyphs[i as int]) == canon,
            stored@.len() == p,
            forall|q: int| 0 <= q < p ==> encodes_glyph(#[trigger] stored@[q], canon[q]),
        decreases idx@.len() - p,
    {
        let i = idx[p];
        proof {
            assert(canon[p as int] == glyphs[i as int]);
        }
        stored.push(to_stored_glyph(&page.glyphs[i]));
        p = p + 1;
    }
    stored
}


/// The stored form of a guide axis.
pub open spec fn stored_axis(a: GuideAxis) -> StoredAxis {
    match a {
        GuideAxis::Horizontal => StoredAxis::Horizontal,
        GuideAxis::Vertical => StoredAxis::Vertical,
    }
}

/// `s` stores guide `g`.
pub open spec fn encodes_guide(s: StoredGuide, g: Guide) -> bool {
    &&& s.id@ == uuid_text(g.id.0)
    &&& s.name == g.name
    &&& s.axis == stored_axis(g.axis)
    &&& s.position == g.position
    &&& s.visible == g.visible
    &&& s.locked == g.locked
}

fn to_stored_guide(g: &Guide) -> (s: StoredGuide)
    ensures
        encodes_guide(s, *g),
{
    StoredGuide {
        id: uuid_string(g.id.0),
        name: g.name.clone(),
        axis: match g.axis {
            GuideAxis::Horizontal => StoredAxis::Horizontal,
            GuideAxis::Vertical => StoredAxis::Vertical,
        },
        position: g.position,
        visible: g.visible,
        locked: g.locked,
    }
}

/// `s` stores page `p`, its glyphs in the canonical order for entry order `order`.
pub open spec fn encodes_page(s: StoredGlyphPage, p: GlyphPage, order: Seq<u32>) -> bool {
    let canon = canonical_glyphs(p.glyphs@, order);
    &&& s.id@ == uuid_text(p.id.0)
    &&& s.name == p.name
    &&& s.description == p.description
    &&& s.guides@.len() == p.guides@.len()
    &&& forall|i: int| 0 <= i < s.guides@.len() ==> encodes_guide(#[trigger] s.guides@[i], p.guides@[i])
    &&& s.glyphs@.len() == canon.len()
    &&& forall|i: int| 0 <= i < s.glyphs@.len() ==> encodes_glyph(#[trigger] s.glyphs@[i], canon[i])
}

fn to_stored_page(p: &GlyphPage, order: &Vec<u32>) -> (s: StoredGlyphPage)
    ensures
        encodes_page(s, *p, order@),
{
    let mut guides: Vec<StoredGuide> = Vec::new();
    let mut i: usize = 0;
    while i < p.guides.len()
        invariant
            i <= p.guides@.len(),
            guides@.len() == i,
            forall|k: int| 0 <= k < i ==> encodes_guide(#[trigger] guides@[k], p.guides@[k]),
        decreases p.guides@.len() - i,
    {
        guides.push(to_stored_guide(&p.guides[i]));
        i = i + 1;
    }
    StoredGlyphPage {
        id: uuid_string(p.id.0),
        name: p.name.clone(),
        description: p.description.clone(),
        guides,
        glyphs: ordered_stored_glyphs(p, order),
    }
}

/// The entry order a glyph set's glyphs are saved in: the codes of the (first)
/// character set it references, or none.
pub open spec fn entry_order(doc: FontSpace, gs: GlyphSet) -> Seq<u32> {
    match first_index(doc.character_set_ids(), gs.character_set_id) {
        Some(i) => doc.character_sets@[i].codes(),
        None => Seq::empty(),
    }
}

/// `s` stores glyph set `gs` of `doc`.
pub open spec fn encodes_glyph_set(s: StoredGlyphSet, gs: GlyphSet, doc: FontSpace) -> bool {
    &&& s.id@ == uuid_text(gs.id.0)
    &&& s.name == gs.name
    &&& s.description == gs.description
    &&& s.glyph_size == (StoredGlyphSize { width: gs.glyph_size.width, height: gs.glyph_size.height })
    &&& s.character_set_id@ == uuid_text(gs.character_set_id.0)
    &&& s.pages@.len() == gs.pages@.len()
    &&& forall|i: int| 0 <= i < s.pages@.len() ==> encodes_page(#[trigger] s.pages@[i], gs.pages@[i], entry_order(doc, gs))
}

fn to_stored_glyph_set(gs: &GlyphSet, doc: &FontSpace) -> (s: StoredGlyphSet)
    ensures
        encodes_glyph_set(s, *gs, *doc),
{
    let mut order: Vec<u32> = Vec::new();
    match doc.character_set(gs.character_set_id) {
        Some(cs) => {
            let mut k: usize = 0;
            while k < cs.entries.len()
                invariant
                    k <= cs.entries@.len(),
                    order@ == cs.codes().take(k as int),
                decreases cs.entries@.len() - k,
            {
                order.push(cs.entries[k].code);
                proof {
                    assert(order@ =~= cs.codes().take(k + 1));
                }
                k = k + 1;
            }
            proof {
                assert(cs.codes().take(cs.entries@.len() as int) =~= cs.codes());
            }
        },
        None => {},
    }
    proof {
        lemma_first_index_props(doc.character_set_ids(), gs.character_set_id);
        assert(order@ == entry_order(*doc, *gs));
    }
    let mut pages: Vec<StoredGlyphPage> = Vec::new();
    let mut i: usize = 0;
    while i < gs.pages.len()
        invariant
            i <= gs.pages@.len(),
            order@ == entry_order(*doc, *gs),
            pages@.len() == i,
            forall|k: int| 0 <= k < i ==> encodes_page(#[trigger] pages@[k], gs.pages@[k], entry_order(*doc, *gs)),
        decreases gs.pages@.len() - i,
    {
        pages.push(to_stored_page(&gs.pages[i], &order));
        i = i + 1;
    }
    StoredGlyphSet {
        id: uuid_string(gs.id.0),
        name: gs.name.clone(),
        description: gs.description.clone(),
        glyph_size: StoredGlyphSize { width: gs.glyph_size.width, height: gs.glyph_size.height },
        character_set_id: uuid_string(gs.character_set_id.0),
        pages,
    }
}

/// The stored form of an address line's source.
pub open spec fn stored_address_bit(b: AddressBitSource) -> StoredAddressBit
    decreases b,
{
    match b {
        AddressBitSource::Constant(v) => StoredAddressBit::Constant(v),
        AddressBitSource::CodeBit(n) => StoredAddressBit::Code(n),
        AddressBitSource::PageBit(n) => StoredAddressBit::Page(n),
        AddressBitSource::PixelXBit(n) => StoredAddressBit::PixelX(n),
        AddressBitSource::PixelYBit(n) => StoredAddressBit::PixelY(n),
        AddressBitSource::Inverted(inner) => StoredAddressBit::Inverted(Box::new(stored_address_bit(*inner))),
    }
}

fn to_stored_address_bit(b: &AddressBitSource) -> (s: StoredAddressBit)
    ensures
        s == stored_address_bit(*b),
    decreases b,
{
    match b {
        AddressBitSource::Constant(v) => StoredAddressBit::Constant(*v),
        AddressBitSource::CodeBit(n) => StoredAddressBit::Code(*n),
        AddressBitSource::PageBit(n) => StoredAddressBit::Page(*n),
        AddressBitSource::PixelXBit(n) => StoredAddressBit::PixelX(*n),
        AddressBitSource::PixelYBit(n) => StoredAddressBit::PixelY(*n),
        AddressBitSource::Inverted(inner) => StoredAddressBit::Inverted(Box::new(to_stored_address_bit(inner))),
    }
}

/// The stored form of a coordinate expression.
pub open spec fn stored_coord(c: CoordinateExpr) -> StoredCoordExpr {
    match c {
        CoordinateExpr::Constant(v) => StoredCoordExpr::Constant(v),
        CoordinateExpr::AddressedX => StoredCoordExpr::AddressedX,
        CoordinateExpr::AddressedY => StoredCoordExpr::AddressedY,
        CoordinateExpr::AddressedXPlus(v) => StoredCoordExpr::AddressedXPlus(v),
        CoordinateExpr::AddressedYPlus(v) => StoredCoordExpr::AddressedYPlus(v),
    }
}

fn to_stored_coord(c: CoordinateExpr) -> (s: StoredCoordExpr)
    ensures
        s == stored_coord(c),
{
    match c {
        CoordinateExpr::Constant(v) => StoredCoordExpr::Constant(v),
        CoordinateExpr::AddressedX => StoredCoordExpr::AddressedX,
        CoordinateExpr::AddressedY => StoredCoordExpr::AddressedY,
        CoordinateExpr::AddressedXPlus(v) => StoredCoordExpr::AddressedXPlus(v),
        CoordinateExpr::AddressedYPlus(v) => StoredCoordExpr::AddressedYPlus(v),
    }
}

/// The stored form of a data bit's source.
pub open spec fn stored_output_bit(b: OutputBitSource) -> StoredOutputBit
    decreases b,
{
    match b {
        OutputBitSource::Constant(v) => StoredOutputBit::Constant(v),
        OutputBitSource::Pixel { x, y } => StoredOutputBit::Pixel { x: stored_coord(x), y: stored_coord(y) },
        OutputBitSource::Inverted(inner) => StoredOutputBit::Inverted(Box::new(stored_output_bit(*inner))),
    }
}

fn to_stored_output_bit(b: &OutputBitSource) -> (s: StoredOutputBit)
    ensures
        s == stored_output_bit(*b),
    decreases b,
{
    match b {
        OutputBitSource::Constant(v) => StoredOutputBit::Constant(*v),
        OutputBitSource::Pixel { x, y } => StoredOutputBit::Pixel { x: to_stored_coord(*x), y: to_stored_coord(*y) },
        OutputBitSource::Inverted(inner) => StoredOutputBit::Inverted(Box::new(to_stored_output_bit(inner))),
    }
}

/// `s` stores export config `c`.
pub open spec fn encodes_export_config(s: StoredExportConfig, c: ExportConfig) -> bool {
    &&& s.id@ == uuid_text(c.id.0)
    &&& s.name == c.name
    &&& s.description == c.description
    &&& s.source.glyph_set_id@ == uuid_text(c.source.glyph_set_id.0)
    &&& s.source.pages@.len() == c.source.pages@.len()
    &&& forall|i: int| 0 <= i < s.source.pages@.len() ==> (#[trigger] s.source.pages@[i])@ == uuid_text(c.source.pages@[i].0)
    &&& s.address_map.id@ == uuid_text(c.address_map.id.0)
    &&& s.address_map.name == c.address_map.name
    &&& s.address_map.address_bits@ == c.address_map.address_bits@.map_values(|b: AddressBitSource| stored_address_bit(b))
    &&& s.data_map.id@ == uuid_text(c.data_map.id.0)
    &&& s.data_map.name == c.data_map.name
    &&& s.data_map.output_bits@ == c.data_map.output_bits@.map_values(|b: OutputBitSource| stored_output_bit(b))
    &&& match c.output_format {
        OutputFormatConfig::RawBinary => s.output_format == StoredOutputFormat::RawBinary,
        OutputFormatConfig::Unsupported { name } => s.output_format == StoredOutputFormat::Unsupported { name },
    }
    &&& s.output_address_bits == c.output_address_bits
    &&& s.fill_byte == c.fill_byte
}

fn to_stored_export_config(c: &ExportConfig) -> (s: StoredExportConfig)
    ensures
        encodes_export_config(s, *c),
{
    let mut pages: Vec<String> = Vec::new();
    let mut i: usize = 0;
    while i < c.source.pages.len()
        invariant
            i <= c.source.pages@.len(),
            pages@.len() == i,
            forall|k: int| 0 <= k < i ==> (#[trigger] pages@[k])@ == uuid_text(c.source.pages@[k].0),
        decreases c.source.pages@.len() - i,
    {
        pages.push(uuid_string(c.source.pages[i].0));
        i = i + 1;
    }
    let mut address_bits: Vec<StoredAddressBit> = Vec::new();
    let mut i: usize = 0;
    while i < c.address_map.address_bits.len()
        invariant
            i <= c.address_map.address_bits@.len(),
            address_bits@ == c.address_map.address_bits@.take(i as int).map_values(
                |b: AddressBitSource| stored_address_bit(b),
            ),
        decreases c.address_map.address_bits@.len() - i,
    {
        address_bits.push(to_stored_address_bit(&c.address_map.address_bits[i]));
        proof {
            assert(address_bits@ =~= c.address_map.address_bits@.take(i + 1).map_values(
                |b: AddressBitSource| stored_address_bit(b),
            ));
        }
        i = i + 1;
    }
    proof {
        assert(c.address_map.address_bits@.take(c.address_map.address_bits@.len() as int)
            =~= c.address_map.address_bits@);
    }
    let mut output_bits: Vec<StoredOutputBit> = Vec::new();
    let mut i: usize = 0;
    while i < c.data_map.output_bits.len()
        invariant
            i <= c.data_map.output_bits@.len(),
            output_bits@ == c.data_map.output_bits@.take(i as int).map_values(
                |b: OutputBitSource| stored_output_bit(b),
            ),
        decreases c.data_map.output_bits@.len() - i,
    {
        output_bits.push(to_stored_output_bit(&c.data_map.output_bits[i]));
        proof {
            assert(output_bits@ =~= c.data_map.output_bits@.take(i + 1).map_values(
                |b: OutputBitSource| stored_output_bit(b),
            ));
        }
        i = i + 1;
    }
    proof {
        assert(c.data_map.output_bits@.take(c.data_map.output_bits@.len() as int) =~= c.data_map.output_bits@);
    }
    let output_format = match &c.output_format {
        OutputFormatConfig::RawBinary => StoredOutputFormat::RawBinary,
        OutputFormatConfig::Unsupported { name } => StoredOutputFormat::Unsupported { name: name.clone() },
    };
    StoredExportConfig {
        id: uuid_string(c.id.0),
        name: c.name.clone(),
        description: c.description.clone(),
        source: StoredExportSource { glyph_set_id: uuid_string(c.source.glyph_set_id.0), pages },
        address_map: StoredAddressMap {
            id: uuid_string(c.address_map.id.0),
            name: c.address_map.name.clone(),
            address_bits,
        },
        data_map: StoredDataMap { id: uuid_string(c.data_map.id.0), name: c.data_map.name.clone(), output_bits },
        output_format,
        output_address_bits: c.output_address_bits,
        fill_byte: c.fill_byte,
    }
}

/// `s` is the canonical stored form of `doc`.
pub open spec fn encodes(s: StoredFontSpaceV1, doc: FontSpace) -> bool {
    &&& s.format_version == doc.format_version
    &&& s.id@ == uuid_text(doc.id.0)
    &&& s.metadata.name == doc.metadata.name
    &&& s.metadata.description == doc.metadata.description
    &&& s.character_sets@.len() == doc.character_sets@.len()
    &&& forall|i: int|
        0 <= i < s.character_sets@.len() ==> encodes_character_set(#[trigger] s.character_sets@[i], doc.character_sets@[i])
    &&& s.glyph_sets@.len() == doc.glyph_sets@.len()
    &&& forall|i: int| 0 <= i < s.glyph_sets@.len() ==> encodes_glyph_set(#[trigger] s.glyph_sets@[i], doc.glyph_sets@[i], doc)
    &&& s.export_configs@.len() == doc.export_configs@.len()
    &&& forall|i: int|
        0 <= i < s.export_configs@.len() ==> encodes_export_config(#[trigger] s.export_configs@[i], doc.export_configs@[i])
}

/// Converts a document to its canonical stored form.
pub fn to_stored(doc: &FontSpace) -> (s: StoredFontSpaceV1)
    ensures
        encodes(s, *doc),
{
    let mut character_sets: Vec<StoredCharacterSet> = Vec::new();
    let mut i: usize = 0;
    while i < doc.character_sets.len()
        invariant
            i <= doc.character_sets@.len(),
            character_sets@.len() == i,
            forall|k: int| 0 <= k < i ==> encodes_character_set(#[trigger] character_sets@[k], doc.character_sets@[k]),
        decreases doc.character_sets@.len() - i,
    {
        character_sets.push(to_stored_character_set(&doc.character_sets[i]));
        i = i + 1;
    }
    let mut glyph_sets: Vec<StoredGlyphSet> = Vec::new();
    let mut i: usize = 0;
    while i < doc.glyph_sets.len()
        invariant
            i <= doc.glyph_sets@.len(),
            glyph_sets@.len() == i,
            forall|k: int| 0 <= k < i ==> encodes_glyph_set(#[trigger] glyph_sets@[k], doc.glyph_sets@[k], *doc),
        decreases doc.glyph_sets@.len() - i,
    {
        glyph_sets.push(to_stored_glyph_set(&doc.glyph_sets[i], doc));
        i = i + 1;
    }
    let mut export_configs: Vec<StoredExportConfig> = Vec::new();
    let mut i: usize = 0;
    while i < doc.export_configs.len()
        invariant
            i <= doc.export_configs@.len(),
            export_configs@.len() == i,
            forall|k: int| 0 <= k < i ==> encodes_export_config(#[trigger] export_configs@[k], doc.export_configs@[k]),
        decreases doc.export_configs@.len() - i,
    {
        export_configs.push(to_stored_export_config(&doc.export_configs[i]));
        i = i + 1;
    }
    StoredFontSpaceV1 {
        format_version: doc.format_version,
        id: uuid_string(doc.id.0),
        metadata: StoredMetadata {
            name: doc.metadata.name.clone(),
            description: doc.metadata.description.clone(),
        },
        character_sets,
        glyph_sets,
        export_configs,
    }
}

// ---- loading ----

/// The error a JSON parser reports (declared so that the load error can carry it).
#[verifier::external_type_specification]
#[verifier::external_body]
pub struct ExJsonSyntaxError(serde_json::Error);

/// Why loading a document or a fragment failed. Each variant names the object
/// context as specifically as the failing site allows.
#[derive(Debug)]
pub enum JsonError {
    /// The bytes are not valid JSON, or do not match the storage schema.
    Syntax(serde_json::Error),
    /// The document declares a `format_version` this build does not support.
    UnsupportedVersion { found: u32, supported: u32 },
    /// A UUID string could not be parsed.
    InvalidUuid { context: String, value: String },
    /// A `code` string was neither decimal nor `0x` hex.
    InvalidCode { context: String, value: String },
    /// A glyph's pixel row count did not equal the glyph height.
    RowCount { context: String, expected: u16, found: usize },
    /// A glyph's pixel row width did not equal the glyph width.
    RowWidth { context: String, row: usize, expected: u16, found: usize },
    /// A pixel row held a character other than `.` or `#`.
    InvalidPixelChar { context: String, row: usize, column: usize, ch: char },
    /// The document parsed but failed structural validation (dangling glyphs are
    /// warnings, not errors).
    Invalid(Vec<ValidationError>),
    /// The fragment declares a `fragment_version` this build does not support.
    UnsupportedFragmentVersion { found: u32, supported: u32 },
    /// The fragment's `kind` is not one this build knows.
    UnknownFragmentKind { kind: String },
    /// The fragment's source glyph size is not a valid geometry.
    InvalidFragmentGeometry { width: u16, height: u16, reason: String },
}

/// The UUID a string reads as (`uuid::Uuid::parse_str`: hyphenated, simple, braced
/// or URN forms, either case), if any.
pub uninterp spec fn uuid_parse(text: Seq<char>) -> Option<u128>;

/// Parses a UUID by `uuid::Uuid::parse_str`. Its result is named by
/// [`uuid_parse`]; beyond that this item claims only that the canonical hyphenated
/// text of a UUID reads back as that UUID.
#[verifier::external_body]
pub(crate) fn parse_uuid(text: &str) -> (r: Option<u128>)
    ensures
        r == uuid_parse(text@),
        forall|u: u128| text@ == uuid_text(u) ==> r == Some(u),
{
    match uuid::Uuid::parse_str(text) {
        Ok(u) => Some(u.as_u128()),
        Err(_) => None,
    }
}

/// The text `{:?}` gives a string: quoted, with std's escapes.
pub uninterp spec fn debug_text(s: Seq<char>) -> Seq<char>;

/// A string as `{:?}` shows it, by std's `Debug` for `str`, named by
/// [`debug_text`].
#[verifier::external_body]
pub(crate) fn debug_quoted(s: &str) -> (r: String)
    ensures
        r@ == debug_text(s@),
{
    format!("{s:?}")
}

/// `text` reads as `id`, and no other id has `text` as its canonical form.
pub open spec fn reads_id(text: Seq<char>, id: u128) -> bool {
    &&& uuid_parse(text) == Some(id)
    &&& forall|u: u128| #[trigger] uuid_text(u) == text ==> u == id
}

/// The first malformed value found while loading, with its context.
pub enum DecodeFailure {
    Uuid { context: Seq<char>, value: Seq<char> },
    Code { context: Seq<char>, value: Seq<char> },
    Rows { context: Seq<char>, error: RowError },
}

/// `e` reports failure `f`.
pub open spec fn failure_matches(e: JsonError, f: DecodeFailure) -> bool {
    match f {
        DecodeFailure::Uuid { context, value } => e matches JsonError::InvalidUuid { context: c, value: v }
            && c@ == context && v@ == value,
        DecodeFailure::Code { context, value } => e matches JsonError::InvalidCode { context: c, value: v }
            && c@ == context && v@ == value,
        DecodeFailure::Rows { context, error } => match error {
            RowError::RowCount { expected, found } => e matches JsonError::RowCount {
                context: c,
                expected: x,
                found: n,
            } && c@ == context && x == expected && n == found,
            RowError::RowWidth { row, expected, found } => e matches JsonError::RowWidth {
                context: c,
                row: r,
                expected: x,
                found: n,
            } && c@ == context && r == row && x == expected && n == found,
            RowError::InvalidChar { row, column, ch } => e matches JsonError::InvalidPixelChar {
                context: c,
                row: r,
                column: k,
                ch: h,
            } && c@ == context && r == row && k == column && h == ch,
        },
    }
}

/// `a` if it is a failure, else `b`: the first of two checks.
pub open spec fn first_of(a: Option<DecodeFailure>, b: Option<DecodeFailure>) -> Option<DecodeFailure> {
    if a is Some {
        a
    } else {
        b
    }
}

/// A UUID string that does not parse, with its context. The canonical text of a
/// UUID always parses, so it never fails.
pub open spec fn uuid_failure(context: Seq<char>, value: Seq<char>) -> Option<DecodeFailure> {
    if uuid_parse(value) is None && !(exists|u: u128| #[trigger] uuid_text(u) == value) {
        Some(DecodeFailure::Uuid { context, value })
    } else {
        None
    }
}

/// The first entry whose code does not parse.
pub open spec fn entries_failure(ctx: Seq<char>, entries: Seq<StoredCharacterEntry>) -> Option<DecodeFailure>
    decreases entries.len(),
{
    if entries.len() == 0 {
        None
    } else {
        let e = entries.last();
        first_of(
            entries_failure(ctx, entries.drop_last()),
            if code_value(e.code@) is None {
                Some(DecodeFailure::Code { context: ctx + " entry "@ + debug_text(e.label@), value: e.code@ })
            } else {
                None
            },
        )
    }
}

/// The context naming a character set.
pub open spec fn character_set_context(s: StoredCharacterSet) -> Seq<char> {
    "character set "@ + debug_text(s.name@)
}

/// The first malformed value of a stored character set: its id, then its entries.
pub open spec fn character_set_failure(s: StoredCharacterSet) -> Option<DecodeFailure> {
    first_of(
        uuid_failure(character_set_context(s), s.id@),
        entries_failure(character_set_context(s), s.entries@),
    )
}

/// `e` is the entry stored as `s`.
pub open spec fn decodes_entry(e: CharacterEntry, s: StoredCharacterEntry) -> bool {
    code_value(s.code@) == Some(e.code) && e.label == s.label
}

/// `cs` is the character set stored as `s`.
pub open spec fn decodes_character_set(cs: CharacterSet, s: StoredCharacterSet) -> bool {
    &&& reads_id(s.id@, cs.id.0)
    &&& cs.name == s.name
    &&& cs.description == s.description
    &&& cs.entries@.len() == s.entries@.len()
    &&& forall|i: int| 0 <= i < cs.entries@.len() ==> decodes_entry(#[trigger] cs.entries@[i], s.entries@[i])
}

fn push_debug(t: &mut String, s: &str)
    ensures
        final(t)@ == old(t)@ + debug_text(s@),
{
    let q = debug_quoted(s);
    push_str(t, q.as_str());
}

fn uuid_or_error(context: &String, value: &String) -> (r: Result<u128, JsonError>)
    ensures
        match uuid_failure(context@, value@) {
            Some(f) => (r matches Err(e) && failure_matches(e, f)),
            None => (r matches Ok(u) && reads_id(value@, u)),
        },
{
    match parse_uuid(value.as_str()) {
        Some(u) => Ok(u),
        None => {
            proof {
                assert(!(exists|u: u128| #[trigger] uuid_text(u) == value@));
            }
            Err(JsonError::InvalidUuid { context: context.clone(), value: value.clone() })
        },
    }
}

fn from_stored_character_set(s: &StoredCharacterSet) -> (r: Result<CharacterSet, JsonError>)
    ensures
        match character_set_failure(*s) {
            Some(f) => (r matches Err(e) && failure_matches(e, f)),
            None => (r matches Ok(cs) && decodes_character_set(cs, *s)),
        },
{
    let mut context = String::new();
    push_str(&mut context, "character set ");
    push_debug(&mut context, s.name.as_str());
    let id = match uuid_or_error(&context, &s.id) {
        Ok(u) => u,
        Err(e) => {
            return Err(e);
        },
    };
    let mut entries: Vec<CharacterEntry> = Vec::new();
    let mut i: usize = 0;
    while i < s.entries.len()
        invariant
            i <= s.entries@.len(),
            context@ == character_set_context(*s),
            uuid_failure(context@, s.id@) is None,
            reads_id(s.id@, id),
            entries_failure(context@, s.entries@.take(i as int)) is None,
            entries@.len() == i,
            forall|k: int| 0 <= k < i ==> decodes_entry(#[trigger] entries@[k], s.entries@[k]),
        decreases s.entries@.len() - i,
    {
        let e = &s.entries[i];
        proof {
            assert(s.entries@.take(i + 1).drop_last() =~= s.entries@.take(i as int));
        }
        match parse_code(e.code.as_str()) {
            Some(code) => {
                entries.push(CharacterEntry { code, label: e.label.clone() });
            },
            None => {
                let mut entry_context = context.clone();
                push_str(&mut entry_context, " entry ");
                push_debug(&mut entry_context, e.label.as_str());
                proof {
                    assert(entries_failure(context@, s.entries@.take(i + 1)) == Some(
                        DecodeFailure::Code { context: entry_context@, value: e.code@ },
                    ));
                    lemma_first_failure_prefix_entries(context@, s.entries@, i + 1);
                }
                return Err(JsonError::InvalidCode { context: entry_context, value: e.code.clone() });
            },
        }
        i = i + 1;
    }
    proof {
        assert(s.entries@.take(s.entries@.len() as int) =~= s.entries@);
    }
    Ok(CharacterSet { id: crate::ids::CharacterSetId(id), name: s.name.clone(), description: s.description.clone(), entries })
}

proof fn lemma_first_failure_prefix_entries(ctx: Seq<char>, entries: Seq<StoredCharacterEntry>, n: int)
    requires
        0 <= n <= entries.len(),
        entries_failure(ctx, entries.take(n)) is Some,
    ensures
        entries_failure(ctx, entries) == entries_failure(ctx, entries.take(n)),
    decreases entries.len() - n,
{
    if n < entries.len() {
        assert(entries.take(n + 1).drop_last() =~= entries.take(n));
        lemma_first_failure_prefix_entries(ctx, entries, n + 1);
    } else {
        assert(entries.take(n) =~= entries);
    }
}

/// The first failing item of `items`, checked in order.
pub open spec fn first_failure<A>(items: Seq<A>, check: spec_fn(A) -> Option<DecodeFailure>) -> Option<DecodeFailure>
    decreases items.len(),
{
    if items.len() == 0 {
        None
    } else {
        first_of(first_failure(items.drop_last(), check), check(items.last()))
    }
}

pub(crate) proof fn lemma_first_failure_step<A>(items: Seq<A>, check: spec_fn(A) -> Option<DecodeFailure>, i: int)
    requires
        0 <= i < items.len(),
    ensures
        first_failure(items.take(i + 1), check) == first_of(first_failure(items.take(i), check), check(items[i])),
{
    assert(items.take(i + 1).drop_last() =~= items.take(i));
}

pub(crate) proof fn lemma_first_failure_prefix<A>(items: Seq<A>, check: spec_fn(A) -> Option<DecodeFailure>, n: int)
    requires
        0 <= n <= items.len(),
        first_failure(items.take(n), check) is Some,
    ensures
        first_failure(items, check) == first_failure(items.take(n), check),
    decreases items.len() - n,
{
    if n < items.len() {
        lemma_first_failure_step(items, check, n);
        lemma_first_failure_prefix(items, check, n + 1);
    } else {
        assert(items.take(n) =~= items);
    }
}

pub(crate) proof fn lemma_first_failure_all<A>(items: Seq<A>, check: spec_fn(A) -> Option<DecodeFailure>)
    ensures
        first_failure(items.take(items.len() as int), check) == first_failure(items, check),
{
    assert(items.take(items.len() as int) =~= items);
}

pub(crate) proof fn lemma_first_failure_none<A>(items: Seq<A>, check: spec_fn(A) -> Option<DecodeFailure>)
    requires
        forall|i: int| 0 <= i < items.len() ==> (#[trigger] check(items[i])) is None,
    ensures
        first_failure(items, check) is None,
    decreases items.len(),
{
    if items.len() > 0 {
        let before = items.drop_last();
        assert forall|i: int| 0 <= i < before.len() implies (#[trigger] check(before[i])) is None by {
            assert(before[i] == items[i]);
        }
        lemma_first_failure_none(before, check);
        assert(check(items[items.len() - 1]) is None);
    }
}

/// The check of one stored character set.
pub open spec fn character_set_check() -> spec_fn(StoredCharacterSet) -> Option<DecodeFailure> {
    |s: StoredCharacterSet| character_set_failure(s)
}

/// The context naming a page of glyph set `gs_name`.
pub open spec fn page_context(gs_name: Seq<char>, page_name: Seq<char>) -> Seq<char> {
    "glyph set "@ + debug_text(gs_name) + " / page "@ + debug_text(page_name)
}

/// The check of one stored guide of a page.
pub open spec fn guide_check(pctx: Seq<char>) -> spec_fn(StoredGuide) -> Option<DecodeFailure> {
    |g: StoredGuide| uuid_failure(pctx + " / guide "@ + debug_text(g.name@), g.id@)
}

/// The first malformed value of a stored glyph: its code, then its rows.
pub open spec fn glyph_failure(pctx: Seq<char>, size: GlyphSize, g: StoredGlyph) -> Option<DecodeFailure> {
    match code_value(g.code@) {
        None => Some(DecodeFailure::Code { context: pctx + " glyph code"@, value: g.code@ }),
        Some(c) => match rows_result(rows_chars(g.pixels@), size) {
            Err(e) => Some(DecodeFailure::Rows { context: pctx + " / code "@ + code_text(c), error: e }),
            Ok(_) => None,
        },
    }
}

/// The check of one stored glyph of a page.
pub open spec fn glyph_check(pctx: Seq<char>, size: GlyphSize) -> spec_fn(StoredGlyph) -> Option<DecodeFailure> {
    |g: StoredGlyph| glyph_failure(pctx, size, g)
}

/// The first malformed value of a stored page: its id, its guides, its glyphs.
pub open spec fn page_failure(gs_name: Seq<char>, size: GlyphSize, p: StoredGlyphPage) -> Option<DecodeFailure> {
    let pctx = page_context(gs_name, p.name@);
    first_of(
        uuid_failure(pctx, p.id@),
        first_of(
            first_failure(p.guides@, guide_check(pctx)),
            first_failure(p.glyphs@, glyph_check(pctx, size)),
        ),
    )
}

/// The check of one stored page of a glyph set.
pub open spec fn page_check(gs_name: Seq<char>, size: GlyphSize) -> spec_fn(StoredGlyphPage) -> Option<DecodeFailure> {
    |p: StoredGlyphPage| page_failure(gs_name, size, p)
}

/// The size a stored glyph set declares.
pub open spec fn stored_size(s: StoredGlyphSet) -> GlyphSize {
    GlyphSize { width: s.glyph_size.width, height: s.glyph_size.height }
}

/// The context naming a glyph set.
pub open spec fn glyph_set_context(s: StoredGlyphSet) -> Seq<char> {
    "glyph set "@ + debug_text(s.name@)
}

/// The first malformed value of a stored glyph set: its id, its character-set
/// reference, its pages.
pub open spec fn glyph_set_failure(s: StoredGlyphSet) -> Option<DecodeFailure> {
    first_of(
        uuid_failure(glyph_set_context(s), s.id@),
        first_of(
            uuid_failure(glyph_set_context(s) + " character_set_id"@, s.character_set_id@),
            first_failure(s.pages@, page_check(s.name@, stored_size(s))),
        ),
    )
}

/// The check of one stored glyph set.
pub open spec fn glyph_set_check() -> spec_fn(StoredGlyphSet) -> Option<DecodeFailure> {
    |s: StoredGlyphSet| glyph_set_failure(s)
}

/// The context naming an export config.
pub open spec fn export_config_context(s: StoredExportConfig) -> Seq<char> {
    "export config "@ + debug_text(s.name@)
}

/// The check of one stored source page id of an export config.
pub open spec fn source_page_check(ctx: Seq<char>) -> spec_fn(String) -> Option<DecodeFailure> {
    |p: String| uuid_failure(ctx + " page"@, p@)
}

/// The first malformed value of a stored export config: its id, its source glyph
/// set, its source pages, its address map id, its data map id.
pub open spec fn export_config_failure(s: StoredExportConfig) -> Option<DecodeFailure> {
    let ctx = export_config_context(s);
    first_of(
        uuid_failure(ctx, s.id@),
        first_of(
            uuid_failure(ctx + " glyph_set_id"@, s.source.glyph_set_id@),
            first_of(
                first_failure(s.source.pages@, source_page_check(ctx)),
                first_of(
                    uuid_failure(ctx + " address_map"@, s.address_map.id@),
                    uuid_failure(ctx + " data_map"@, s.data_map.id@),
                ),
            ),
        ),
    )
}

/// The check of one stored export config.
pub open spec fn export_config_check() -> spec_fn(StoredExportConfig) -> Option<DecodeFailure> {
    |s: StoredExportConfig| export_config_failure(s)
}

/// The first malformed value of a stored document: its id, then its character
/// sets, glyph sets and export configs, each in order.
pub open spec fn document_failure(s: StoredFontSpaceV1) -> Option<DecodeFailure> {
    first_of(
        uuid_failure("document id"@, s.id@),
        first_of(
            first_failure(s.character_sets@, character_set_check()),
            first_of(
                first_failure(s.glyph_sets@, glyph_set_check()),
                first_failure(s.export_configs@, export_config_check()),
            ),
        ),
    )
}

/// The domain form of a stored guide axis.
pub open spec fn domain_axis(a: StoredAxis) -> GuideAxis {
    match a {
        StoredAxis::Horizontal => GuideAxis::Horizontal,
        StoredAxis::Vertical => GuideAxis::Vertical,
    }
}

/// `g` is the guide stored as `s`.
pub open spec fn decodes_guide(g: Guide, s: StoredGuide) -> bool {
    &&& reads_id(s.id@, g.id.0)
    &&& g.name == s.name
    &&& g.axis == domain_axis(s.axis)
    &&& g.position == s.position
    &&& g.visible == s.visible
    &&& g.locked == s.locked
}

/// `g` is the glyph stored as `s`, in a glyph set of `size`.
pub open spec fn decodes_glyph(g: Glyph, s: StoredGlyph, size: GlyphSize) -> bool {
    &&& code_value(s.code@) == Some(g.code)
    &&& rows_result(rows_chars(s.pixels@), size) == Ok::<crate::bitmap::BitmapView, RowError>(g.bitmap@)
}

/// `p` is the page stored as `s`, in a glyph set of `size`.
pub open spec fn decodes_page(p: GlyphPage, s: StoredGlyphPage, size: GlyphSize) -> bool {
    &&& reads_id(s.id@, p.id.0)
    &&& p.name == s.name
    &&& p.description == s.description
    &&& p.guides@.len() == s.guides@.len()
    &&& forall|i: int| 0 <= i < p.guides@.len() ==> decodes_guide(#[trigger] p.guides@[i], s.guides@[i])
    &&& p.glyphs@.len() == s.glyphs@.len()
    &&& forall|i: int| 0 <= i < p.glyphs@.len() ==> decodes_glyph(#[trigger] p.glyphs@[i], s.glyphs@[i], size)
}

fn from_stored_guide(s: &StoredGuide, pctx: &String) -> (r: Result<Guide, JsonError>)
    ensures
        match guide_check(pctx@)(*s) {
            Some(f) => (r matches Err(e) && failure_matches(e, f)),
            None => (r matches Ok(g) && decodes_guide(g, *s)),
        },
{
    let mut context = pctx.clone();
    push_str(&mut context, " / guide ");
    push_debug(&mut context, s.name.as_str());
    let id = match uuid_or_error(&context, &s.id) {
        Ok(u) => u,
        Err(e) => {
            return Err(e);
        },
    };
    Ok(
        Guide {
            id: crate::ids::GuideId(id),
            name: s.name.clone(),
            axis: match s.axis {
                StoredAxis::Horizontal => GuideAxis::Horizontal,
                StoredAxis::Vertical => GuideAxis::Vertical,
            },
            position: s.position,
            visible: s.visible,
            locked: s.locked,
        },
    )
}

fn row_error_to_json(err: RowError, context: String) -> (e: JsonError)
    ensures
        failure_matches(e, DecodeFailure::Rows { context: context@, error: err }),
{
    match err {
        RowError::RowCount { expected, found } => JsonError::RowCount { context, expected, found },
        RowError::RowWidth { row, expected, found } => JsonError::RowWidth { context, row, expected, found },
        RowError::InvalidChar { row, column, ch } => JsonError::InvalidPixelChar { context, row, column, ch },
    }
}

fn from_stored_glyph(s: &StoredGlyph, pctx: &String, size: GlyphSize) -> (r: Result<Glyph, JsonError>)
    ensures
        match glyph_check(pctx@, size)(*s) {
            Some(f) => (r matches Err(e) && failure_matches(e, f)),
            None => (r matches Ok(g) && decodes_glyph(g, *s, size)),
        },
{
    let code = match parse_code(s.code.as_str()) {
        Some(c) => c,
        None => {
            let mut context = pctx.clone();
            push_str(&mut context, " glyph code");
            return Err(JsonError::InvalidCode { context, value: s.code.clone() });
        },
    };
    match parse_rows(s.pixels.as_slice(), size) {
        Ok(bitmap) => Ok(Glyph { code, bitmap }),
        Err(err) => {
            let mut context = pctx.clone();
            push_str(&mut context, " / code ");
            let c = format_code(code);
            push_str(&mut context, c.as_str());
            Err(row_error_to_json(err, context))
        },
    }
}

fn from_stored_page(s: &StoredGlyphPage, gs_name: &String, size: GlyphSize) -> (r: Result<GlyphPage, JsonError>)
    ensures
        match page_check(gs_name@, size)(*s) {
            Some(f) => (r matches Err(e) && failure_matches(e, f)),
            None => (r matches Ok(p) && decodes_page(p, *s, size)),
        },
{
    let mut pctx = String::new();
    push_str(&mut pctx, "glyph set ");
    push_debug(&mut pctx, gs_name.as_str());
    push_str(&mut pctx, " / page ");
    push_debug(&mut pctx, s.name.as_str());
    proof {
        assert(pctx@ =~= page_context(gs_name@, s.name@));
    }
    let id = match uuid_or_error(&pctx, &s.id) {
        Ok(u) => u,
        Err(e) => {
            return Err(e);
        },
    };
    let ghost gcheck = guide_check(pctx@);
    let mut guides: Vec<Guide> = Vec::new();
    let mut i: usize = 0;
    while i < s.guides.len()
        invariant
            i <= s.guides@.len(),
            gcheck == guide_check(pctx@),
            pctx@ == page_context(gs_name@, s.name@),
            uuid_failure(pctx@, s.id@) is None,
            reads_id(s.id@, id),
            first_failure(s.guides@.take(i as int), gcheck) is None,
            guides@.len() == i,
            forall|k: int| 0 <= k < i ==> decodes_guide(#[trigger] guides@[k], s.guides@[k]),
        decreases s.guides@.len() - i,
    {
        proof {
            lemma_first_failure_step(s.guides@, gcheck, i as int);
        }
        match from_stored_guide(&s.guides[i], &pctx) {
            Ok(g) => guides.push(g),
            Err(e) => {
                proof {
                    lemma_first_failure_prefix(s.guides@, gcheck, i + 1);
                }
                return Err(e);
            },
        }
        i = i + 1;
    }
    proof {
        lemma_first_failure_all(s.guides@, gcheck);
    }
    let ghost ycheck = glyph_check(pctx@, size);
    let mut glyphs: Vec<Glyph> = Vec::new();
    let mut i: usize = 0;
    while i < s.glyphs.len()
        invariant
            i <= s.glyphs@.len(),
            ycheck == glyph_check(pctx@, size),
            pctx@ == page_context(gs_name@, s.name@),
            uuid_failure(pctx@, s.id@) is None,
            reads_id(s.id@, id),
            guides@.len() == s.guides@.len(),
            forall|k: int| 0 <= k < guides@.len() ==> decodes_guide(#[trigger] guides@[k], s.guides@[k]),
            first_failure(s.guides@, guide_check(pctx@)) is None,
            first_failure(s.glyphs@.take(i as int), ycheck) is None,
            glyphs@.len() == i,
            forall|k: int| 0 <= k < i ==> decodes_glyph(#[trigger] glyphs@[k], s.glyphs@[k], size),
        decreases s.glyphs@.len() - i,
    {
        proof {
            lemma_first_failure_step(s.glyphs@, ycheck, i as int);
        }
        match from_stored_glyph(&s.glyphs[i], &pctx, size) {
            Ok(g) => glyphs.push(g),
            Err(e) => {
                proof {
                    lemma_first_failure_prefix(s.glyphs@, ycheck, i + 1);
                }
                return Err(e);
            },
        }
        i = i + 1;
    }
    proof {
        lemma_first_failure_all(s.glyphs@, ycheck);
    }
    Ok(GlyphPage { id: crate::ids::PageId(id), name: s.name.clone(), description: s.description.clone(), guides, glyphs })
}

/// `gs` is the glyph set stored as `s`.
pub open spec fn decodes_glyph_set(gs: GlyphSet, s: StoredGlyphSet) -> bool {
    &&& reads_id(s.id@, gs.id.0)
    &&& gs.name == s.name
    &&& gs.description == s.description
    &&& gs.glyph_size == stored_size(s)
    &&& reads_id(s.character_set_id@, gs.character_set_id.0)
    &&& gs.pages@.len() == s.pages@.len()
    &&& forall|i: int| 0 <= i < gs.pages@.len() ==> decodes_page(#[trigger] gs.pages@[i], s.pages@[i], stored_size(s))
}

fn from_stored_glyph_set(s: &StoredGlyphSet) -> (r: Result<GlyphSet, JsonError>)
    ensures
        match glyph_set_check()(*s) {
            Some(f) => (r matches Err(e) && failure_matches(e, f)),
            None => (r matches Ok(gs) && decodes_glyph_set(gs, *s)),
        },
{
    let mut context = String::new();
    push_str(&mut context, "glyph set ");
    push_debug(&mut context, s.name.as_str());
    let id = match uuid_or_error(&context, &s.id) {
        Ok(u) => u,
        Err(e) => {
            return Err(e);
        },
    };
    let mut cs_context = context.clone();
    push_str(&mut cs_context, " character_set_id");
    let character_set_id = match uuid_or_error(&cs_context, &s.character_set_id) {
        Ok(u) => u,
        Err(e) => {
            return Err(e);
        },
    };
    let size = GlyphSize::new(s.glyph_size.width, s.glyph_size.height);
    let ghost check = page_check(s.name@, size);
    let mut pages: Vec<GlyphPage> = Vec::new();
    let mut i: usize = 0;
    while i < s.pages.len()
        invariant
            i <= s.pages@.len(),
            size == stored_size(*s),
            check == page_check(s.name@, size),
            context@ == glyph_set_context(*s),
            cs_context@ == glyph_set_context(*s) + " character_set_id"@,
            uuid_failure(context@, s.id@) is None,
            uuid_failure(cs_context@, s.character_set_id@) is None,
            reads_id(s.id@, id),
            reads_id(s.character_set_id@, character_set_id),
            first_failure(s.pages@.take(i as int), check) is None,
            pages@.len() == i,
            forall|k: int| 0 <= k < i ==> decodes_page(#[trigger] pages@[k], s.pages@[k], size),
        decreases s.pages@.len() - i,
    {
        proof {
            lemma_first_failure_step(s.pages@, check, i as int);
        }
        match from_stored_page(&s.pages[i], &s.name, size) {
            Ok(p) => pages.push(p),
            Err(e) => {
                proof {
                    lemma_first_failure_prefix(s.pages@, check, i + 1);
                }
                return Err(e);
            },
        }
        i = i + 1;
    }
    proof {
        lemma_first_failure_all(s.pages@, check);
    }
    Ok(
        GlyphSet {
            id: crate::ids::GlyphSetId(id),
            name: s.name.clone(),
            description: s.description.clone(),
            glyph_size: size,
            character_set_id: crate::ids::CharacterSetId(character_set_id),
            pages,
        },
    )
}

/// The domain form of a stored address line's source.
pub open spec fn domain_address_bit(b: StoredAddressBit) -> AddressBitSource
    decreases b,
{
    match b {
        StoredAddressBit::Constant(v) => AddressBitSource::Constant(v),
        StoredAddressBit::Code(n) => AddressBitSource::CodeBit(n),
        StoredAddressBit::Page(n) => AddressBitSource::PageBit(n),
        StoredAddressBit::PixelX(n) => AddressBitSource::PixelXBit(n),
        StoredAddressBit::PixelY(n) => AddressBitSource::PixelYBit(n),
        StoredAddressBit::Inverted(inner) => AddressBitSource::Inverted(Box::new(domain_address_bit(*inner))),
    }
}

fn from_stored_address_bit(b: &StoredAddressBit) -> (r: AddressBitSource)
    ensures
        r == domain_address_bit(*b),
    decreases b,
{
    match b {
        StoredAddressBit::Constant(v) => AddressBitSource::Constant(*v),
        StoredAddressBit::Code(n) => AddressBitSource::CodeBit(*n),
        StoredAddressBit::Page(n) => AddressBitSource::PageBit(*n),
        StoredAddressBit::PixelX(n) => AddressBitSource::PixelXBit(*n),
        StoredAddressBit::PixelY(n) => AddressBitSource::PixelYBit(*n),
        StoredAddressBit::Inverted(inner) => AddressBitSource::Inverted(Box::new(from_stored_address_bit(inner))),
    }
}

/// The domain form of a stored coordinate expression.
pub open spec fn domain_coord(c: StoredCoordExpr) -> CoordinateExpr {
    match c {
        StoredCoordExpr::Constant(v) => CoordinateExpr::Constant(v),
        StoredCoordExpr::AddressedX => CoordinateExpr::AddressedX,
        StoredCoordExpr::AddressedY => CoordinateExpr::AddressedY,
        StoredCoordExpr::AddressedXPlus(v) => CoordinateExpr::AddressedXPlus(v),
        StoredCoordExpr::AddressedYPlus(v) => CoordinateExpr::AddressedYPlus(v),
    }
}

fn from_stored_coord(c: StoredCoordExpr) -> (r: CoordinateExpr)
    ensures
        r == domain_coord(c),
{
    match c {
        StoredCoordExpr::Constant(v) => CoordinateExpr::Constant(v),
        StoredCoordExpr::AddressedX => CoordinateExpr::AddressedX,
        StoredCoordExpr::AddressedY => CoordinateExpr::AddressedY,
        StoredCoordExpr::AddressedXPlus(v) => CoordinateExpr::AddressedXPlus(v),
        StoredCoordExpr::AddressedYPlus(v) => CoordinateExpr::AddressedYPlus(v),
    }
}

/// The domain form of a stored data bit's source.
pub open spec fn domain_output_bit(b: StoredOutputBit) -> OutputBitSource
    decreases b,
{
    match b {
        StoredOutputBit::Constant(v) => OutputBitSource::Constant(v),
        StoredOutputBit::Pixel { x, y } => OutputBitSource::Pixel { x: domain_coord(x), y: domain_coord(y) },
        StoredOutputBit::Inverted(inner) => OutputBitSource::Inverted(Box::new(domain_output_bit(*inner))),
    }
}

fn from_stored_output_bit(b: &StoredOutputBit) -> (r: OutputBitSource)
    ensures
        r == domain_output_bit(*b),
    decreases b,
{
    match b {
        StoredOutputBit::Constant(v) => OutputBitSource::Constant(*v),
        StoredOutputBit::Pixel { x, y } => OutputBitSource::Pixel { x: from_stored_coord(*x), y: from_stored_coord(*y) },
        StoredOutputBit::Inverted(inner) => OutputBitSource::Inverted(Box::new(from_stored_output_bit(inner))),
    }
}

/// `c` is the export config stored as `s`.
pub open spec fn decodes_export_config(c: ExportConfig, s: StoredExportConfig) -> bool {
    &&& reads_id(s.id@, c.id.0)
    &&& c.name == s.name
    &&& c.description == s.description
    &&& reads_id(s.source.glyph_set_id@, c.source.glyph_set_id.0)
    &&& c.source.pages@.len() == s.source.pages@.len()
    &&& forall|i: int| 0 <= i < c.source.pages@.len() ==> reads_id(s.source.pages@[i]@, (#[trigger] c.source.pages@[i]).0)
    &&& reads_id(s.address_map.id@, c.address_map.id.0)
    &&& c.address_map.name == s.address_map.name
    &&& c.address_map.address_bits@ == s.address_map.address_bits@.map_values(|b: StoredAddressBit| domain_address_bit(b))
    &&& reads_id(s.data_map.id@, c.data_map.id.0)
    &&& c.data_map.name == s.data_map.name
    &&& c.data_map.output_bits@ == s.data_map.output_bits@.map_values(|b: StoredOutputBit| domain_output_bit(b))
    &&& match s.output_format {
        StoredOutputFormat::RawBinary => c.output_format == OutputFormatConfig::RawBinary,
        StoredOutputFormat::Unsupported { name } => c.output_format == OutputFormatConfig::Unsupported { name },
    }
    &&& c.output_address_bits == s.output_address_bits
    &&& c.fill_byte == s.fill_byte
}

fn from_stored_export_config(s: &StoredExportConfig) -> (r: Result<ExportConfig, JsonError>)
    ensures
        match export_config_check()(*s) {
            Some(f) => (r matches Err(e) && failure_matches(e, f)),
            None => (r matches Ok(c) && decodes_export_config(c, *s)),
        },
{
    let mut context = String::new();
    push_str(&mut context, "export config ");
    push_debug(&mut context, s.name.as_str());
    let id = match uuid_or_error(&context, &s.id) {
        Ok(u) => u,
        Err(e) => {
            return Err(e);
        },
    };
    let mut gs_context = context.clone();
    push_str(&mut gs_context, " glyph_set_id");
    let glyph_set_id = match uuid_or_error(&gs_context, &s.source.glyph_set_id) {
        Ok(u) => u,
        Err(e) => {
            return Err(e);
        },
    };
    let mut page_context_text = context.clone();
    push_str(&mut page_context_text, " page");
    let ghost check = source_page_check(context@);
    let mut pages: Vec<crate::ids::PageId> = Vec::new();
    let mut i: usize = 0;
    while i < s.source.pages.len()
        invariant
            i <= s.source.pages@.len(),
            check == source_page_check(context@),
            context@ == export_config_context(*s),
            uuid_failure(context@, s.id@) is None,
            uuid_failure(context@ + " glyph_set_id"@, s.source.glyph_set_id@) is None,
            page_context_text@ == context@ + " page"@,
            first_failure(s.source.pages@.take(i as int), check) is None,
            pages@.len() == i,
            forall|k: int| 0 <= k < i ==> reads_id(s.source.pages@[k]@, (#[trigger] pages@[k]).0),
        decreases s.source.pages@.len() - i,
    {
        proof {
            lemma_first_failure_step(s.source.pages@, check, i as int);
        }
        match uuid_or_error(&page_context_text, &s.source.pages[i]) {
            Ok(u) => pages.push(crate::ids::PageId(u)),
            Err(e) => {
                proof {
                    lemma_first_failure_prefix(s.source.pages@, check, i + 1);
                }
                return Err(e);
            },
        }
        i = i + 1;
    }
    proof {
        lemma_first_failure_all(s.source.pages@, check);
    }
    let mut am_context = context.clone();
    push_str(&mut am_context, " address_map");
    let address_id = match uuid_or_error(&am_context, &s.address_map.id) {
        Ok(u) => u,
        Err(e) => {
            return Err(e);
        },
    };
    let mut dm_context = context.clone();
    push_str(&mut dm_context, " data_map");
    let data_id = match uuid_or_error(&dm_context, &s.data_map.id) {
        Ok(u) => u,
        Err(e) => {
            return Err(e);
        },
    };
    let mut address_bits: Vec<AddressBitSource> = Vec::new();
    let mut i: usize = 0;
    while i < s.address_map.address_bits.len()
        invariant
            i <= s.address_map.address_bits@.len(),
            address_bits@ == s.address_map.address_bits@.take(i as int).map_values(
                |b: StoredAddressBit| domain_address_bit(b),
            ),
        decreases s.address_map.address_bits@.len() - i,
    {
        address_bits.push(from_stored_address_bit(&s.address_map.address_bits[i]));
        proof {
            assert(address_bits@ =~= s.address_map.address_bits@.take(i + 1).map_values(
                |b: StoredAddressBit| domain_address_bit(b),
            ));
        }
        i = i + 1;
    }
    proof {
        assert(s.address_map.address_bits@.take(s.address_map.address_bits@.len() as int) =~= s.address_map.address_bits@);
    }
    let mut output_bits: Vec<OutputBitSource> = Vec::new();
    let mut i: usize = 0;
    while i < s.data_map.output_bits.len()
        invariant
            i <= s.data_map.output_bits@.len(),
            output_bits@ == s.data_map.output_bits@.take(i as int).map_values(
                |b: StoredOutputBit| domain_output_bit(b),
            ),
        decreases s.data_map.output_bits@.len() - i,
    {
        output_bits.push(from_stored_output_bit(&s.data_map.output_bits[i]));
        proof {
            assert(output_bits@ =~= s.data_map.output_bits@.take(i + 1).map_values(
                |b: StoredOutputBit| domain_output_bit(b),
            ));
        }
        i = i + 1;
    }
    proof {
        assert(s.data_map.output_bits@.take(s.data_map.output_bits@.len() as int) =~= s.data_map.output_bits@);
    }
    let output_format = match &s.output_format {
        StoredOutputFormat::RawBinary => OutputFormatConfig::RawBinary,
        StoredOutputFormat::Unsupported { name } => OutputFormatConfig::Unsupported { name: name.clone() },
    };
    Ok(
        ExportConfig {
            id: crate::ids::ExportConfigId(id),
            name: s.name.clone(),
            description: s.description.clone(),
            source: ExportSourceSpec { glyph_set_id: crate::ids::GlyphSetId(glyph_set_id), pages },
            address_map: AddressMap {
                id: crate::ids::ExportComponentId(address_id),
                name: s.address_map.name.clone(),
                address_bits,
            },
            data_map: DataMap {
                id: crate::ids::ExportComponentId(data_id),
                name: s.data_map.name.clone(),
                output_bits,
            },
            output_format,
            output_address_bits: s.output_address_bits,
            fill_byte: s.fill_byte,
        },
    )
}

/// `doc` is the document stored as `s`.
pub open spec fn decodes(doc: FontSpace, s: StoredFontSpaceV1) -> bool {
    &&& doc.format_version == s.format_version
    &&& reads_id(s.id@, doc.id.0)
    &&& doc.metadata.name == s.metadata.name
    &&& doc.metadata.description == s.metadata.description
    &&& doc.character_sets@.len() == s.character_sets@.len()
    &&& forall|i: int|
        0 <= i < doc.character_sets@.len() ==> decodes_character_set(#[trigger] doc.character_sets@[i], s.character_sets@[i])
    &&& doc.glyph_sets@.len() == s.glyph_sets@.len()
    &&& forall|i: int| 0 <= i < doc.glyph_sets@.len() ==> decodes_glyph_set(#[trigger] doc.glyph_sets@[i], s.glyph_sets@[i])
    &&& doc.export_configs@.len() == s.export_configs@.len()
    &&& forall|i: int|
        0 <= i < doc.export_configs@.len() ==> decodes_export_config(#[trigger] doc.export_configs@[i], s.export_configs@[i])
}

/// Converts a stored document back to a document, or reports its first malformed
/// value with context.
pub fn decode_document(s: &StoredFontSpaceV1) -> (r: Result<FontSpace, JsonError>)
    ensures
        match document_failure(*s) {
            Some(f) => (r matches Err(e) && failure_matches(e, f)),
            None => (r matches Ok(doc) && decodes(doc, *s)),
        },
{
    let mut context = String::new();
    push_str(&mut context, "document id");
    proof {
        reveal_strlit("document id");
    }
    let id = match uuid_or_error(&context, &s.id) {
        Ok(u) => u,
        Err(e) => {
            return Err(e);
        },
    };
    let ghost ccheck = character_set_check();
    let mut character_sets: Vec<CharacterSet> = Vec::new();
    let mut i: usize = 0;
    while i < s.character_sets.len()
        invariant
            i <= s.character_sets@.len(),
            ccheck == character_set_check(),
            uuid_failure("document id"@, s.id@) is None,
            reads_id(s.id@, id),
            first_failure(s.character_sets@.take(i as int), ccheck) is None,
            character_sets@.len() == i,
            forall|k: int| 0 <= k < i ==> decodes_character_set(#[trigger] character_sets@[k], s.character_sets@[k]),
        decreases s.character_sets@.len() - i,
    {
        proof {
            lemma_first_failure_step(s.character_sets@, ccheck, i as int);
        }
        match from_stored_character_set(&s.character_sets[i]) {
            Ok(cs) => character_sets.push(cs),
            Err(e) => {
                proof {
                    lemma_first_failure_prefix(s.character_sets@, ccheck, i + 1);
                }
                return Err(e);
            },
        }
        i = i + 1;
    }
    proof {
        lemma_first_failure_all(s.character_sets@, ccheck);
    }
    let ghost gcheck = glyph_set_check();
    let mut glyph_sets: Vec<GlyphSet> = Vec::new();
    let mut i: usize = 0;
    while i < s.glyph_sets.len()
        invariant
            i <= s.glyph_sets@.len(),
            gcheck == glyph_set_check(),
            uuid_failure("document id"@, s.id@) is None,
            reads_id(s.id@, id),
            first_failure(s.character_sets@, character_set_check()) is None,
            character_sets@.len() == s.character_sets@.len(),
            forall|k: int|
                0 <= k < character_sets@.len() ==> decodes_character_set(#[trigger] character_sets@[k], s.character_sets@[k]),
            first_failure(s.glyph_sets@.take(i as int), gcheck) is None,
            glyph_sets@.len() == i,
            forall|k: int| 0 <= k < i ==> decodes_glyph_set(#[trigger] glyph_sets@[k], s.glyph_sets@[k]),
        decreases s.glyph_sets@.len() - i,
    {
        proof {
            lemma_first_failure_step(s.glyph_sets@, gcheck, i as int);
        }
        match from_stored_glyph_set(&s.glyph_sets[i]) {
            Ok(gs) => glyph_sets.push(gs),
            Err(e) => {
                proof {
                    lemma_first_failure_prefix(s.glyph_sets@, gcheck, i + 1);
                }
                return Err(e);
            },
        }
        i = i + 1;
    }
    proof {
        lemma_first_failure_all(s.glyph_sets@, gcheck);
    }
    let ghost echeck = export_config_check();
    let mut export_configs: Vec<ExportConfig> = Vec::new();
    let mut i: usize = 0;
    while i < s.export_configs.len()
        invariant
            i <= s.export_configs@.len(),
            echeck == export_config_check(),
            uuid_failure("document id"@, s.id@) is None,
            reads_id(s.id@, id),
            first_failure(s.character_sets@, character_set_check()) is None,
            character_sets@.len() == s.character_sets@.len(),
            forall|k: int|
                0 <= k < character_sets@.len() ==> decodes_character_set(#[trigger] character_sets@[k], s.character_sets@[k]),
            first_failure(s.glyph_sets@, glyph_set_check()) is None,
            glyph_sets@.len() == s.glyph_sets@.len(),
            forall|k: int| 0 <= k < glyph_sets@.len() ==> decodes_glyph_set(#[trigger] glyph_sets@[k], s.glyph_sets@[k]),
            first_failure(s.export_configs@.take(i as int), echeck) is None,
            export_configs@.len() == i,
            forall|k: int| 0 <= k < i ==> decodes_export_config(#[trigger] export_configs@[k], s.export_configs@[k]),
        decreases s.export_configs@.len() - i,
    {
        proof {
            lemma_first_failure_step(s.export_configs@, echeck, i as int);
        }
        match from_stored_export_config(&s.export_configs[i]) {
            Ok(c) => export_configs.push(c),
            Err(e) => {
                proof {
                    lemma_first_failure_prefix(s.export_configs@, echeck, i + 1);
                }
                return Err(e);
            },
        }
        i = i + 1;
    }
    proof {
        lemma_first_failure_all(s.export_configs@, echeck);
    }
    Ok(
        FontSpace {
            format_version: s.format_version,
            id: crate::ids::FontSpaceId(id),
            metadata: crate::document::FontSpaceMetadata {
                name: s.metadata.name.clone(),
                description: s.metadata.description.clone(),
            },
            character_sets,
            glyph_sets,
            export_configs,
        },
    )
}

/// The result of a successful load: the document and the tolerated warnings (such
/// as dangling glyphs) found by validation.
#[derive(Debug, Clone)]
pub struct LoadOutcome {
    pub document: FontSpace,
    pub warnings: Vec<ValidationWarning>,
}

/// Converts a stored version-1 document to a document and validates it under the
/// default limits: the first malformed value, or the validation errors, fail the
/// load; dangling glyphs are returned as warnings.
pub fn from_stored_v1(stored: StoredFontSpaceV1) -> (r: Result<LoadOutcome, JsonError>)
    ensures
        match document_failure(stored) {
            Some(f) => (r matches Err(e) && failure_matches(e, f)),
            None => match r {
                Ok(outcome) => {
                    &&& decodes(outcome.document, stored)
                    &&& validation_errors(outcome.document, default_limits()).len() == 0
                    &&& outcome.warnings@ == validation_warnings(outcome.document)
                },
                Err(e) => exists|doc: FontSpace|
                    #![trigger decodes(doc, stored)]
                    decodes(doc, stored) && (e matches JsonError::Invalid(errors) && errors@ == validation_errors(
                        doc,
                        default_limits(),
                    ) && errors@.len() > 0),
            },
        },
{
    let document = match decode_document(&stored) {
        Ok(doc) => doc,
        Err(e) => {
            return Err(e);
        },
    };
    let limits = Limits::default();
    let report = document.validate(&limits);
    if report.errors.len() > 0 {
        return Err(JsonError::Invalid(report.errors));
    }
    Ok(LoadOutcome { document, warnings: report.warnings })
}

/// The load outcome for a document's declared `format_version`: version 1 is
/// read, any other is unsupported.
pub fn check_version(format_version: u32) -> (r: Result<(), JsonError>)
    ensures
        format_version == crate::document::CURRENT_FORMAT_VERSION ==> r is Ok,
        format_version != crate::document::CURRENT_FORMAT_VERSION ==> (r matches Err(JsonError::UnsupportedVersion {
            found,
            supported,
        }) && found == format_version && supported == crate::document::CURRENT_FORMAT_VERSION),
{
    if format_version == 1 {
        Ok(())
    } else {
        Err(
            JsonError::UnsupportedVersion {
                found: format_version,
                supported: crate::document::CURRENT_FORMAT_VERSION,
            },
        )
    }
}

/// Stored coordinates keep their names and their meaning: each coordinate form is
/// saved as the stored form of the same name and read back as the domain form of
/// the same name, and a read-back coordinate resolves against an addressed
/// position to the axis its stored name says (`addressed_x` the column,
/// `addressed_y` the row, the `_plus` forms offset from them).
pub proof fn law_coordinates_keep_their_axis(v: i32, s: StoredCoordExpr, at: crate::export::AddressedCoords)
    ensures
        stored_coord(CoordinateExpr::Constant(v)) == StoredCoordExpr::Constant(v),
        stored_coord(CoordinateExpr::AddressedX) == StoredCoordExpr::AddressedX,
        stored_coord(CoordinateExpr::AddressedY) == StoredCoordExpr::AddressedY,
        stored_coord(CoordinateExpr::AddressedXPlus(v)) == StoredCoordExpr::AddressedXPlus(v),
        stored_coord(CoordinateExpr::AddressedYPlus(v)) == StoredCoordExpr::AddressedYPlus(v),
        domain_coord(StoredCoordExpr::Constant(v)) == CoordinateExpr::Constant(v),
        domain_coord(StoredCoordExpr::AddressedX) == CoordinateExpr::AddressedX,
        domain_coord(StoredCoordExpr::AddressedY) == CoordinateExpr::AddressedY,
        domain_coord(StoredCoordExpr::AddressedXPlus(v)) == CoordinateExpr::AddressedXPlus(v),
        domain_coord(StoredCoordExpr::AddressedYPlus(v)) == CoordinateExpr::AddressedYPlus(v),
        crate::export::resolve_coord_spec(domain_coord(s), at) == match s {
            StoredCoordExpr::Constant(k) => k as int,
            StoredCoordExpr::AddressedX => at.x as int,
            StoredCoordExpr::AddressedY => at.y as int,
            StoredCoordExpr::AddressedXPlus(k) => at.x + k,
            StoredCoordExpr::AddressedYPlus(k) => at.y + k,
        },
{
}

} // verus!
