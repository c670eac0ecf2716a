//! The editor's session around a document: the starter document, what the editor
//! points at and what that selection resolves to, the glyphs copied to the
//! clipboard, the export-configuration draft and what applying it builds, the
//! export of the selected config, and the actions that would discard unsaved
//! edits.

use vstd::prelude::*;

use crate::bitmap::{blank_view, Bitmap};
use crate::fragment::{FragmentGlyph, GlyphFragment};
use crate::character_set::{CharacterEntry, CharacterSet};
use crate::charset_view::char_from_u32;
use crate::document::{FontSpace, CURRENT_FORMAT_VERSION};
use crate::export::{
    address_bits_for, bits_for, column_scan_config, lemma_address_bits_for_bound, dim_bits, preset_address_bits, row_scan_config, row_scan_outputs, error_agrees, export_check, summary_spec, validate_export, Dimension, ExportError,
    ExportSummary, OneToOneViolation, ScanDirection,
};
use crate::limits::{default_limits, Limits};
use crate::command::{is_preset_config, is_rom_output, natural_len, pad_error, pad_fails, rom_file};
use crate::one_to_one::lemma_preset_dim_bits;
use crate::export_text::{export_error_text, lemma_refusals_are_describable};
use crate::export_config::{AddressBitSource, CoordinateExpr, ExportConfig, OutputBitSource, OutputFormatConfig};
use crate::geometry::{GlyphSize, GuideAxis};
use crate::glyph_set::{Glyph, GlyphPage, GlyphSet, Guide};
use crate::ids::{lemma_mints_none, lemma_mints_step, mints_all, ExportConfigId, GlyphSetId, GuideId, IdGen, PageId};
use crate::storage::DEFAULT_FILL_BYTE;
use crate::pixels::{law_rows_text_round_trip, lemma_canonical_rows_read, parse_rows, rows_chars, view_rows};
use crate::region::PixelRect;
use crate::text::push_char;
use crate::search::{first_index, lemma_first_index_is, lemma_first_index_none, lemma_first_index_props};
use crate::text::{decimal, push_decimal, push_str};

verus! {

/// What the editor and inspector point at: one glyph, by glyph set, page and code.
#[derive(Debug, Clone, Copy, PartialEq, Eq, Structural)]
pub struct Selection {
    pub glyph_set_id: GlyphSetId,
    pub page_id: PageId,
    pub code: u32,
}

/// The rectangle spanning two corner cells, in either drag order.
pub open spec fn rect_spanning(a: (u16, u16), b: (u16, u16)) -> PixelRect {
    PixelRect {
        x0: if a.0 <= b.0 { a.0 } else { b.0 },
        y0: if a.1 <= b.1 { a.1 } else { b.1 },
        x1: if a.0 <= b.0 { b.0 } else { a.0 },
        y1: if a.1 <= b.1 { b.1 } else { a.1 },
    }
}

/// The glyph editor's pixel marquee: the selected rectangle, if any, and the cell
/// a selection drag in progress is anchored at.
#[derive(Debug, Clone, Copy)]
pub struct Marquee {
    pub rect: Option<PixelRect>,
    pub anchor: Option<(u16, u16)>,
}

impl Marquee {
    /// No selection and no drag.
    pub fn new() -> (m: Self)
        ensures
            m.rect is None,
            m.anchor is None,
    {
        Marquee { rect: None, anchor: None }
    }

    /// Starts a selection drag at `cell`: the marquee is that one cell.
    pub fn begin_selection(&mut self, cell: (u16, u16))
        ensures
            final(self).anchor == Some(cell),
            final(self).rect == Some(rect_spanning(cell, cell)),
    {
        self.anchor = Some(cell);
        self.rect = Some(PixelRect::from_corners(cell, cell));
    }

    /// Extends the drag in progress to `cell`: the marquee spans the anchor and
    /// `cell`. Without a drag in progress nothing changes.
    pub fn extend_selection(&mut self, cell: (u16, u16))
        ensures
            final(self).anchor == old(self).anchor,
            final(self).rect == match old(self).anchor {
                Some(a) => Some(rect_spanning(a, cell)),
                None => old(self).rect,
            },
    {
        match self.anchor {
            Some(a) => {
                self.rect = Some(PixelRect::from_corners(a, cell));
            },
            None => {},
        }
    }

    /// Ends the drag; the marquee stays until cleared or re-selected.
    pub fn end_selection(&mut self)
        ensures
            final(self).anchor is None,
            final(self).rect == old(self).rect,
    {
        self.anchor = None;
    }

    /// Clears the marquee and any drag.
    pub fn clear_selection(&mut self)
        ensures
            final(self).anchor is None,
            final(self).rect is None,
    {
        self.rect = None;
        self.anchor = None;
    }
}

/// The editable parameters of an export config as the configuration view holds
/// them between edits; applying rebuilds the config from a scan preset.
#[derive(Debug, Clone, PartialEq, Eq)]
pub struct ExportConfigForm {
    pub config_id: ExportConfigId,
    pub name: String,
    pub glyph_set_id: GlyphSetId,
    pub scan: ScanDirection,
    pub code_bits: u8,
    /// Target output size as an address width (`2^bits` bytes), or `None` for the
    /// natural size.
    pub output_address_bits: Option<u8>,
    /// Padding byte for the target output size.
    pub fill_byte: u8,
}

/// How prominently the editor draws the per-pixel grid.
#[derive(Debug, Clone, Copy, PartialEq, Eq, Structural)]
pub enum GridLevel {
    Off,
    Subtle,
    Strong,
}

/// A file action that would discard the active document's unsaved edits, held
/// pending confirmation.
#[derive(Debug, Clone, Copy, PartialEq, Eq, Structural)]
pub enum GuardedIntent {
    /// Reload the active document from its file, discarding its edits.
    Revert,
    /// Close the active document, discarding its edits.
    Close,
}

/// The scan direction a data map reads as: the first pixel bit whose row follows
/// the addressed row is row-scan, whose column follows the addressed column is
/// column-scan; row-scan when no bit decides.
pub open spec fn scan_of_bits(bits: Seq<OutputBitSource>) -> ScanDirection
    decreases bits.len(),
{
    if bits.len() == 0 {
        ScanDirection::Row
    } else {
        match bits[0] {
            OutputBitSource::Pixel { x, y } => if y is AddressedY || y is AddressedYPlus {
                ScanDirection::Row
            } else if x is AddressedX || x is AddressedXPlus {
                ScanDirection::Column
            } else {
                scan_of_bits(bits.drop_first())
            },
            _ => scan_of_bits(bits.drop_first()),
        }
    }
}

/// Classifies a config's scan direction from its data map.
pub fn scan_of(config: &ExportConfig) -> (scan: ScanDirection)
    ensures
        scan == scan_of_bits(config.data_map.output_bits@),
{
    let bits = &config.data_map.output_bits;
    let mut i: usize = 0;
    proof {
        assert(bits@.skip(0) =~= bits@);
    }
    while i < bits.len()
        invariant
            i <= bits@.len(),
            bits@ == config.data_map.output_bits@,
            scan_of_bits(bits@) == scan_of_bits(bits@.skip(i as int)),
        decreases bits@.len() - i,
    {
        proof {
            assert(bits@.skip(i as int).drop_first() =~= bits@.skip(i + 1));
            assert(bits@.skip(i as int)[0] == bits@[i as int]);
        }
        match &bits[i] {
            OutputBitSource::Pixel { x, y } => {
                match y {
                    CoordinateExpr::AddressedY | CoordinateExpr::AddressedYPlus(_) => {
                        return ScanDirection::Row;
                    },
                    _ => {},
                }
                match x {
                    CoordinateExpr::AddressedX | CoordinateExpr::AddressedXPlus(_) => {
                        return ScanDirection::Column;
                    },
                    _ => {},
                }
            },
            _ => {},
        }
        i = i + 1;
    }
    ScanDirection::Row
}

/// The number of code lines a draft shows for `config`: its code address lines,
/// capped at 255.
pub open spec fn form_code_bits(config: ExportConfig) -> u8 {
    let n = dim_bits(config.address_map.address_bits@, Dimension::Code).len();
    if n <= 255 {
        n as u8
    } else {
        255
    }
}

/// Whether draft `form` holds exactly what [`form_from_config`] reads from `config`.
pub open spec fn form_agrees(form: ExportConfigForm, config: ExportConfig) -> bool {
    &&& form.config_id == config.id
    &&& form.name@ == config.name@
    &&& form.glyph_set_id == config.source.glyph_set_id
    &&& form.scan == scan_of_bits(config.data_map.output_bits@)
    &&& form.code_bits == form_code_bits(config)
    &&& form.output_address_bits == config.output_address_bits
    &&& form.fill_byte == config.fill_byte
}

/// The draft of an existing config: its id, name, source glyph set, scan
/// direction, number of code lines (at most 255), target size and padding byte.
pub fn form_from_config(config: &ExportConfig) -> (form: ExportConfigForm)
    ensures
        form.config_id == config.id,
        form.name == config.name,
        form.glyph_set_id == config.source.glyph_set_id,
        form.scan == scan_of_bits(config.data_map.output_bits@),
        form.code_bits == form_code_bits(*config),
        form.output_address_bits == config.output_address_bits,
        form.fill_byte == config.fill_byte,
{
    let bits = &config.address_map.address_bits;
    let mut count: usize = 0;
    let mut i: usize = 0;
    while i < bits.len()
        invariant
            i <= bits@.len(),
            count == dim_bits(bits@.take(i as int), Dimension::Code).len(),
            count <= i,
        decreases bits@.len() - i,
    {
        proof {
            assert(bits@.take(i + 1).drop_last() =~= bits@.take(i as int));
        }
        match &bits[i] {
            AddressBitSource::CodeBit(_) => {
                count = count + 1;
            },
            _ => {},
        }
        i = i + 1;
    }
    proof {
        assert(bits@.take(bits@.len() as int) =~= bits@);
    }
    let code_bits: u8 = if count <= 255 {
        count as u8
    } else {
        255
    };
    ExportConfigForm {
        config_id: config.id,
        name: config.name.clone(),
        glyph_set_id: config.source.glyph_set_id,
        scan: scan_of(config),
        code_bits,
        output_address_bits: config.output_address_bits,
        fill_byte: config.fill_byte,
    }
}

/// The initial selection of a freshly loaded document: the first glyph set's first
/// page, at the first entry of its character set, else its first glyph's code,
/// else code 0; none when there is no glyph set with a page.
pub open spec fn default_selection_spec(doc: FontSpace) -> Option<Selection> {
    if doc.glyph_sets@.len() == 0 || doc.glyph_sets@[0].pages@.len() == 0 {
        None
    } else {
        let gs = doc.glyph_sets@[0];
        let page = gs.pages@[0];
        let from_set = match first_index(doc.character_set_ids(), gs.character_set_id) {
            Some(i) => if doc.character_sets@[i].entries@.len() > 0 {
                Some(doc.character_sets@[i].entries@[0].code)
            } else {
                None
            },
            None => None,
        };
        let code = match from_set {
            Some(c) => c,
            None => if page.glyphs@.len() > 0 {
                page.glyphs@[0].code
            } else {
                0
            },
        };
        Some(Selection { glyph_set_id: gs.id, page_id: page.id, code })
    }
}

/// A sensible initial selection for a freshly loaded document.
pub fn default_selection(document: &FontSpace) -> (r: Option<Selection>)
    ensures
        r == default_selection_spec(*document),
{
    if document.glyph_sets.len() == 0 {
        return None;
    }
    let glyph_set = &document.glyph_sets[0];
    if glyph_set.pages.len() == 0 {
        return None;
    }
    let page = &glyph_set.pages[0];
    proof {
        lemma_first_index_props(document.character_set_ids(), glyph_set.character_set_id);
    }
    let from_set = match document.character_set(glyph_set.character_set_id) {
        Some(cs) => if cs.entries.len() > 0 {
            Some(cs.entries[0].code)
        } else {
            None
        },
        None => None,
    };
    let code = match from_set {
        Some(c) => c,
        None => if page.glyphs.len() > 0 {
            page.glyphs[0].code
        } else {
            0
        },
    };
    Some(Selection { glyph_set_id: glyph_set.id, page_id: page.id, code })
}

/// The last component of `path` as `std::path::Path::file_name` finds it, lossily
/// decoded; none for a path that ends in `..` or is a root or empty.
pub uninterp spec fn file_name_of(path: Seq<char>) -> Option<Seq<char>>;

/// `Path::file_name` of `path`, decoded by `to_string_lossy`. The rules for what a
/// file name is are std's; this item only names the result.
#[verifier::external_body]
fn path_file_name(path: &str) -> (r: Option<String>)
    ensures
        match file_name_of(path@) {
            Some(n) => r matches Some(s) && s@ == n,
            None => r is None,
        },
{
    match std::path::Path::new(path).file_name() {
        Some(name) => Some(name.to_string_lossy().into_owned()),
        None => None,
    }
}

/// How a path is shown: its file name, else the whole path.
pub open spec fn display_name_text(path: Seq<char>) -> Seq<char> {
    match file_name_of(path) {
        Some(n) => n,
        None => path,
    }
}

/// A path's file name for display, falling back to the whole path.
pub fn display_name(path: &str) -> (t: String)
    ensures
        t@ == display_name_text(path@),
{
    match path_file_name(path) {
        Some(name) => name,
        None => path.to_owned(),
    }
}

/// The name of an open document: the file name of the path it is bound to, else
/// `Untitled` (also when it has never been saved).
pub open spec fn document_name_text(path: Option<Seq<char>>) -> Seq<char> {
    match path {
        Some(p) => match file_name_of(p) {
            Some(n) => n,
            None => "Untitled"@,
        },
        None => "Untitled"@,
    }
}

/// The display name of a document bound to `path` (`None` when never saved).
pub fn document_name(path: Option<&str>) -> (t: String)
    ensures
        t@ == document_name_text(match path {
            Some(p) => Some(p@),
            None => None,
        }),
{
    match path {
        Some(p) => match path_file_name(p) {
            Some(name) => name,
            None => "Untitled".to_owned(),
        },
        None => "Untitled".to_owned(),
    }
}

/// The status line after saving to `path`.
pub fn saved_status(path: &str) -> (t: String)
    ensures
        t@ == "Saved "@ + display_name_text(path@),
{
    let mut t = String::new();
    push_str(&mut t, "Saved ");
    let name = display_name(path);
    push_str(&mut t, name.as_str());
    t
}

/// The status line after a successful load from `path`: the file's display name,
/// and the number of tolerated warnings when there are any.
pub open spec fn load_status_text(path: Seq<char>, warnings: nat) -> Seq<char> {
    if warnings == 0 {
        "Opened "@ + display_name_text(path)
    } else {
        "Opened "@ + display_name_text(path) + " ("@ + decimal(warnings) + " warning(s))"@
    }
}

/// The status line shown after a successful load from `path` with `warnings`
/// tolerated warnings.
pub fn load_status(path: &str, warnings: usize) -> (t: String)
    ensures
        t@ == load_status_text(path@, warnings as nat),
{
    let mut t = String::new();
    push_str(&mut t, "Opened ");
    let name = display_name(path);
    push_str(&mut t, name.as_str());
    if warnings > 0 {
        push_str(&mut t, " (");
        push_decimal(&mut t, warnings as u64);
        push_str(&mut t, " warning(s))");
    }
    t
}

/// The visual rows of the demo capital `A`.
pub open spec fn demo_a_rows() -> Seq<Seq<char>> {
    seq![
        "..####.."@,
        ".#....#."@,
        ".#....#."@,
        ".######."@,
        ".#....#."@,
        ".#....#."@,
        ".#....#."@,
        "........"@,
    ]
}

/// The starter document `doc` with its selection `sel`: an "ASCII (demo)" character
/// set of the codes `A` to `H`, each labelled with its character; an 8×8 "Terminal
/// 8x8" glyph set over it with one "Regular" page holding a drawn `A` and a visible
/// horizontal "baseline" guide at 7; the selection on that `A`.
pub open spec fn is_starter(doc: FontSpace, sel: Selection) -> bool {
    &&& doc.format_version == CURRENT_FORMAT_VERSION
    &&& doc.metadata.name@ == "Untitled"@
    &&& doc.metadata.description@ == ""@
    &&& doc.character_sets@.len() == 1
    &&& doc.glyph_sets@.len() == 1
    &&& doc.export_configs@.len() == 0
    &&& doc.character_sets@[0].name@ == "ASCII (demo)"@
    &&& doc.character_sets@[0].entries@.len() == 8
    &&& forall|i: int|
        0 <= i < 8 ==> (#[trigger] doc.character_sets@[0].entries@[i]).code == 0x41 + i
            && doc.character_sets@[0].entries@[i].label@ == seq![(0x41 + i) as char]
    &&& doc.glyph_sets@[0].name@ == "Terminal 8x8"@
    &&& doc.glyph_sets@[0].glyph_size == (GlyphSize { width: 8, height: 8 })
    &&& doc.glyph_sets@[0].character_set_id == doc.character_sets@[0].id
    &&& doc.glyph_sets@[0].pages@.len() == 1
    &&& doc.glyph_sets@[0].pages@[0].name@ == "Regular"@
    &&& doc.glyph_sets@[0].pages@[0].glyphs@.len() == 1
    &&& doc.glyph_sets@[0].pages@[0].glyphs@[0].code == 0x41
    &&& doc.glyph_sets@[0].pages@[0].glyphs@[0].bitmap@.width == 8
    &&& doc.glyph_sets@[0].pages@[0].glyphs@[0].bitmap@.height == 8
    &&& view_rows(doc.glyph_sets@[0].pages@[0].glyphs@[0].bitmap@) == demo_a_rows()
    &&& doc.glyph_sets@[0].pages@[0].guides@.len() == 1
    &&& doc.glyph_sets@[0].pages@[0].guides@[0].name@ == "baseline"@
    &&& doc.glyph_sets@[0].pages@[0].guides@[0].axis == GuideAxis::Horizontal
    &&& doc.glyph_sets@[0].pages@[0].guides@[0].position == 7
    &&& doc.glyph_sets@[0].pages@[0].guides@[0].visible
    &&& !doc.glyph_sets@[0].pages@[0].guides@[0].locked
    &&& sel == (Selection {
        glyph_set_id: doc.glyph_sets@[0].id,
        page_id: doc.glyph_sets@[0].pages@[0].id,
        code: 0x41,
    })
}

fn demo_a() -> (b: Bitmap)
    ensures
        b@.width == 8,
        b@.height == 8,
        view_rows(b@) == demo_a_rows(),
{
    let rows = vec![
        "..####..".to_owned(),
        ".#....#.".to_owned(),
        ".#....#.".to_owned(),
        ".######.".to_owned(),
        ".#....#.".to_owned(),
        ".#....#.".to_owned(),
        ".#....#.".to_owned(),
        "........".to_owned(),
    ];
    let size = GlyphSize::new(8, 8);
    proof {
        reveal_strlit("..####..");
        reveal_strlit(".#....#.");
        reveal_strlit(".######.");
        reveal_strlit("........");
        assert(rows_chars(rows@) =~= demo_a_rows());
        lemma_canonical_rows_read(demo_a_rows(), size);
        law_rows_text_round_trip(demo_a_rows(), size);
    }
    match parse_rows(rows.as_slice(), size) {
        Ok(b) => b,
        Err(_) => Bitmap::new_blank(size),
    }
}

/// Builds the starter document the editor opens with (see [`is_starter`]), minting
/// its ids from `ids` in the order character set, glyph set, page, guide, document.
pub fn starter_document<G: IdGen>(ids: &mut G) -> (r: (FontSpace, Selection))
    ensures
        is_starter(r.0, r.1),
        mints_all(
            *old(ids),
            *final(ids),
            seq![
                r.0.character_sets@[0].id.0,
                r.0.glyph_sets@[0].id.0,
                r.0.glyph_sets@[0].pages@[0].id.0,
                r.0.glyph_sets@[0].pages@[0].guides@[0].id.0,
                r.0.id.0,
            ],
        ),
{
    let ghost g0 = *ids;
    let mut character_set = CharacterSet::new(ids, "ASCII (demo)", "");
    let ghost g1 = *ids;
    let mut entries: Vec<CharacterEntry> = Vec::new();
    let mut code: u32 = 0x41;
    while code <= 0x48
        invariant
            0x41 <= code <= 0x49,
            entries@.len() == code - 0x41,
            forall|i: int|
                0 <= i < entries@.len() ==> (#[trigger] entries@[i]).code == 0x41 + i && entries@[i].label@ == seq![
                    (0x41 + i) as char,
                ],
        decreases 0x49 - code,
    {
        let mut label = String::new();
        proof {
            reveal_strlit("");
        }
        match char_from_u32(code) {
            Some(c) => push_char(&mut label, c),
            None => {},
        }
        assert(label@ =~= seq![code as char]);
        entries.push(CharacterEntry { code, label });
        code = code + 1;
    }
    character_set.entries = entries;
    let size = GlyphSize::new(8, 8);
    let mut glyph_set = GlyphSet::new(ids, "Terminal 8x8", "", size, character_set.id);
    let ghost g2 = *ids;
    let mut page = GlyphPage::new(ids, "Regular", "");
    let ghost g3 = *ids;
    let guide_id = GuideId::new(ids);
    let ghost g4 = *ids;
    page.glyphs.push(Glyph { code: 0x41, bitmap: demo_a() });
    page.guides.push(
        Guide {
            id: guide_id,
            name: "baseline".to_owned(),
            axis: GuideAxis::Horizontal,
            position: 7,
            visible: true,
            locked: false,
        },
    );
    let selection = Selection { glyph_set_id: glyph_set.id, page_id: page.id, code: 0x41 };
    glyph_set.pages.push(page);
    let mut document = FontSpace::new(ids, "Untitled", "");
    proof {
        let a = character_set.id.0;
        let b = glyph_set.id.0;
        let c = page.id.0;
        let d = guide_id.0;
        let e = document.id.0;
        lemma_mints_none(g0);
        lemma_mints_step(g0, g0, g1, Seq::empty(), a);
        assert(Seq::<u128>::empty().push(a) =~= seq![a]);
        lemma_mints_step(g0, g1, g2, seq![a], b);
        assert(seq![a].push(b) =~= seq![a, b]);
        lemma_mints_step(g0, g2, g3, seq![a, b], c);
        assert(seq![a, b].push(c) =~= seq![a, b, c]);
        lemma_mints_step(g0, g3, g4, seq![a, b, c], d);
        assert(seq![a, b, c].push(d) =~= seq![a, b, c, d]);
        lemma_mints_step(g0, g4, *ids, seq![a, b, c, d], e);
        assert(seq![a, b, c, d].push(e) =~= seq![a, b, c, d, e]);
    }
    document.character_sets.push(character_set);
    document.glyph_sets.push(glyph_set);
    (document, selection)
}

/// The glyph set and page `selection` points at, when both resolve.
pub open spec fn selected_context_spec(doc: FontSpace, selection: Selection) -> Option<(GlyphSet, GlyphPage)> {
    match first_index(doc.glyph_set_ids(), selection.glyph_set_id) {
        Some(g) => match first_index(doc.glyph_sets@[g].page_ids(), selection.page_id) {
            Some(p) => Some((doc.glyph_sets@[g], doc.glyph_sets@[g].pages@[p])),
            None => None,
        },
        None => None,
    }
}

/// The selected glyph set and page, if the selection still resolves.
pub fn selected_context<'a>(document: &'a FontSpace, selection: &Selection) -> (r: Option<(&'a GlyphSet, &'a GlyphPage)>)
    ensures
        match selected_context_spec(*document, *selection) {
            Some((gs, page)) => r matches Some((a, b)) && *a == gs && *b == page,
            None => r is None,
        },
{
    let glyph_set = match document.glyph_set(selection.glyph_set_id) {
        Some(gs) => gs,
        None => return None,
    };
    match glyph_set.page_by_id(selection.page_id) {
        Some(page) => Some((glyph_set, page)),
        None => None,
    }
}

/// The bitmap of the selected glyph, when the selection resolves and the glyph is
/// stored (an absent glyph shows blank).
pub open spec fn selected_bitmap_spec(doc: FontSpace, selection: Selection) -> Option<Bitmap> {
    match selected_context_spec(doc, selection) {
        Some((_, page)) => match first_index(page.codes(), selection.code) {
            Some(i) => Some(page.glyphs@[i].bitmap),
            None => None,
        },
        None => None,
    }
}

/// The bitmap of the selected glyph, if one is stored.
pub fn selected_bitmap<'a>(document: &'a FontSpace, selection: &Selection) -> (r: Option<&'a Bitmap>)
    ensures
        match selected_bitmap_spec(*document, *selection) {
            Some(b) => r matches Some(x) && *x == b,
            None => r is None,
        },
{
    let (_, page) = match selected_context(document, selection) {
        Some(c) => c,
        None => return None,
    };
    match page.glyph_by_code(selection.code) {
        Some(glyph) => Some(&glyph.bitmap),
        None => None,
    }
}

/// The character set of the selected glyph set, when both resolve.
pub open spec fn selected_character_set_spec(doc: FontSpace, glyph_set_id: GlyphSetId) -> Option<CharacterSet> {
    match first_index(doc.glyph_set_ids(), glyph_set_id) {
        Some(g) => match first_index(doc.character_set_ids(), doc.glyph_sets@[g].character_set_id) {
            Some(c) => Some(doc.character_sets@[c]),
            None => None,
        },
        None => None,
    }
}

/// The character set referenced by the selected glyph set, if it resolves.
pub fn selected_character_set<'a>(document: &'a FontSpace, selection: &Selection) -> (r: Option<&'a CharacterSet>)
    ensures
        match selected_character_set_spec(*document, selection.glyph_set_id) {
            Some(cs) => r matches Some(x) && *x == cs,
            None => r is None,
        },
{
    match document.glyph_set(selection.glyph_set_id) {
        Some(glyph_set) => document.character_set(glyph_set.character_set_id),
        None => None,
    }
}

/// The label of the selected code in its glyph set's character set.
pub open spec fn selected_label_spec(doc: FontSpace, selection: Selection) -> Option<Seq<char>> {
    match selected_character_set_spec(doc, selection.glyph_set_id) {
        Some(cs) => match first_index(cs.codes(), selection.code) {
            Some(i) => Some(cs.entries@[i].label@),
            None => None,
        },
        None => None,
    }
}

/// The label of the selected code in the glyph set's character set, if any.
pub fn selected_label<'a>(document: &'a FontSpace, selection: &Selection) -> (r: Option<&'a str>)
    ensures
        match selected_label_spec(*document, *selection) {
            Some(label) => r matches Some(s) && s@ == label,
            None => r is None,
        },
{
    match selected_character_set(document, selection) {
        Some(cs) => match cs.entry(selection.code) {
            Some(entry) => Some(entry.label.as_str()),
            None => None,
        },
        None => None,
    }
}

/// The code the selection lands on when it moves to page `page_id` of glyph set
/// `glyph_set_id`: the current code when the target's character set has it, else
/// that set's first entry, else the page's first stored glyph, else the current
/// code (also when the glyph set does not resolve).
pub open spec fn select_page_code(doc: FontSpace, current: u32, glyph_set_id: GlyphSetId, page_id: PageId) -> u32 {
    match first_index(doc.glyph_set_ids(), glyph_set_id) {
        None => current,
        Some(g) => {
            let gs = doc.glyph_sets@[g];
            let from_set = match selected_character_set_spec(doc, glyph_set_id) {
                Some(cs) => if cs.codes().contains(current) {
                    Some(current)
                } else if cs.entries@.len() > 0 {
                    Some(cs.entries@[0].code)
                } else {
                    None
                },
                None => None,
            };
            match from_set {
                Some(code) => code,
                None => match first_index(gs.page_ids(), page_id) {
                    Some(p) => if gs.pages@[p].glyphs@.len() > 0 {
                        gs.pages@[p].glyphs@[0].code
                    } else {
                        current
                    },
                    None => current,
                },
            }
        },
    }
}

/// The selection after pointing it at page `page_id` of glyph set `glyph_set_id`
/// (see [`select_page_code`]): switching keeps the code point wherever the target's
/// character set has it.
pub fn select_page(document: &FontSpace, current: &Selection, glyph_set_id: GlyphSetId, page_id: PageId) -> (r: Selection)
    ensures
        r == (Selection {
            glyph_set_id,
            page_id,
            code: select_page_code(*document, current.code, glyph_set_id, page_id),
        }),
{
    let probe = Selection { glyph_set_id, page_id, code: current.code };
    let code = match document.glyph_set(glyph_set_id) {
        None => current.code,
        Some(glyph_set) => {
            let from_set = match selected_character_set(document, &probe) {
                Some(cs) => if cs.contains_code(current.code) {
                    Some(current.code)
                } else if cs.entries.len() > 0 {
                    Some(cs.entries[0].code)
                } else {
                    None
                },
                None => None,
            };
            match from_set {
                Some(c) => c,
                None => match glyph_set.page_by_id(page_id) {
                    Some(page) => if page.glyphs.len() > 0 {
                        page.glyphs[0].code
                    } else {
                        current.code
                    },
                    None => current.code,
                },
            }
        },
    };
    Selection { glyph_set_id, page_id, code }
}

/// The largest of `codes` (`0` for none).
pub open spec fn max_code(codes: Seq<u32>) -> u32
    decreases codes.len(),
{
    if codes.len() == 0 {
        0
    } else {
        let m = max_code(codes.drop_last());
        if codes.last() > m {
            codes.last()
        } else {
            m
        }
    }
}

/// The number of code lines that address every code up to `max`: the bits for
/// `max + 1` codes (saturating at `u32::MAX`), at least 1 and at most 24.
pub open spec fn code_bits_for_max(max: u32) -> u8 {
    let count: nat = if max == u32::MAX {
        u32::MAX as nat
    } else {
        max as nat + 1
    };
    let bits: nat = if count <= 1 {
        1
    } else {
        address_bits_for(count)
    };
    if bits > 24 {
        24
    } else {
        bits as u8
    }
}

/// The default number of code lines for a new export of a glyph set whose
/// character set is `character_set`: enough for its largest code, or 7 (the ASCII
/// range) when there is no character set or it is empty.
pub open spec fn default_code_bits_spec(character_set: Option<CharacterSet>) -> u8 {
    match character_set {
        Some(cs) => if cs.entries@.len() > 0 {
            code_bits_for_max(max_code(cs.codes()))
        } else {
            7
        },
        None => 7,
    }
}

/// Code lines for a new export config over `character_set` (see
/// [`default_code_bits_spec`]).
pub fn default_code_bits(character_set: Option<&CharacterSet>) -> (r: u8)
    ensures
        r == default_code_bits_spec(match character_set {
            Some(cs) => Some(*cs),
            None => None,
        }),
        1 <= r <= 24,
{
    let cs = match character_set {
        Some(cs) => cs,
        None => return 7,
    };
    if cs.entries.len() == 0 {
        return 7;
    }
    let mut max: u32 = 0;
    let mut i: usize = 0;
    while i < cs.entries.len()
        invariant
            i <= cs.entries@.len(),
            max == max_code(cs.codes().take(i as int)),
        decreases cs.entries@.len() - i,
    {
        proof {
            assert(cs.codes().take(i + 1).drop_last() =~= cs.codes().take(i as int));
        }
        if cs.entries[i].code > max {
            max = cs.entries[i].code;
        }
        i = i + 1;
    }
    proof {
        assert(cs.codes().take(cs.entries@.len() as int) =~= cs.codes());
    }
    let count: u32 = if max == u32::MAX {
        u32::MAX
    } else {
        max + 1
    };
    let bits: u32 = if count <= 1 {
        1
    } else {
        bits_for(count)
    };
    if bits > 24 {
        24
    } else {
        bits as u8
    }
}

/// The export config the configuration view edits: `selected`, when a config with
/// that id is in the document.
pub fn selected_export_config(document: &FontSpace, selected: Option<ExportConfigId>) -> (r: Option<ExportConfigId>)
    ensures
        r == (match selected {
            Some(id) => if document.export_config_ids().contains(id) {
                Some(id)
            } else {
                None
            },
            None => None,
        }),
{
    let id = match selected {
        Some(id) => id,
        None => return None,
    };
    let mut i: usize = 0;
    while i < document.export_configs.len()
        invariant
            i <= document.export_configs@.len(),
            selected == Some(id),
            forall|j: int| 0 <= j < i ==> document.export_config_ids()[j] != id,
        decreases document.export_configs@.len() - i,
    {
        if document.export_configs[i].id == id {
            proof {
                assert(document.export_config_ids()[i as int] == id);
                assert(document.export_config_ids().contains(id));
            }
            return Some(id);
        }
        i = i + 1;
    }
    proof {
        assert(document.export_config_ids().len() == document.export_configs@.len());
    }
    None
}

/// The position of the export config with `id` in the document, if any.
fn find_export_config(document: &FontSpace, id: ExportConfigId) -> (r: Option<usize>)
    ensures
        match first_index(document.export_config_ids(), id) {
            Some(i) => r matches Some(k) && k as int == i,
            None => r is None,
        },
{
    let mut i: usize = 0;
    while i < document.export_configs.len()
        invariant
            i <= document.export_configs@.len(),
            forall|j: int| 0 <= j < i ==> document.export_config_ids()[j] != id,
        decreases document.export_configs@.len() - i,
    {
        if document.export_configs[i].id == id {
            proof {
                lemma_first_index_is(document.export_config_ids(), id, i as int);
            }
            return Some(i);
        }
        i = i + 1;
    }
    proof {
        lemma_first_index_none(document.export_config_ids(), id);
    }
    None
}

/// Whether the draft `form` differs from the saved config it edits: `false` when
/// there is no draft or its config is gone.
pub open spec fn export_form_is_dirty_spec(doc: FontSpace, form: Option<ExportConfigForm>) -> bool {
    match form {
        Some(f) => match first_index(doc.export_config_ids(), f.config_id) {
            Some(i) => !form_agrees(f, doc.export_configs@[i]),
            None => false,
        },
        None => false,
    }
}

/// Whether the working draft differs from the saved config it edits; drives the
/// Apply and Revert buttons.
pub fn export_form_is_dirty(document: &FontSpace, form: Option<&ExportConfigForm>) -> (r: bool)
    ensures
        r == export_form_is_dirty_spec(*document, match form {
            Some(f) => Some(*f),
            None => None,
        }),
{
    let form = match form {
        Some(f) => f,
        None => return false,
    };
    let i = match find_export_config(document, form.config_id) {
        Some(i) => i,
        None => return false,
    };
    proof {
        lemma_first_index_props(document.export_config_ids(), form.config_id);
    }
    let saved = form_from_config(&document.export_configs[i]);
    let same_size = match (form.output_address_bits, saved.output_address_bits) {
        (Some(a), Some(b)) => a == b,
        (None, None) => true,
        _ => false,
    };
    let same = form.config_id == saved.config_id && form.name == saved.name && form.glyph_set_id == saved.glyph_set_id
        && form.scan == saved.scan && form.code_bits == saved.code_bits && same_size && form.fill_byte == saved.fill_byte;
    !same
}

/// What validating the selected config gives: nothing when no config is selected
/// or it is gone; the missing-source error when its glyph set is not in the
/// document; else the result of [`validate_export`] under the default limits.
pub open spec fn selected_export_agrees(doc: FontSpace, selected: Option<ExportConfigId>, r: Option<Result<ExportSummary, ExportError>>) -> bool {
    match selected {
        None => r is None,
        Some(id) => match first_index(doc.export_config_ids(), id) {
            None => r is None,
            Some(i) => {
                let config = doc.export_configs@[i];
                match first_index(doc.glyph_set_ids(), config.source.glyph_set_id) {
                    None => r matches Some(Err(ExportError::NotStrictOneToOne { config: name, reason })) && name@
                        == config.name@ && reason is SourceGlyphSetMissing,
                    Some(g) => {
                        let source = doc.glyph_sets@[g];
                        match export_check(source, config, default_limits()) {
                            None => r == Some(Ok::<ExportSummary, ExportError>(summary_spec(source, config))),
                            Some(check) => (r matches Some(Err(e)) && error_agrees(e, check, source, config, default_limits())),
                        }
                    },
                }
            },
        },
    }
}

/// Validates the selected export config against the document, for the view's live
/// summary or diagnostic (see [`selected_export_agrees`]).
pub fn validate_selected_export(document: &FontSpace, selected: Option<ExportConfigId>) -> (r: Option<Result<ExportSummary, ExportError>>)
    ensures
        selected_export_agrees(*document, selected, r),
{
    let id = match selected {
        Some(id) => id,
        None => return None,
    };
    let i = match find_export_config(document, id) {
        Some(i) => i,
        None => return None,
    };
    proof {
        lemma_first_index_props(document.export_config_ids(), id);
    }
    let config = &document.export_configs[i];
    let source = match document.glyph_set(config.source.glyph_set_id) {
        Some(gs) => gs,
        None => {
            return Some(
                Err(
                    ExportError::NotStrictOneToOne {
                        config: config.name.clone(),
                        reason: OneToOneViolation::SourceGlyphSetMissing,
                    },
                ),
            );
        },
    };
    Some(validate_export(source, config, &Limits::default()))
}

/// A new row-scan export config named `name` over the selected glyph set: all its
/// pages in order, and as many code lines as [`default_code_bits`] gives for its
/// character set. `None` when the selected glyph set does not resolve.
pub fn new_export_config<G: IdGen>(ids: &mut G, document: &FontSpace, selection: &Selection, name: &str) -> (r: Option<ExportConfig>)
    ensures
        match first_index(document.glyph_set_ids(), selection.glyph_set_id) {
            None => r is None && *final(ids) == *old(ids),
            Some(g) => {
                let gs = document.glyph_sets@[g];
                let code_bits = default_code_bits_spec(selected_character_set_spec(*document, selection.glyph_set_id));
                &&& r matches Some(c)
                &&& mints_all(*old(ids), *final(ids), seq![c.id.0, c.address_map.id.0, c.data_map.id.0])
                &&& c.output_address_bits is None
                &&& c.fill_byte == DEFAULT_FILL_BYTE
                &&& c.name@ == name@
                &&& c.source.glyph_set_id == gs.id
                &&& c.source.pages@ == gs.page_ids()
                &&& c.address_map.address_bits@ == preset_address_bits(
                    false,
                    address_bits_for(gs.glyph_size.height as nat),
                    code_bits as nat,
                    address_bits_for(gs.pages@.len() as u32 as nat),
                )
                &&& c.data_map.output_bits@ == row_scan_outputs(gs.glyph_size.width as nat)
                &&& c.output_format == OutputFormatConfig::RawBinary
            },
        },
{
    let code_bits = default_code_bits(selected_character_set(document, selection));
    let glyph_set = match document.glyph_set(selection.glyph_set_id) {
        Some(gs) => gs,
        None => return None,
    };
    let mut pages: Vec<PageId> = Vec::new();
    let mut i: usize = 0;
    while i < glyph_set.pages.len()
        invariant
            i <= glyph_set.pages@.len(),
            pages@ == glyph_set.page_ids().take(i as int),
        decreases glyph_set.pages@.len() - i,
    {
        pages.push(glyph_set.pages[i].id);
        proof {
            assert(pages@ =~= glyph_set.page_ids().take(i + 1));
        }
        i = i + 1;
    }
    proof {
        assert(pages@ =~= glyph_set.page_ids());
    }
    Some(row_scan_config(ids, name, glyph_set, pages, code_bits))
}

/// A draft read from a config of the document is in sync with it: for the first
/// config with its id, the draft that [`form_from_config`] gives is not dirty.
pub proof fn law_fresh_draft_is_clean(doc: FontSpace, i: int, form: ExportConfigForm)
    requires
        0 <= i < doc.export_configs@.len(),
        first_index(doc.export_config_ids(), doc.export_configs@[i].id) == Some(i),
        form_agrees(form, doc.export_configs@[i]),
    ensures
        !export_form_is_dirty_spec(doc, Some(form)),
{
}

/// Any edit of a field that the draft reads from its config makes it dirty.
pub proof fn law_edited_draft_is_dirty(doc: FontSpace, i: int, form: ExportConfigForm, edited: ExportConfigForm)
    requires
        0 <= i < doc.export_configs@.len(),
        first_index(doc.export_config_ids(), doc.export_configs@[i].id) == Some(i),
        form_agrees(form, doc.export_configs@[i]),
        edited.config_id == form.config_id,
        edited.name@ != form.name@ || edited.glyph_set_id != form.glyph_set_id || edited.scan != form.scan
            || edited.code_bits != form.code_bits || edited.output_address_bits != form.output_address_bits
            || edited.fill_byte != form.fill_byte,
    ensures
        export_form_is_dirty_spec(doc, Some(edited)),
{
}

/// Whether pixel `(x, y)` of the selected glyph is on: `false` when the glyph is
/// not stored or the coordinate is outside it.
pub open spec fn selected_pixel_spec(doc: FontSpace, selection: Selection, x: u16, y: u16) -> bool {
    match selected_bitmap_spec(doc, selection) {
        Some(b) => x < b@.width && y < b@.height && b@.rows[y as int][x as int],
        None => false,
    }
}

/// The current value of pixel `(x, y)` on the selected glyph.
pub fn selected_pixel(document: &FontSpace, selection: &Selection, x: u16, y: u16) -> (r: bool)
    ensures
        r == selected_pixel_spec(*document, *selection, x, y),
{
    match selected_bitmap(document, selection) {
        Some(b) => match b.get(x, y) {
            Ok(on) => on,
            Err(_) => false,
        },
        None => false,
    }
}

/// The codes of `run` that have an entry in `character_set`, in run order (none
/// without a character set).
pub open spec fn codes_in_set(run: Seq<u32>, character_set: Option<CharacterSet>) -> Seq<u32>
    decreases run.len(),
{
    if run.len() == 0 {
        Seq::empty()
    } else {
        let rest = codes_in_set(run.drop_last(), character_set);
        match character_set {
            Some(cs) => if cs.codes().contains(run.last()) {
                rest.push(run.last())
            } else {
                rest
            },
            None => rest,
        }
    }
}

/// The selected run restricted to codes that have an entry in the selected
/// glyph set's character set, in run order: the batch transforms act on these, and
/// leave a stored code without an entry out rather than failing.
pub fn charset_codes_in_run(document: &FontSpace, selection: &Selection, run: &[u32]) -> (r: Vec<u32>)
    ensures
        r@ == codes_in_set(run@, selected_character_set_spec(*document, selection.glyph_set_id)),
{
    let cs = selected_character_set(document, selection);
    let ghost spec_cs = selected_character_set_spec(*document, selection.glyph_set_id);
    let mut out: Vec<u32> = Vec::new();
    let mut i: usize = 0;
    while i < run.len()
        invariant
            i <= run@.len(),
            match spec_cs {
                Some(c) => cs matches Some(x) && *x == c,
                None => cs is None,
            },
            out@ == codes_in_set(run@.take(i as int), spec_cs),
        decreases run@.len() - i,
    {
        proof {
            assert(run@.take(i + 1).drop_last() =~= run@.take(i as int));
        }
        let code = run[i];
        match cs {
            Some(c) => if c.contains_code(code) {
                out.push(code);
            },
            None => {},
        }
        i = i + 1;
    }
    proof {
        assert(run@.take(run@.len() as int) =~= run@);
    }
    out
}

/// The label a copied glyph carries: its code's entry label in `character_set`,
/// else empty.
pub open spec fn copied_label(character_set: Option<CharacterSet>, code: u32) -> Seq<char> {
    match character_set {
        Some(cs) => match first_index(cs.codes(), code) {
            Some(i) => cs.entries@[i].label@,
            None => Seq::empty(),
        },
        None => Seq::empty(),
    }
}

/// The pixels a copied glyph carries: the stored glyph of its code on `page`, else
/// a blank glyph of `size`.
pub open spec fn copied_pixels(page: GlyphPage, size: GlyphSize, code: u32) -> crate::bitmap::BitmapView {
    match first_index(page.codes(), code) {
        Some(i) => page.glyphs@[i].bitmap@,
        None => blank_view(size.width as nat, size.height as nat),
    }
}

/// Whether `r` is the fragment copied for `codes` from the selected page: none for
/// no codes or an unresolved selection; else one glyph per code, in order, each
/// with its label and its stored pixels (blank when not drawn), from the glyph
/// set's geometry.
pub open spec fn is_copied_fragment(doc: FontSpace, selection: Selection, codes: Seq<u32>, r: Option<GlyphFragment>) -> bool {
    if codes.len() == 0 {
        r is None
    } else {
        match selected_context_spec(doc, selection) {
            None => r is None,
            Some((gs, page)) => {
                let cs = selected_character_set_spec(doc, selection.glyph_set_id);
                &&& r matches Some(f)
                &&& f.source_glyph_size == gs.glyph_size
                &&& f.glyphs@.len() == codes.len()
                &&& forall|k: int|
                    0 <= k < codes.len() ==> {
                        let g = #[trigger] f.glyphs@[k];
                        &&& g.code == codes[k]
                        &&& g.label@ == copied_label(cs, codes[k])
                        &&& g.bitmap@ == copied_pixels(page, gs.glyph_size, codes[k])
                    }
            },
        }
    }
}

/// The glyph fragment copied for `codes`, in the given order, from the selected
/// page (see [`is_copied_fragment`]); an undrawn code copies as a blank glyph, so
/// pasting it clears its target.
pub fn fragment_for_codes(document: &FontSpace, selection: &Selection, codes: &[u32]) -> (r: Option<GlyphFragment>)
    ensures
        is_copied_fragment(*document, *selection, codes@, r),
{
    if codes.len() == 0 {
        return None;
    }
    let (glyph_set, page) = match selected_context(document, selection) {
        Some(c) => c,
        None => return None,
    };
    let cs = selected_character_set(document, selection);
    let ghost spec_cs = selected_character_set_spec(*document, selection.glyph_set_id);
    let size = glyph_set.glyph_size;
    let mut glyphs: Vec<FragmentGlyph> = Vec::new();
    let mut i: usize = 0;
    while i < codes.len()
        invariant
            i <= codes@.len(),
            match spec_cs {
                Some(c) => cs matches Some(x) && *x == c,
                None => cs is None,
            },
            glyphs@.len() == i,
            forall|k: int|
                0 <= k < i ==> {
                    let g = #[trigger] glyphs@[k];
                    &&& g.code == codes@[k]
                    &&& g.label@ == copied_label(spec_cs, codes@[k])
                    &&& g.bitmap@ == copied_pixels(*page, size, codes@[k])
                },
        decreases codes@.len() - i,
    {
        let code = codes[i];
        let bitmap = match page.glyph_by_code(code) {
            Some(glyph) => glyph.bitmap.clone(),
            None => Bitmap::new_blank(size),
        };
        let label = match cs {
            Some(c) => match c.entry(code) {
                Some(entry) => entry.label.clone(),
                None => String::new(),
            },
            None => String::new(),
        };
        proof {
            reveal_strlit("");
        }
        glyphs.push(FragmentGlyph { code, label, bitmap });
        i = i + 1;
    }
    Some(GlyphFragment { source_glyph_size: size, glyphs })
}

/// The fragment the clipboard carries on copy: the drag-selected `run` when there
/// is one, else the single selected glyph.
pub fn glyphs_for_clipboard(document: &FontSpace, selection: &Selection, run: &[u32]) -> (r: Option<GlyphFragment>)
    ensures
        is_copied_fragment(*document, *selection, if run@.len() == 0 {
            seq![selection.code]
        } else {
            run@
        }, r),
{
    if run.len() == 0 {
        let single = vec![selection.code];
        proof {
            assert(single@ =~= seq![selection.code]);
        }
        fragment_for_codes(document, selection, single.as_slice())
    } else {
        fragment_for_codes(document, selection, run)
    }
}

/// What exporting the selected config gives: an error line when nothing is
/// selected, the config is gone or its glyph set is missing; the explanation of the
/// first failed check when it is not strict 1:1; else its raw ROM image.
pub open spec fn selected_bytes_agree(doc: FontSpace, selected: Option<ExportConfigId>, r: Result<Vec<u8>, String>) -> bool {
    let unselected = r matches Err(s) && s@ == "No export configuration selected"@;
    match selected {
        None => unselected,
        Some(id) => match first_index(doc.export_config_ids(), id) {
            None => unselected,
            Some(i) => {
                let config = doc.export_configs@[i];
                match first_index(doc.glyph_set_ids(), config.source.glyph_set_id) {
                    None => r matches Err(s) && s@ == "Export source glyph set is missing"@,
                    Some(g) => {
                        let source = doc.glyph_sets@[g];
                        match export_check(source, config, default_limits()) {
                            Some(check) => r matches Err(s) && exists|e: ExportError|
                                #![trigger export_error_text(e)]
                                error_agrees(e, check, source, config, default_limits()) && s@ == export_error_text(e),
                            None => if pad_fails(config, natural_len(config)) {
                                r matches Err(s) && exists|e: ExportError|
                                    #![trigger export_error_text(e)]
                                    pad_error(e, config, natural_len(config)) && s@ == export_error_text(e)
                            } else {
                                r matches Ok(bytes) && is_rom_output(bytes@, source, config)
                            },
                        }
                    },
                }
            },
        },
    }
}

/// The raw ROM bytes of the selected export config, for an export to a file:
/// validated first, so no byte comes from a config that is not strict 1:1 (see
/// [`selected_bytes_agree`]).
#[verifier::spinoff_prover]
#[verifier::rlimit(40)]
pub fn export_selected_bytes(document: &FontSpace, selected: Option<ExportConfigId>) -> (r: Result<Vec<u8>, String>)
    ensures
        selected_bytes_agree(*document, selected, r),
{
    let id = match selected_export_config(document, selected) {
        Some(id) => id,
        None => {
            proof {
                if let Some(id) = selected {
                    lemma_first_index_props(document.export_config_ids(), id);
                }
            }
            return Err("No export configuration selected".to_owned());
        },
    };
    let i = match find_export_config(document, id) {
        Some(i) => i,
        None => return Err("Export configuration no longer exists".to_owned()),
    };
    proof {
        lemma_first_index_props(document.export_config_ids(), id);
    }
    let config = &document.export_configs[i];
    let source = match document.glyph_set(config.source.glyph_set_id) {
        Some(gs) => gs,
        None => return Err("Export source glyph set is missing".to_owned()),
    };
    let limits = Limits::default();
    let summary = match validate_export(source, config, &limits) {
        Ok(summary) => summary,
        Err(e) => {
            proof {
                let check = export_check(*source, *config, limits)->0;
                lemma_refusals_are_describable(e, check, *source, *config, limits);
            }
            let text = e.message();
            return Err(text);
        },
    };
    match rom_file(source, config, &limits, summary.data_bits) {
        Ok(bytes) => Ok(bytes),
        Err(e) => {
            let text = e.message();
            proof {
                assert(pad_error(e, *config, natural_len(*config)) && text@ == export_error_text(e));
            }
            Err(text)
        },
    }
}

/// The config that applying draft `form` puts in place of the config it edits: the
/// scan preset of `form`'s name, scan and code lines over every page of its glyph
/// set, keeping the edited config's id, its address and data map ids, and its
/// description. `None` when the edited config is gone; an error line when the
/// draft's glyph set is.
pub fn rebuild_export_config<G: IdGen>(ids: &mut G, document: &FontSpace, form: &ExportConfigForm) -> (r: Option<
    Result<ExportConfig, String>,
>)
    ensures
        match first_index(document.export_config_ids(), form.config_id) {
            None => r is None && *final(ids) == *old(ids),
            Some(i) => {
                let existing = document.export_configs@[i];
                match first_index(document.glyph_set_ids(), form.glyph_set_id) {
                    None => r matches Some(Err(s)) && s@ == "Export source glyph set no longer exists"@
                        && *final(ids) == *old(ids),
                    Some(g) => {
                        let gs = document.glyph_sets@[g];
                        &&& r matches Some(Ok(c))
                        &&& exists|drawn: Seq<u128>| drawn.len() == 3 && #[trigger] mints_all(*old(ids), *final(ids), drawn)
                        &&& is_preset_config(
                            c,
                            form.name@,
                            gs,
                            gs.page_ids(),
                            form.code_bits,
                            form.scan == ScanDirection::Column,
                        )
                        &&& c.id == existing.id
                        &&& c.address_map.id == existing.address_map.id
                        &&& c.data_map.id == existing.data_map.id
                        &&& c.description@ == existing.description@
                        &&& c.output_address_bits == form.output_address_bits
                        &&& c.fill_byte == form.fill_byte
                    },
                }
            },
        },
{
    let i = match find_export_config(document, form.config_id) {
        Some(i) => i,
        None => return None,
    };
    proof {
        lemma_first_index_props(document.export_config_ids(), form.config_id);
    }
    let existing = &document.export_configs[i];
    let glyph_set = match document.glyph_set(form.glyph_set_id) {
        Some(gs) => gs,
        None => return Some(Err("Export source glyph set no longer exists".to_owned())),
    };
    let mut pages: Vec<PageId> = Vec::new();
    let mut k: usize = 0;
    while k < glyph_set.pages.len()
        invariant
            k <= glyph_set.pages@.len(),
            pages@ == glyph_set.page_ids().take(k as int),
        decreases glyph_set.pages@.len() - k,
    {
        pages.push(glyph_set.pages[k].id);
        proof {
            assert(pages@ =~= glyph_set.page_ids().take(k + 1));
        }
        k = k + 1;
    }
    proof {
        assert(pages@ =~= glyph_set.page_ids());
    }
    let ghost page_seq = pages@;
    let ghost before = *ids;
    let mut config = match form.scan {
        ScanDirection::Row => row_scan_config(ids, form.name.as_str(), glyph_set, pages, form.code_bits),
        ScanDirection::Column => column_scan_config(ids, form.name.as_str(), glyph_set, pages, form.code_bits),
    };
    let ghost drawn = seq![config.id.0, config.address_map.id.0, config.data_map.id.0];
    config.id = existing.id;
    config.address_map.id = existing.address_map.id;
    config.data_map.id = existing.data_map.id;
    config.description = existing.description.clone();
    config.output_address_bits = form.output_address_bits;
    config.fill_byte = form.fill_byte;
    proof {
        assert(is_preset_config(config, form.name@, *glyph_set, page_seq, form.code_bits, form.scan == ScanDirection::Column));
    }
    proof {
        assert(drawn.len() == 3 && mints_all(before, *ids, drawn));
    }
    Some(Ok(config))
}

/// A draft applied and read back is the same draft: a preset config rebuilt from
/// `form` (see [`rebuild_export_config`]) keeping its id reads as `form`'s name,
/// glyph set, scan direction, code lines, target size and padding byte.
pub proof fn law_applied_draft_reads_back(config: ExportConfig, form: ExportConfigForm, gs: GlyphSet, pages: Seq<PageId>)
    requires
        is_preset_config(config, form.name@, gs, pages, form.code_bits, form.scan == ScanDirection::Column),
        config.id == form.config_id,
        gs.id == form.glyph_set_id,
        gs.glyph_size.width >= 1,
        gs.glyph_size.height >= 1,
        config.output_address_bits == form.output_address_bits,
        config.fill_byte == form.fill_byte,
    ensures
        form_agrees(form, config),
{
    let column = form.scan == ScanDirection::Column;
    let axis = if column {
        gs.glyph_size.width
    } else {
        gs.glyph_size.height
    };
    let a = address_bits_for(axis as nat);
    let c = form.code_bits as nat;
    let p = address_bits_for(pages.len() as u32 as nat);
    vstd::arithmetic::power2::lemma2_to64();
    lemma_address_bits_for_bound(axis as nat, 16);
    lemma_address_bits_for_bound(pages.len() as u32 as nat, 32);
    lemma_preset_dim_bits(column, a, c, p, a + c + p, Dimension::Code);
    let bits = config.address_map.address_bits@;
    assert(bits.take((a + c + p) as int) =~= bits);
    assert(dim_bits(bits, Dimension::Code).len() == c);
    let outputs = config.data_map.output_bits@;
    assert(outputs.len() > 0);
    if column {
        assert(outputs[0] == (OutputBitSource::Pixel {
            x: CoordinateExpr::AddressedX,
            y: CoordinateExpr::Constant((gs.glyph_size.height - 1) as i32),
        }));
    } else {
        assert(outputs[0] == (OutputBitSource::Pixel {
            x: CoordinateExpr::Constant((gs.glyph_size.width - 1) as i32),
            y: CoordinateExpr::AddressedY,
        }));
    }
}

} // verus!
