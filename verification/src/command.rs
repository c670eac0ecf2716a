//! What the command-line front end decides between reading a document and writing
//! its result: pages and export configs named on the command line, the new export
//! config of `add-export-config`, the validated ROM image of `export`, and the
//! document overview of `info`.

use vstd::arithmetic::power2::pow2;
use vstd::prelude::*;

use crate::document::FontSpace;
use crate::export::{
    address_bits_for, pow2_u64, column_scan_config, column_scan_outputs, emitted_bytes, preset_address_bits, row_scan_outputs, encode_raw_binary, error_agrees, export_check, generate_image, le_byte,
    output_word_spec, row_scan_config, summary_spec, validate_export, ExportError, ExportSummary,
};
use crate::export_config::{ExportConfig, OutputFormatConfig};
use crate::glyph_set::{GlyphPage, GlyphSet};
use crate::ids::{mints_all, IdGen, PageId};
use crate::limits::{default_limits, Limits};
use crate::parse::{named_glyph_sets, resolve_glyph_set, ParseError};
use crate::persist::{debug_quoted, debug_text};
use crate::search::{first_index, lemma_first_index_is, lemma_first_index_none, lemma_first_index_props};
use crate::text::{chars_eq, chars_of, decimal, push_decimal, push_str, split_chars, split_on, string_of, trim, trim_chars};

verus! {

/// Why a command could not resolve what it was asked to act on.
#[derive(Debug, PartialEq, Eq)]
pub enum CliError {
    /// A value on the command line did not parse or resolve.
    Parse(ParseError),
    /// Validation or image generation refused the export.
    Export(ExportError),
    /// No export config has this name.
    ExportConfigNotFound(String),
    /// The named export config reads from a glyph set not in the document.
    ExportSourceMissing { config: String },
    /// The glyph set has no page with this name.
    PageNotFound(String),
    /// The scan is neither `row` nor `column`.
    UnknownScan(String),
}

/// The page names of `glyph_set`, in order.
pub open spec fn page_names(glyph_set: GlyphSet) -> Seq<Seq<char>> {
    glyph_set.pages@.map_values(|p: GlyphPage| p.name@)
}

/// The id of the first page of `glyph_set` named `name`.
#[verifier::opaque]
pub open spec fn page_id_named(glyph_set: GlyphSet, name: Seq<char>) -> Option<PageId> {
    match first_index(page_names(glyph_set), name) {
        Some(i) => Some(glyph_set.pages@[i].id),
        None => None,
    }
}

/// The ids of the first pages named `names`, in order, or the first name that no
/// page has.
pub open spec fn pages_named(glyph_set: GlyphSet, names: Seq<Seq<char>>) -> Result<Seq<PageId>, Seq<char>>
    decreases names.len(),
{
    if names.len() == 0 {
        Ok(Seq::empty())
    } else {
        match pages_named(glyph_set, names.drop_last()) {
            Err(e) => Err(e),
            Ok(ids) => match page_id_named(glyph_set, names.last()) {
                Some(id) => Ok(ids.push(id)),
                None => Err(names.last()),
            },
        }
    }
}

/// The pages `pages` names in `glyph_set`: every page, in order, for `all` (white
/// space around it ignored); else the comma-separated names, each trimmed, each
/// the first page of that name. The error is the first name with no page.
pub open spec fn pages_of_value(glyph_set: GlyphSet, pages: Seq<char>) -> Result<Seq<PageId>, Seq<char>> {
    if trim(pages) == "all"@ {
        Ok(glyph_set.page_ids())
    } else {
        pages_named(glyph_set, trimmed_names(pages))
    }
}

/// The comma-separated names of `pages`, each trimmed.
pub open spec fn trimmed_names(pages: Seq<char>) -> Seq<Seq<char>> {
    split_on(pages, ',').map_values(|p: Seq<char>| trim(p))
}

/// The first page of `glyph_set` named `name`, by position.
fn page_named(glyph_set: &GlyphSet, name: &Vec<char>) -> (r: Option<usize>)
    ensures
        match page_id_named(*glyph_set, name@) {
            Some(id) => r matches Some(k) && k < glyph_set.pages@.len() && glyph_set.pages@[k as int].id == id,
            None => r is None,
        },
{
    let wanted = string_of(name);
    let mut i: usize = 0;
    while i < glyph_set.pages.len()
        invariant
            i <= glyph_set.pages@.len(),
            wanted@ == name@,
            forall|j: int| 0 <= j < i ==> page_names(*glyph_set)[j] != name@,
        decreases glyph_set.pages@.len() - i,
    {
        if glyph_set.pages[i].name == wanted {
            proof {
                lemma_first_index_is(page_names(*glyph_set), name@, i as int);
                reveal(page_id_named);
            }
            return Some(i);
        }
        i = i + 1;
    }
    proof {
        lemma_first_index_none(page_names(*glyph_set), name@);
        reveal(page_id_named);
    }
    None
}

/// Once a prefix of names has resolved, the first unknown name decides the error.
proof fn lemma_pages_named_stops(glyph_set: GlyphSet, names: Seq<Seq<char>>, i: int)
    requires
        0 <= i < names.len(),
        pages_named(glyph_set, names.take(i)) is Ok,
        page_id_named(glyph_set, names[i]) is None,
    ensures
        pages_named(glyph_set, names) == Err::<Seq<PageId>, Seq<char>>(names[i]),
    decreases names.len(),
{
    if i == names.len() - 1 {
        assert(names.drop_last() =~= names.take(i));
    } else {
        assert(names.drop_last().take(i) =~= names.take(i));
        lemma_pages_named_stops(glyph_set, names.drop_last(), i);
    }
}

/// The ordered page ids named by `pages` (see [`pages_of_value`]).
pub fn pages_of(glyph_set: &GlyphSet, pages: &str) -> (r: Result<Vec<PageId>, CliError>)
    ensures
        match pages_of_value(*glyph_set, pages@) {
            Ok(ids) => r matches Ok(v) && v@ == ids,
            Err(name) => r matches Err(CliError::PageNotFound(n)) && n@ == name,
        },
{
    let all = chars_of(pages);
    let t = trim_chars(&all);
    if chars_eq(&t, "all") {
        let mut ids: Vec<PageId> = Vec::new();
        let mut i: usize = 0;
        while i < glyph_set.pages.len()
            invariant
                i <= glyph_set.pages@.len(),
                ids@ == glyph_set.page_ids().take(i as int),
            decreases glyph_set.pages@.len() - i,
        {
            ids.push(glyph_set.pages[i].id);
            proof {
                assert(ids@ =~= glyph_set.page_ids().take(i + 1));
            }
            i = i + 1;
        }
        proof {
            assert(ids@ =~= glyph_set.page_ids());
        }
        return Ok(ids);
    }
    let parts = split_chars(&all, ',');
    let ghost names = trimmed_names(pages@);
    let mut ids: Vec<PageId> = Vec::new();
    let mut i: usize = 0;
    while i < parts.len()
        invariant
            i <= parts@.len(),
            parts@.len() == names.len(),
            forall|k: int| 0 <= k < parts@.len() ==> #[trigger] trim(parts@[k]@) == names[k],
            pages_named(*glyph_set, names.take(i as int)) == Ok::<Seq<PageId>, Seq<char>>(ids@),
            all@ == pages@,
            trim(pages@) != "all"@,
            names == trimmed_names(pages@),
        decreases parts@.len() - i,
    {
        let name = trim_chars(&parts[i]);
        proof {
            assert(names.take(i + 1).drop_last() =~= names.take(i as int));
            assert(names.take(i + 1).last() == name@);
        }
        match page_named(glyph_set, &name) {
            Some(k) => {
                ids.push(glyph_set.pages[k].id);
            },
            None => {
                proof {
                    lemma_pages_named_stops(*glyph_set, names, i as int);
                }
                return Err(CliError::PageNotFound(string_of(&name)));
            },
        }
        i = i + 1;
    }
    proof {
        assert(names.take(parts@.len() as int) =~= names);
    }
    Ok(ids)
}

/// The export-config names of `doc`, in order.
pub open spec fn export_config_names(doc: FontSpace) -> Seq<Seq<char>> {
    doc.export_configs@.map_values(|c: ExportConfig| c.name@)
}

/// The first export config named `name`, or a not-found error.
pub fn find_export_config<'a>(doc: &'a FontSpace, name: &str) -> (r: Result<&'a ExportConfig, CliError>)
    ensures
        match first_index(export_config_names(*doc), name@) {
            Some(i) => r matches Ok(c) && *c == doc.export_configs@[i],
            None => r matches Err(CliError::ExportConfigNotFound(n)) && n@ == name@,
        },
{
    let wanted = name.to_owned();
    let mut i: usize = 0;
    while i < doc.export_configs.len()
        invariant
            i <= doc.export_configs@.len(),
            wanted@ == name@,
            forall|j: int| 0 <= j < i ==> export_config_names(*doc)[j] != name@,
        decreases doc.export_configs@.len() - i,
    {
        if doc.export_configs[i].name == wanted {
            proof {
                lemma_first_index_is(export_config_names(*doc), name@, i as int);
            }
            return Ok(&doc.export_configs[i]);
        }
        i = i + 1;
    }
    proof {
        lemma_first_index_none(export_config_names(*doc), name@);
    }
    Err(CliError::ExportConfigNotFound(name.to_owned()))
}

/// The glyph set an export config reads from, or a missing-source error naming
/// the config as `config_name`.
pub fn source_glyph_set<'a>(doc: &'a FontSpace, config: &ExportConfig, config_name: &str) -> (r: Result<
    &'a GlyphSet,
    CliError,
>)
    ensures
        match first_index(doc.glyph_set_ids(), config.source.glyph_set_id) {
            Some(i) => r matches Ok(g) && *g == doc.glyph_sets@[i],
            None => r matches Err(CliError::ExportSourceMissing { config: n }) && n@ == config_name@,
        },
{
    match doc.glyph_set(config.source.glyph_set_id) {
        Some(gs) => Ok(gs),
        None => Err(CliError::ExportSourceMissing { config: config_name.to_owned() }),
    }
}

/// What validating the export config named `name` gives: the not-found and
/// missing-source errors, else the result of validation under the default limits.
pub open spec fn named_export_agrees(doc: FontSpace, name: Seq<char>, r: Result<ExportSummary, CliError>) -> bool {
    match first_index(export_config_names(doc), name) {
        None => r matches Err(CliError::ExportConfigNotFound(n)) && n@ == name,
        Some(i) => {
            let config = doc.export_configs@[i];
            match first_index(doc.glyph_set_ids(), config.source.glyph_set_id) {
                None => r matches Err(CliError::ExportSourceMissing { config: n }) && n@ == name,
                Some(g) => {
                    let source = doc.glyph_sets@[g];
                    match export_check(source, config, default_limits()) {
                        None => r == Ok::<ExportSummary, CliError>(summary_spec(source, config)),
                        Some(check) => (r matches Err(CliError::Export(e)) && error_agrees(
                            e,
                            check,
                            source,
                            config,
                            default_limits(),
                        )),
                    }
                },
            }
        },
    }
}

/// Validates the export config named `name` against its source glyph set (see
/// [`named_export_agrees`]).
pub fn validate_named_export(doc: &FontSpace, name: &str) -> (r: Result<ExportSummary, CliError>)
    ensures
        named_export_agrees(*doc, name@, r),
{
    let config = match find_export_config(doc, name) {
        Ok(c) => c,
        Err(e) => return Err(e),
    };
    let source = match source_glyph_set(doc, config, name) {
        Ok(g) => g,
        Err(e) => return Err(e),
    };
    match validate_export(source, config, &Limits::default()) {
        Ok(summary) => Ok(summary),
        Err(e) => Err(CliError::Export(e)),
    }
}

/// What exporting the config named `name` gives: the errors of
/// [`named_export_agrees`] when it does not validate; else the refusal to pad when
/// its target size is wider than 32 address lines or smaller than the image; else
/// the validation summary and the ROM file (see [`is_rom_output`]).
pub open spec fn named_rom_agrees(doc: FontSpace, name: Seq<char>, r: Result<(ExportSummary, Vec<u8>), CliError>) -> bool {
    match first_index(export_config_names(doc), name) {
        None => r matches Err(CliError::ExportConfigNotFound(n)) && n@ == name,
        Some(i) => {
            let config = doc.export_configs@[i];
            match first_index(doc.glyph_set_ids(), config.source.glyph_set_id) {
                None => r matches Err(CliError::ExportSourceMissing { config: n }) && n@ == name,
                Some(g) => {
                    let source = doc.glyph_sets@[g];
                    match export_check(source, config, default_limits()) {
                        Some(check) => (r matches Err(CliError::Export(e)) && error_agrees(
                            e,
                            check,
                            source,
                            config,
                            default_limits(),
                        )),
                        None => if pad_fails(config, natural_len(config)) {
                            r matches Err(CliError::Export(e)) && pad_error(e, config, natural_len(config))
                        } else {
                            r matches Ok((s, bytes)) && s == summary_spec(source, config) && is_rom_output(
                                bytes@,
                                source,
                                config,
                            )
                        },
                    }
                },
            }
        },
    }
}

/// The ROM file of the export config named `name`: validated first, so no byte
/// comes from a config that is not strict 1:1; then one little-endian group of
/// bytes per address, each the word the address reads from the source glyphs,
/// padded to the config's target size with its fill byte (see
/// [`named_rom_agrees`]).
pub fn export_named_rom(doc: &FontSpace, name: &str) -> (r: Result<(ExportSummary, Vec<u8>), CliError>)
    ensures
        named_rom_agrees(*doc, name@, r),
{
    let config = match find_export_config(doc, name) {
        Ok(c) => c,
        Err(e) => return Err(e),
    };
    let source = match source_glyph_set(doc, config, name) {
        Ok(g) => g,
        Err(e) => return Err(e),
    };
    let limits = Limits::default();
    let summary = match validate_export(source, config, &limits) {
        Ok(summary) => summary,
        Err(e) => return Err(CliError::Export(e)),
    };
    match rom_file(source, config, &limits, summary.data_bits) {
        Ok(bytes) => Ok((summary, bytes)),
        Err(e) => Err(CliError::Export(e)),
    }
}

/// The ROM file of a validated config: its raw image padded to the target size.
pub(crate) fn rom_file(source: &GlyphSet, config: &ExportConfig, limits: &Limits, data_bits: usize) -> (r: Result<Vec<u8>, ExportError>)
    requires
        export_check(*source, *config, *limits) is None,
        data_bits == config.data_map.output_bits@.len(),
    ensures
        pad_fails(*config, natural_len(*config)) ==> (r matches Err(e) && pad_error(e, *config, natural_len(*config))),
        !pad_fails(*config, natural_len(*config)) ==> (r matches Ok(bytes) && is_rom_output(bytes@, *source, *config)),
{
    let image = match generate_image(source, config, limits) {
        Ok(image) => image,
        Err(e) => return Err(e),
    };
    let natural = rom_bytes(source, config, &image, data_bits);
    let ghost natural_view = natural@;
    let r = pad_output(config, natural);
    proof {
        if r is Ok {
            assert(is_rom_image(natural_view, *source, *config));
        }
    }
    r
}

/// Whether `c` is the preset config named `name` over the pages `ids` of `gs` with
/// `code_bits` code lines, scanning by column when `column` and by row otherwise.
pub open spec fn is_preset_config(c: ExportConfig, name: Seq<char>, gs: GlyphSet, ids: Seq<PageId>, code_bits: u8, column: bool) -> bool {
    let axis = if column {
        gs.glyph_size.width
    } else {
        gs.glyph_size.height
    };
    &&& c.name@ == name
    &&& c.source.glyph_set_id == gs.id
    &&& c.source.pages@ == ids
    &&& c.address_map.address_bits@ == preset_address_bits(
        column,
        address_bits_for(axis as nat),
        code_bits as nat,
        address_bits_for(ids.len() as u32 as nat),
    )
    &&& c.data_map.output_bits@ == if column {
        column_scan_outputs(gs.glyph_size.height as nat)
    } else {
        row_scan_outputs(gs.glyph_size.width as nat)
    }
    &&& c.output_format == OutputFormatConfig::RawBinary
}

/// `bytes` is the raw ROM image of `config` over `source`: for every address, the
/// word it reads from the glyphs as its data bits need bytes, little-endian.
pub open spec fn is_rom_image(bytes: Seq<u8>, source: GlyphSet, config: ExportConfig) -> bool {
    let per = emitted_bytes(config.data_map.output_bits@.len());
    let words = pow2(config.address_map.address_bits@.len());
    &&& bytes.len() == words * per
    &&& forall|a: int, j: int|
        0 <= a < words && 0 <= j < per ==> #[trigger] bytes[a * per + j] == le_byte(
            output_word_spec(source, config, a as u64),
            j,
        )
}

/// The length of the natural raw image of `config`: a group of bytes per address.
pub open spec fn natural_len(config: ExportConfig) -> nat {
    pow2(config.address_map.address_bits@.len()) * emitted_bytes(config.data_map.output_bits@.len())
}

/// Whether padding an image of `image_len` bytes to `config`'s target size fails:
/// a target wider than 32 address lines, or smaller than the image.
pub open spec fn pad_fails(config: ExportConfig, image_len: nat) -> bool {
    match config.output_address_bits {
        None => false,
        Some(n) => n > 32 || image_len > pow2(n as nat),
    }
}

/// `e` is the refusal to pad an image of `image_len` bytes to `config`'s target.
pub open spec fn pad_error(e: ExportError, config: ExportConfig, image_len: nat) -> bool {
    match config.output_address_bits {
        None => false,
        Some(n) => if n > 32 {
            e == ExportError::AddressTooWide { config: config.name, address_bits: n as usize, max: 32 }
        } else {
            e == ExportError::OutputTooSmall {
                config: config.name,
                image_bytes: image_len as u64,
                output_bytes: pow2(n as nat) as u64,
            }
        },
    }
}

/// `bytes` is `image` brought to `config`'s target size: the image itself for the
/// natural size; else the image followed by `fill_byte` up to `2^bits` bytes.
pub open spec fn is_padded(bytes: Seq<u8>, image: Seq<u8>, config: ExportConfig) -> bool {
    match config.output_address_bits {
        None => bytes == image,
        Some(n) => {
            &&& bytes.len() == pow2(n as nat)
            &&& bytes.take(image.len() as int) == image
            &&& forall|i: int| image.len() <= i < bytes.len() ==> #[trigger] bytes[i] == config.fill_byte
        },
    }
}

/// `bytes` is the ROM file of `config` over `source`: its raw image, padded to the
/// target size with the fill byte.
pub open spec fn is_rom_output(bytes: Seq<u8>, source: GlyphSet, config: ExportConfig) -> bool {
    exists|image: Seq<u8>| #[trigger] is_rom_image(image, source, config) && is_padded(bytes, image, config)
}

/// Pads `image` to `config`'s target size with its fill byte (see [`is_padded`]),
/// or refuses a target wider than 32 address lines or smaller than the image.
pub fn pad_output(config: &ExportConfig, image: Vec<u8>) -> (r: Result<Vec<u8>, ExportError>)
    ensures
        pad_fails(*config, image@.len()) ==> (r matches Err(e) && pad_error(e, *config, image@.len())),
        !pad_fails(*config, image@.len()) ==> (r matches Ok(bytes) && is_padded(bytes@, image@, *config)),
{
    let n = match config.output_address_bits {
        None => return Ok(image),
        Some(n) => n,
    };
    if n > 32 {
        return Err(ExportError::AddressTooWide { config: config.name.clone(), address_bits: n as usize, max: 32 });
    }
    let size = pow2_u64(n as u32);
    if image.len() as u64 > size {
        return Err(
            ExportError::OutputTooSmall { config: config.name.clone(), image_bytes: image.len() as u64, output_bytes: size },
        );
    }
    let ghost natural = image@;
    let mut bytes = image;
    while (bytes.len() as u64) < size
        invariant
            natural.len() <= bytes@.len() <= size,
            size == pow2(n as nat),
            size <= 0x1_0000_0000u64,
            bytes@.take(natural.len() as int) == natural,
            forall|i: int| natural.len() <= i < bytes@.len() ==> #[trigger] bytes@[i] == config.fill_byte,
        decreases size - bytes@.len(),
    {
        let ghost before = bytes@;
        bytes.push(config.fill_byte);
        proof {
            assert(bytes@.take(natural.len() as int) =~= before.take(natural.len() as int));
        }
    }
    Ok(bytes)
}

/// Encodes the image `generate_image` made of a validated config.
pub(crate) fn rom_bytes(source: &GlyphSet, config: &ExportConfig, image: &Vec<u64>, data_bits: usize) -> (bytes: Vec<u8>)
    requires
        data_bits == config.data_map.output_bits@.len(),
        image@.len() == pow2(config.address_map.address_bits@.len()),
        forall|a: int| 0 <= a < image@.len() ==> #[trigger] image@[a] == output_word_spec(*source, *config, a as u64),
    ensures
        is_rom_image(bytes@, *source, *config),
{
    let bytes = encode_raw_binary(image.as_slice(), data_bits);
    proof {
        let per = emitted_bytes(data_bits as nat);
        assert forall|a: int, j: int|
            0 <= a < image@.len() && 0 <= j < per implies #[trigger] bytes@[a * per + j] == le_byte(
            output_word_spec(*source, *config, a as u64),
            j,
        ) by {
            assert(image@[a] == output_word_spec(*source, *config, a as u64));
        }
    }
    bytes
}

/// The export config `add-export-config` builds: named `name`, over the glyph set
/// named `glyph_set_name` and the pages named by `pages` (see [`pages_of`]), with
/// `code_bits` code lines, scanning by row for `row` and by column for `column`,
/// padded to `2^output_address_bits` bytes with `fill_byte` (natural size for none).
pub fn new_named_export_config<G: IdGen>(
    ids: &mut G,
    doc: &FontSpace,
    name: &str,
    glyph_set_name: &str,
    pages: &str,
    code_bits: u8,
    scan: &str,
    output_address_bits: Option<u8>,
    fill_byte: u8,
) -> (r: Result<ExportConfig, CliError>)
    ensures
        r is Err ==> *final(ids) == *old(ids),
        r matches Ok(c) ==> mints_all(*old(ids), *final(ids), seq![c.id.0, c.address_map.id.0, c.data_map.id.0]),
        ({
            let found = named_glyph_sets(doc.glyph_sets@, glyph_set_name@);
            if found.len() == 0 {
                r matches Err(CliError::Parse(ParseError::GlyphSetNotFound(n))) && n@ == glyph_set_name@
            } else if found.len() > 1 {
                r matches Err(CliError::Parse(ParseError::AmbiguousGlyphSet { name: n, count }))
                    && n@ == glyph_set_name@ && count == found.len()
            } else {
                let gs = doc.glyph_sets@[first_index(doc.glyph_set_ids(), found[0])->0];
                match pages_of_value(gs, pages@) {
                    Err(n) => r matches Err(CliError::PageNotFound(m)) && m@ == n,
                    Ok(ids) => if scan@ == "row"@ || scan@ == "column"@ {
                        r matches Ok(c) && is_preset_config(c, name@, gs, ids, code_bits, scan@ == "column"@)
                            && c.output_address_bits == output_address_bits && c.fill_byte == fill_byte
                    } else {
                        r matches Err(CliError::UnknownScan(s)) && s@ == scan@
                    },
                }
            }
        }),
{
    let id = match resolve_glyph_set(doc, glyph_set_name) {
        Ok(id) => id,
        Err(e) => return Err(CliError::Parse(e)),
    };
    proof {
        lemma_named_glyph_set_resolves(doc.glyph_sets@, glyph_set_name@);
        lemma_first_index_props(doc.glyph_set_ids(), id);
        let found = named_glyph_sets(doc.glyph_sets@, glyph_set_name@);
        if found.len() == 1 {
            let j = choose|j: int| 0 <= j < doc.glyph_sets@.len() && doc.glyph_sets@[j].id == found[0];
            assert(doc.glyph_set_ids()[j] == id);
        }
    }
    let gs = match doc.glyph_set(id) {
        Some(gs) => gs,
        None => return Err(CliError::Parse(ParseError::GlyphSetNotFound(glyph_set_name.to_owned()))),
    };
    let page_ids = match pages_of(gs, pages) {
        Ok(v) => v,
        Err(e) => return Err(e),
    };
    let scan_chars = chars_of(scan);
    proof {
        reveal_strlit("row");
        reveal_strlit("column");
    }
    let ghost page_seq = page_ids@;
    if chars_eq(&scan_chars, "row") {
        let mut c = row_scan_config(ids, name, gs, page_ids, code_bits);
        c.output_address_bits = output_address_bits;
        c.fill_byte = fill_byte;
        assert(scan@.len() == 3);
        assert("column"@.len() == 6);
        assert(is_preset_config(c, name@, *gs, page_seq, code_bits, false));
        Ok(c)
    } else if chars_eq(&scan_chars, "column") {
        let mut c = column_scan_config(ids, name, gs, page_ids, code_bits);
        c.output_address_bits = output_address_bits;
        c.fill_byte = fill_byte;
        assert(is_preset_config(c, name@, *gs, page_seq, code_bits, true));
        Ok(c)
    } else {
        Err(CliError::UnknownScan(scan.to_owned()))
    }
}

/// Each id that a name resolves to is the id of a glyph set in the document.
proof fn lemma_named_glyph_set_resolves(sets: Seq<GlyphSet>, name: Seq<char>)
    ensures
        forall|k: int|
            0 <= k < named_glyph_sets(sets, name).len() ==> exists|j: int|
                0 <= j < sets.len() && sets[j].id == #[trigger] named_glyph_sets(sets, name)[k],
    decreases sets.len(),
{
    if sets.len() > 0 {
        lemma_named_glyph_set_resolves(sets.drop_last(), name);
        let before = named_glyph_sets(sets.drop_last(), name);
        assert forall|k: int| 0 <= k < named_glyph_sets(sets, name).len() implies exists|j: int|
            0 <= j < sets.len() && sets[j].id == #[trigger] named_glyph_sets(sets, name)[k] by {
            if k < before.len() {
                let x = before[k];
                let j = choose|j: int| 0 <= j < sets.drop_last().len() && sets.drop_last()[j].id == x;
                assert(sets[j].id == named_glyph_sets(sets, name)[k]);
            } else {
                assert(sets[sets.len() - 1].id == named_glyph_sets(sets, name)[k]);
            }
        }
    }
}

/// The number of glyphs stored on the pages of `pages`.
pub open spec fn stored_glyphs(pages: Seq<GlyphPage>) -> nat
    decreases pages.len(),
{
    if pages.len() == 0 {
        0
    } else {
        stored_glyphs(pages.drop_last()) + pages.last().glyphs@.len()
    }
}

/// The overview line of a character set in `info`.
pub open spec fn character_set_info_line(cs: crate::character_set::CharacterSet) -> Seq<char> {
    "  "@ + debug_text(cs.name@) + " \u{2014} "@ + decimal(cs.entries@.len()) + " entries\n"@
}

/// The overview line of a glyph set in `info`.
pub open spec fn glyph_set_info_line(gs: GlyphSet) -> Seq<char> {
    "  "@ + debug_text(gs.name@) + " \u{2014} "@ + decimal(gs.glyph_size.width as nat) + "\u{d7}"@ + decimal(
        gs.glyph_size.height as nat,
    ) + ", "@ + decimal(gs.pages@.len()) + " page(s), "@ + decimal(stored_glyphs(gs.pages@))
        + " stored glyph(s)\n"@
}

/// The lines of `sets`, in order.
pub open spec fn character_set_info_lines(sets: Seq<crate::character_set::CharacterSet>) -> Seq<char>
    decreases sets.len(),
{
    if sets.len() == 0 {
        Seq::empty()
    } else {
        character_set_info_lines(sets.drop_last()) + character_set_info_line(sets.last())
    }
}

/// The lines of `sets`, in order.
pub open spec fn glyph_set_info_lines(sets: Seq<GlyphSet>) -> Seq<char>
    decreases sets.len(),
{
    if sets.len() == 0 {
        Seq::empty()
    } else {
        glyph_set_info_lines(sets.drop_last()) + glyph_set_info_line(sets.last())
    }
}

/// What `info` prints of a document: its format version and quoted name, then
/// each character set with its entry count and each glyph set with its size, pages
/// and stored glyphs.
pub open spec fn info_text_spec(doc: FontSpace) -> Seq<char> {
    "format_version: "@ + decimal(doc.format_version as nat) + "\nname: "@ + debug_text(doc.metadata.name@)
        + "\ncharacter_sets: "@ + decimal(doc.character_sets@.len()) + "\n"@ + character_set_info_lines(
        doc.character_sets@,
    ) + "glyph_sets: "@ + decimal(doc.glyph_sets@.len()) + "\n"@ + glyph_set_info_lines(doc.glyph_sets@)
}

/// The overview `info` prints of a document (see [`info_text_spec`]).
#[verifier::spinoff_prover]
#[verifier::rlimit(40)]
pub fn info_text(doc: &FontSpace) -> (t: String)
    requires
        forall|i: int| 0 <= i < doc.glyph_sets@.len() ==> stored_glyphs(#[trigger] doc.glyph_sets@[i].pages@) <= u64::MAX,
    ensures
        t@ == info_text_spec(*doc),
{
    let mut t = String::new();
    push_str(&mut t, "format_version: ");
    push_decimal(&mut t, doc.format_version as u64);
    push_str(&mut t, "\nname: ");
    let quoted = debug_quoted(doc.metadata.name.as_str());
    push_str(&mut t, quoted.as_str());
    push_str(&mut t, "\ncharacter_sets: ");
    push_decimal(&mut t, doc.character_sets.len() as u64);
    push_str(&mut t, "\n");
    let ghost head = t@;
    let mut i: usize = 0;
    while i < doc.character_sets.len()
        invariant
            i <= doc.character_sets@.len(),
            t@ == head + character_set_info_lines(doc.character_sets@.take(i as int)),
        decreases doc.character_sets@.len() - i,
    {
        let cs = &doc.character_sets[i];
        proof {
            assert(doc.character_sets@.take(i + 1).drop_last() =~= doc.character_sets@.take(i as int));
        }
        push_str(&mut t, "  ");
        let name = debug_quoted(cs.name.as_str());
        push_str(&mut t, name.as_str());
        push_str(&mut t, " \u{2014} ");
        push_decimal(&mut t, cs.entries.len() as u64);
        push_str(&mut t, " entries\n");
        proof {
            assert(t@ =~= head + character_set_info_lines(doc.character_sets@.take(i + 1)));
        }
        i = i + 1;
    }
    proof {
        assert(doc.character_sets@.take(doc.character_sets@.len() as int) =~= doc.character_sets@);
    }
    push_str(&mut t, "glyph_sets: ");
    push_decimal(&mut t, doc.glyph_sets.len() as u64);
    push_str(&mut t, "\n");
    let ghost head2 = t@;
    let mut k: usize = 0;
    while k < doc.glyph_sets.len()
        invariant
            k <= doc.glyph_sets@.len(),
            t@ == head2 + glyph_set_info_lines(doc.glyph_sets@.take(k as int)),
            forall|i: int| 0 <= i < doc.glyph_sets@.len() ==> stored_glyphs(#[trigger] doc.glyph_sets@[i].pages@) <= u64::MAX,
        decreases doc.glyph_sets@.len() - k,
    {
        let gs = &doc.glyph_sets[k];
        proof {
            assert(doc.glyph_sets@.take(k + 1).drop_last() =~= doc.glyph_sets@.take(k as int));
        }
        let glyphs = count_stored_glyphs(&gs.pages);
        push_str(&mut t, "  ");
        let name = debug_quoted(gs.name.as_str());
        push_str(&mut t, name.as_str());
        push_str(&mut t, " \u{2014} ");
        push_decimal(&mut t, gs.glyph_size.width as u64);
        push_str(&mut t, "\u{d7}");
        push_decimal(&mut t, gs.glyph_size.height as u64);
        push_str(&mut t, ", ");
        push_decimal(&mut t, gs.pages.len() as u64);
        push_str(&mut t, " page(s), ");
        push_decimal(&mut t, glyphs);
        push_str(&mut t, " stored glyph(s)\n");
        proof {
            assert(t@ =~= head2 + glyph_set_info_lines(doc.glyph_sets@.take(k + 1)));
        }
        k = k + 1;
    }
    proof {
        assert(doc.glyph_sets@.take(doc.glyph_sets@.len() as int) =~= doc.glyph_sets@);
    }
    t
}

/// The number of glyphs stored on `pages`.
fn count_stored_glyphs(pages: &Vec<GlyphPage>) -> (n: u64)
    requires
        stored_glyphs(pages@) <= u64::MAX,
    ensures
        n == stored_glyphs(pages@),
{
    let mut n: u64 = 0;
    let mut i: usize = 0;
    while i < pages.len()
        invariant
            i <= pages@.len(),
            n == stored_glyphs(pages@.take(i as int)),
            stored_glyphs(pages@) <= u64::MAX,
        decreases pages@.len() - i,
    {
        proof {
            assert(pages@.take(i + 1).drop_last() =~= pages@.take(i as int));
            lemma_stored_glyphs_prefix(pages@, i + 1);
        }
        n = n + pages[i].glyphs.len() as u64;
        i = i + 1;
    }
    proof {
        assert(pages@.take(pages@.len() as int) =~= pages@);
    }
    n
}

/// A prefix of the pages stores no more glyphs than all of them.
proof fn lemma_stored_glyphs_prefix(pages: Seq<GlyphPage>, i: int)
    requires
        0 <= i <= pages.len(),
    ensures
        stored_glyphs(pages.take(i)) <= stored_glyphs(pages),
    decreases pages.len(),
{
    if i < pages.len() {
        assert(pages.drop_last().take(i) =~= pages.take(i));
        lemma_stored_glyphs_prefix(pages.drop_last(), i);
    } else {
        assert(pages.take(i) =~= pages);
    }
}

} // verus!
