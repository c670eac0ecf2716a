//! FontSpace core: bitmap glyph documents, their validation, strict 1:1 ROM export,
//! the canonical storage schema, and the pure logic of the editor and command line,
//! with their behaviour stated and proved in Verus.

mod app_text;
mod bitmap;
mod canonical;
mod character_set;
mod charset_view;
mod color;
mod command;
mod document;
mod document_browser;
mod export;
mod export_config;
mod export_text;
mod export_view;
mod fragment;
mod fragment_codec;
mod geometry;
mod glyph_set;
mod ids;
mod layout;
mod limits;
mod one_to_one;
mod page_overview;
mod parse;
mod persist;
mod pixels;
mod platform;
mod region;
mod reload;
mod search;
mod session;
mod storage;
mod stroke;
mod text;
mod text_preview;
mod validation;

pub use app_text::{title_label, window_title};
pub use bitmap::{flipped, inverted, shifted, Bitmap, BitmapError, BitmapView, OverflowPolicy};
pub use character_set::{CharacterEntry, CharacterSet};
pub use charset_view::{describe_code, glyph_tooltip, CodeDisplay};
pub use color::Rgba;
pub use command::{
    export_named_rom, find_export_config, info_text, new_named_export_config, pad_output, pages_of, source_glyph_set,
    validate_named_export, CliError,
};
pub use document::{FontSpace, FontSpaceMetadata, CURRENT_FORMAT_VERSION};
pub use document_browser::{browser_model, BrowserModel, ExportConfigNode, GlyphSetNode, PageNode};
pub use export::{
    bits_for, column_scan_config, encode_raw_binary, evaluate_output_word, generate_image, row_scan_config,
    validate_export, AddressedCoords, Dimension, ExportError, ExportSummary, OneToOneViolation, ScanDirection,
};
pub use export_config::{
    AddressBitSource, AddressMap, CoordinateExpr, DataMap, ExportConfig, ExportSourceSpec, OutputBitSource,
    OutputFormatConfig,
};
pub use export_view::{humanized_size, scan_label};
pub use fragment::{FontSpaceFragment, FragmentGlyph, GlyphFragment};
pub use fragment_codec::{
    check_fragment_tags, from_stored_glyphs, to_stored_fragment, to_stored_glyphs, StoredFragmentGlyph,
    StoredGlyphFragment, CURRENT_FRAGMENT_VERSION, KIND_GLYPHS,
};
pub use geometry::{GlyphSize, GlyphSizeError, GuideAxis};
pub use glyph_set::{Glyph, GlyphPage, GlyphSet, Guide};
pub use ids::{
    CharacterSetId, ExportComponentId, ExportConfigId, FontSpaceId, GlyphSetId, GuideId, IdGen,
    PageId, RandomIdGen, SequentialIdGen,
};
pub use layout::Pane;
pub use limits::Limits;
pub use page_overview::{codes_between, overview_entries, OverviewEntry};
pub use parse::{
    parse_code_token, parse_glyph_selector, parse_layout, parse_overflow, parse_page_selector, parse_pixel, resolve_glyph_set,
    GlyphSelector, PageSelector, ParseError, ParsedPixel, RenderLayout,
};
pub use persist::{
    check_version, decode_document, from_stored_v1, to_stored, JsonError, LoadOutcome,
};
pub use pixels::{format_code, format_rows, parse_code, parse_rows, RowError, OFF, ON};
pub use platform::{
    cursor_env_additions, desktop_entry_contents, desktop_exec_field, is_gnome_family, parse_gsettings_value,
    resolve_exec_path, APP_ID, STORAGE_NAMESPACE,
};
pub use region::{flip_edits, region_extract, rotate_cw, rotate_edits, stamp_edits, FlipDir, PixelEdit, PixelRect};
pub use session::{
    default_code_bits, default_selection, display_name, document_name, export_form_is_dirty, form_from_config, load_status,
    saved_status, scan_of, select_page,
    selected_bitmap, selected_character_set, selected_context, selected_export_config, selected_label, starter_document,
    validate_selected_export, new_export_config, selected_pixel, charset_codes_in_run, fragment_for_codes,
    glyphs_for_clipboard, export_selected_bytes, rebuild_export_config, ExportConfigForm, GridLevel, GuardedIntent, Marquee, Selection,
};
pub use storage::{
    StoredAddressBit, StoredAddressMap, StoredAxis, StoredCharacterEntry, StoredCharacterSet, StoredCoordExpr,
    StoredDataMap, StoredExportConfig, StoredExportSource, StoredFontSpaceV1, StoredGlyph, StoredGlyphPage,
    StoredGlyphSet, StoredGlyphSize, StoredGuide, StoredMetadata, StoredOutputBit, StoredOutputFormat,
    DEFAULT_FILL_BYTE,
};
pub use stroke::{line_cells, Stroke};
pub use text_preview::preview_codes;
pub use validation::{ValidationError, ValidationReport, ValidationWarning};
