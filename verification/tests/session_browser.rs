use fontspace::{
    browser_model, column_scan_config, default_selection, form_from_config, load_status, row_scan_config, scan_of,
    CharacterEntry, CharacterSet, FontSpace, GlyphPage, GlyphSet, GlyphSize, ScanDirection, SequentialIdGen,
    DEFAULT_FILL_BYTE,
};

/// A small document shaped like the editor's starter: one character set, one glyph
/// set ("Terminal 8x8") with one "Regular" page, no export configs.
fn starter() -> FontSpace {
    let mut ids = SequentialIdGen::new();
    let mut cs = CharacterSet::new(&mut ids, "ASCII (demo)", "");
    cs.entries = (0x20u32..0x7f).map(|code| CharacterEntry { code, label: String::new() }).collect();
    let mut gs = GlyphSet::new(&mut ids, "Terminal 8x8", "", GlyphSize::new(8, 8), cs.id);
    gs.pages.push(GlyphPage::new(&mut ids, "Regular", ""));
    let mut doc = FontSpace::new(&mut ids, "Untitled", "");
    doc.character_sets.push(cs);
    doc.glyph_sets.push(gs);
    doc
}

#[test]
fn model_lists_objects_in_document_order_with_pages() {
    let doc = starter();
    let model = browser_model(&doc);
    assert_eq!(model.character_sets, vec!["ASCII (demo)".to_string()]);
    assert_eq!(model.glyph_sets.len(), 1);
    assert_eq!(model.glyph_sets[0].name, "Terminal 8x8");
    assert_eq!(model.glyph_sets[0].pages.len(), 1);
    assert_eq!(model.glyph_sets[0].pages[0].name, "Regular");
    assert!(model.export_configs.is_empty());
}

#[test]
fn model_carries_export_configs_as_selectable_nodes() {
    let mut doc = starter();
    let mut ids = SequentialIdGen::new();
    let pages = vec![doc.glyph_sets[0].pages[0].id];
    let config = row_scan_config(&mut ids, "Text ROM", &doc.glyph_sets[0], pages, 7);
    let config_id = config.id;
    doc.export_configs.push(config);
    let model = browser_model(&doc);
    assert_eq!(model.export_configs.len(), 1);
    assert_eq!(model.export_configs[0].name, "Text ROM");
    assert_eq!(model.export_configs[0].id, config_id);
}

#[test]
fn clicking_a_page_node_target_matches_the_starter_selection() {
    let doc = starter();
    let model = browser_model(&doc);
    let selection = default_selection(&doc).unwrap();
    let node = &model.glyph_sets[0];
    assert_eq!(node.id, selection.glyph_set_id);
    assert_eq!(node.pages[0].id, selection.page_id);
    assert_eq!(selection.code, 0x20);
}

#[test]
fn no_page_means_no_selection() {
    let mut ids = SequentialIdGen::new();
    let doc = FontSpace::new(&mut ids, "empty", "");
    assert_eq!(default_selection(&doc), None);
}

#[test]
fn export_form_reads_back_a_config() {
    let doc = starter();
    let mut ids = SequentialIdGen::new();
    let pages = vec![doc.glyph_sets[0].pages[0].id];
    let row = row_scan_config(&mut ids, "rows", &doc.glyph_sets[0], pages.clone(), 7);
    let form = form_from_config(&row);
    assert_eq!(form.config_id, row.id);
    assert_eq!(form.name, "rows");
    assert_eq!(form.glyph_set_id, doc.glyph_sets[0].id);
    assert_eq!(form.scan, ScanDirection::Row);
    assert_eq!(form.code_bits, 7);
    // The preset default is the natural size with the erased-EEPROM fill.
    assert_eq!(form.output_address_bits, None);
    assert_eq!(form.fill_byte, DEFAULT_FILL_BYTE);

    let col = column_scan_config(&mut ids, "cols", &doc.glyph_sets[0], pages, 5);
    assert_eq!(scan_of(&col), ScanDirection::Column);
    assert_eq!(form_from_config(&col).code_bits, 5);
}

#[test]
fn load_status_counts_tolerated_warnings() {
    assert_eq!(load_status("/tmp/demo.fontspace.json", 0), "Opened demo.fontspace.json");
    assert_eq!(load_status("/tmp/demo.fontspace.json", 2), "Opened demo.fontspace.json (2 warning(s))");
    assert_eq!(load_status("demo.fontspace.json", 1), "Opened demo.fontspace.json (1 warning(s))");
}

#[test]
fn documents_are_named_by_their_file() {
    assert_eq!(fontspace::document_name(None), "Untitled");
    assert_eq!(fontspace::document_name(Some("/fonts/terminal.fontspace.json")), "terminal.fontspace.json");
    assert_eq!(fontspace::document_name(Some("/")), "Untitled");
    assert_eq!(fontspace::display_name("/fonts/a.json"), "a.json");
    // A path with no file name shows whole.
    assert_eq!(fontspace::display_name("/fonts/.."), "/fonts/..");
    assert_eq!(fontspace::saved_status("/tmp/demo.fontspace.json"), "Saved demo.fontspace.json");
}
