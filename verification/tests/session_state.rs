use fontspace::{
    default_code_bits, export_form_is_dirty, form_from_config, new_export_config, rebuild_export_config, select_page,
    selected_bitmap,
    selected_character_set, selected_context, selected_export_config, selected_label, starter_document,
    validate_selected_export, CharacterEntry, CharacterSet, ExportConfigId, ExportError, FontSpace, Glyph,
    GlyphSetId, GlyphSize, GuideAxis, OneToOneViolation, ScanDirection, Selection, SequentialIdGen,
};

fn starter() -> (FontSpace, Selection, SequentialIdGen) {
    let mut ids = SequentialIdGen::new();
    let (doc, sel) = starter_document(&mut ids);
    (doc, sel, ids)
}

fn charset_with(codes: &[u32]) -> CharacterSet {
    let mut ids = SequentialIdGen::new();
    let mut cs = CharacterSet::new(&mut ids, "set", "");
    cs.entries = codes.iter().map(|&code| CharacterEntry { code, label: String::new() }).collect();
    cs
}

#[test]
fn starter_document_selects_a_drawn_glyph() {
    let (doc, sel, _) = starter();
    // The selection resolves and the selected glyph is the drawn 'A'.
    let (glyph_set, _page) = selected_context(&doc, &sel).expect("selection resolves");
    assert_eq!(glyph_set.glyph_size, GlyphSize::new(8, 8));
    assert_eq!(sel.code, 0x41);
    let bitmap = selected_bitmap(&doc, &sel).expect("A is drawn");
    assert!(!bitmap.is_blank());
    assert_eq!(selected_label(&doc, &sel), Some("A"));
}

#[test]
fn select_page_keeps_the_code_point_when_the_target_set_has_it() {
    let (doc, sel, _) = starter();
    // Move to a different, in-charset code (0x43 = 'C'), then reselect the page.
    let moved = Selection { code: 0x43, ..sel };
    let next = select_page(&doc, &moved, sel.glyph_set_id, sel.page_id);
    // The code point is preserved across the (re)selection.
    assert_eq!(next.code, 0x43);
}

#[test]
fn select_page_falls_back_when_the_code_point_is_absent() {
    let (doc, sel, _) = starter();
    // 0x99 has no entry in the starter charset (A–H); selecting the page must land
    // on a valid code — the first entry, 0x41.
    let moved = Selection { code: 0x99, ..sel };
    let next = select_page(&doc, &moved, sel.glyph_set_id, sel.page_id);
    assert_eq!(next.code, 0x41);
}

#[test]
fn starter_document_has_a_visible_baseline_guide() {
    let (doc, sel, _) = starter();
    let (_, page) = selected_context(&doc, &sel).unwrap();
    assert_eq!(page.guides.len(), 1);
    assert!(page.guides[0].visible);
    assert_eq!(page.guides[0].axis, GuideAxis::Horizontal);
}

#[test]
fn export_form_reads_back_the_selected_config() {
    let (mut doc, sel, mut ids) = starter();
    let config = new_export_config(&mut ids, &doc, &sel, "ROM").expect("the glyph set resolves");
    let id = config.id;
    doc.export_configs.push(config);
    assert_eq!(selected_export_config(&doc, Some(id)), Some(id));
    let form = form_from_config(&doc.export_configs[0]);
    assert_eq!(form.name, "ROM");
    assert_eq!(form.scan, ScanDirection::Row); // a new config is row-scan
    assert_eq!(form.glyph_set_id, sel.glyph_set_id);
    // The starter charset tops out at 0x48, so 7 code bits cover it.
    assert_eq!(form.code_bits, 7);
    assert!(!export_form_is_dirty(&doc, Some(&form)), "fresh draft matches the config");
}

#[test]
fn validate_selected_export_reports_the_valid_starter_rom() {
    let (mut doc, sel, mut ids) = starter();
    let config = new_export_config(&mut ids, &doc, &sel, "ROM").unwrap();
    let id = config.id;
    doc.export_configs.push(config);
    let result = validate_selected_export(&doc, Some(id)).expect("a config is selected");
    assert!(result.is_ok(), "starter 8x8 row-scan is valid 1:1: {result:?}");
    let summary = result.unwrap();
    // 3 row bits + 7 code bits + 0 page bits.
    assert_eq!(summary.output_bytes, 1024);
}

#[test]
fn an_edited_draft_is_dirty_and_no_draft_is_clean() {
    let (mut doc, sel, mut ids) = starter();
    let config = new_export_config(&mut ids, &doc, &sel, "ROM").unwrap();
    doc.export_configs.push(config);
    let mut form = form_from_config(&doc.export_configs[0]);
    form.name = "ROM v2".to_string();
    assert!(export_form_is_dirty(&doc, Some(&form)));
    let mut sized = form_from_config(&doc.export_configs[0]);
    sized.output_address_bits = Some(13);
    assert!(export_form_is_dirty(&doc, Some(&sized)));
    assert!(!export_form_is_dirty(&doc, None));
    // A draft of a config that is gone is not dirty.
    doc.export_configs.clear();
    assert!(!export_form_is_dirty(&doc, Some(&form)));
}

#[test]
fn a_stale_export_selection_does_not_resolve() {
    let (doc, _, _) = starter();
    assert_eq!(selected_export_config(&doc, None), None);
    assert_eq!(selected_export_config(&doc, Some(ExportConfigId(7))), None);
    assert!(validate_selected_export(&doc, Some(ExportConfigId(7))).is_none());
    assert!(validate_selected_export(&doc, None).is_none());
}

#[test]
fn validating_a_config_whose_glyph_set_is_gone_reports_it() {
    let (mut doc, sel, mut ids) = starter();
    let mut config = new_export_config(&mut ids, &doc, &sel, "ROM").unwrap();
    config.source.glyph_set_id = GlyphSetId(999);
    let id = config.id;
    doc.export_configs.push(config);
    match validate_selected_export(&doc, Some(id)) {
        Some(Err(ExportError::NotStrictOneToOne { config, reason })) => {
            assert_eq!(config, "ROM");
            assert_eq!(reason, OneToOneViolation::SourceGlyphSetMissing);
        }
        other => panic!("unexpected {other:?}"),
    }
}

#[test]
fn default_code_bits_cover_the_largest_code() {
    assert_eq!(default_code_bits(None), 7);
    assert_eq!(default_code_bits(Some(&charset_with(&[]))), 7);
    assert_eq!(default_code_bits(Some(&charset_with(&[0]))), 1);
    assert_eq!(default_code_bits(Some(&charset_with(&[1]))), 1);
    assert_eq!(default_code_bits(Some(&charset_with(&[2]))), 2);
    assert_eq!(default_code_bits(Some(&charset_with(&[0x41, 0x48, 0x42]))), 7);
    assert_eq!(default_code_bits(Some(&charset_with(&[0x7f]))), 7);
    assert_eq!(default_code_bits(Some(&charset_with(&[0x80]))), 8);
    assert_eq!(default_code_bits(Some(&charset_with(&[0xffff]))), 16);
    assert_eq!(default_code_bits(Some(&charset_with(&[u32::MAX]))), 24);
}

#[test]
fn the_starter_character_set_gives_seven_code_bits() {
    let (doc, sel, _) = starter();
    assert_eq!(default_code_bits(selected_character_set(&doc, &sel)), 7);
}

#[test]
fn select_page_of_an_unknown_glyph_set_keeps_the_code() {
    let (doc, sel, _) = starter();
    let moved = Selection { code: 0x99, ..sel };
    let next = select_page(&doc, &moved, GlyphSetId(12345), sel.page_id);
    assert_eq!(next.code, 0x99);
    assert_eq!(next.glyph_set_id, GlyphSetId(12345));
    assert!(selected_context(&doc, &next).is_none());
    assert!(selected_label(&doc, &next).is_none());
}

#[test]
fn select_page_falls_back_to_the_first_stored_glyph_without_entries() {
    let (mut doc, sel, _) = starter();
    doc.character_sets[0].entries.clear();
    let page = &mut doc.glyph_sets[0].pages[0];
    page.glyphs.insert(0, Glyph { code: 0x30, bitmap: page.glyphs[0].bitmap.clone() });
    let moved = Selection { code: 0x99, ..sel };
    let next = select_page(&doc, &moved, sel.glyph_set_id, sel.page_id);
    assert_eq!(next.code, 0x30);
    // The selected code has no stored glyph and no label.
    assert!(selected_bitmap(&doc, &moved).is_none());
    assert!(selected_label(&doc, &moved).is_none());
}

/// The fragment as the clipboard stores it, read back.
fn through_clipboard(fragment: fontspace::GlyphFragment) -> fontspace::GlyphFragment {
    let stored = fontspace::to_stored_fragment(&fontspace::FontSpaceFragment::Glyphs(fragment));
    fontspace::from_stored_glyphs(&stored).expect("a copied fragment reads back")
}

#[test]
fn copy_selected_glyph_serializes_the_selected_cell() {
    let (doc, sel, _) = starter();
    assert_eq!(sel.code, 0x41); // the drawn 'A'
    let fragment = through_clipboard(fontspace::glyphs_for_clipboard(&doc, &sel, &[]).unwrap());
    assert_eq!(fragment.glyphs.len(), 1);
    assert_eq!(fragment.glyphs[0].code, 0x41);
    assert_eq!(&fragment.glyphs[0].bitmap, selected_bitmap(&doc, &sel).unwrap());
}

#[test]
fn copy_page_selection_serializes_the_selected_run_in_order() {
    let (doc, sel, _) = starter();
    // The run A..C, as the page overview would drag-select it.
    let run = [0x41, 0x42, 0x43];
    let fragment = through_clipboard(fontspace::fragment_for_codes(&doc, &sel, &run).unwrap());
    let codes: Vec<u32> = fragment.glyphs.iter().map(|g| g.code).collect();
    assert_eq!(codes, vec![0x41, 0x42, 0x43]); // display order, blanks included
    assert_eq!(fragment.glyphs[1].label, "B");
    assert!(fragment.glyphs[1].bitmap.is_blank());
    assert_eq!(fragment.source_glyph_size, GlyphSize::new(8, 8));
}

#[test]
fn copy_glyphs_for_clipboard_prefers_a_range_over_the_single_glyph() {
    let (doc, sel, _) = starter();
    // No range: falls back to the single selected glyph (one entry).
    let one = through_clipboard(fontspace::glyphs_for_clipboard(&doc, &sel, &[]).unwrap());
    assert_eq!(one.glyphs.len(), 1);
    // With a range: copies the whole run.
    let two = through_clipboard(fontspace::glyphs_for_clipboard(&doc, &sel, &[0x41, 0x42]).unwrap());
    assert_eq!(two.glyphs.len(), 2);
}

#[test]
fn nothing_is_copied_from_an_unresolved_selection_or_an_empty_run() {
    let (doc, sel, _) = starter();
    assert!(fontspace::fragment_for_codes(&doc, &sel, &[]).is_none());
    let lost = Selection { glyph_set_id: GlyphSetId(5), ..sel };
    assert!(fontspace::glyphs_for_clipboard(&doc, &lost, &[]).is_none());
    // A code without an entry copies with an empty label.
    let fragment = fontspace::fragment_for_codes(&doc, &sel, &[0x99]).unwrap();
    assert_eq!(fragment.glyphs[0].label, "");
    assert!(fragment.glyphs[0].bitmap.is_blank());
}

#[test]
fn selected_pixel_reads_the_drawn_glyph() {
    let (doc, sel, _) = starter();
    assert!(fontspace::selected_pixel(&doc, &sel, 2, 0)); // 'A' has (2,0) on
    assert!(!fontspace::selected_pixel(&doc, &sel, 0, 0));
    assert!(!fontspace::selected_pixel(&doc, &sel, 8, 0)); // outside the glyph
    let blank = Selection { code: 0x42, ..sel };
    assert!(!fontspace::selected_pixel(&doc, &blank, 2, 0)); // not drawn
}

#[test]
fn batch_runs_keep_only_codes_with_entries() {
    let (doc, sel, _) = starter();
    assert_eq!(fontspace::charset_codes_in_run(&doc, &sel, &[0x41, 0x99, 0x43]), vec![0x41, 0x43]);
    assert!(fontspace::charset_codes_in_run(&doc, &sel, &[]).is_empty());
    let lost = Selection { glyph_set_id: GlyphSetId(5), ..sel };
    assert!(fontspace::charset_codes_in_run(&doc, &lost, &[0x41]).is_empty());
}

#[test]
fn export_selected_bytes_renders_the_rom_image() {
    let (mut doc, sel, mut ids) = starter();
    let config = new_export_config(&mut ids, &doc, &sel, "ROM").unwrap();
    let id = config.id;
    doc.export_configs.push(config);
    // Starter is 8×8 with codes up to 0x48 → 3 row bits + 7 code bits = 10 address
    // bits → 1024 one-byte words.
    let bytes = fontspace::export_selected_bytes(&doc, Some(id)).expect("valid config renders");
    assert_eq!(bytes.len(), 1024);
    assert_eq!(bytes[0x41 * 8], 0x3C);
}

#[test]
fn export_selected_bytes_errors_when_nothing_selected() {
    let (doc, _, _) = starter();
    assert!(selected_export_config(&doc, None).is_none());
    assert!(fontspace::export_selected_bytes(&doc, None).is_err());
    assert_eq!(
        fontspace::export_selected_bytes(&doc, Some(ExportConfigId(3))).unwrap_err(),
        "No export configuration selected"
    );
}

#[test]
fn export_selected_bytes_explains_a_refused_config() {
    let (mut doc, sel, mut ids) = starter();
    let mut config = new_export_config(&mut ids, &doc, &sel, "ROM").unwrap();
    config.data_map.output_bits.pop();
    let id = config.id;
    doc.export_configs.push(config);
    assert_eq!(
        fontspace::export_selected_bytes(&doc, Some(id)).unwrap_err(),
        "export config \"ROM\": 7 ROM data bits but the glyph is 8 pixels wide \u{2014} a strict 1:1 row-scan needs one data bit per wide"
    );
    doc.export_configs[0].source.glyph_set_id = GlyphSetId(77);
    assert_eq!(fontspace::export_selected_bytes(&doc, Some(id)).unwrap_err(), "Export source glyph set is missing");
}

#[test]
fn changing_scan_to_column_rebuilds_the_data_map() {
    let (mut doc, sel, mut ids) = starter();
    let config = new_export_config(&mut ids, &doc, &sel, "ROM").unwrap();
    let id = config.id;
    doc.export_configs.push(config);
    // Row-scan 8×8 → 8 data bits emitting columns of the addressed row.
    let mut form = form_from_config(&doc.export_configs[0]);
    form.scan = ScanDirection::Column;
    let rebuilt = rebuild_export_config(&mut ids, &doc, &form).unwrap().unwrap();
    doc.export_configs[0] = rebuilt;
    // Read back: the config is now column-scan.
    let form = form_from_config(&doc.export_configs[0]);
    assert_eq!(form.scan, ScanDirection::Column);
    // Still a valid 1:1 export in the other orientation.
    assert!(validate_selected_export(&doc, Some(id)).unwrap().is_ok());
}

#[test]
fn an_applied_draft_keeps_the_config_identity_and_reads_back_clean() {
    let (mut doc, sel, mut ids) = starter();
    let config = new_export_config(&mut ids, &doc, &sel, "ROM").unwrap();
    doc.export_configs.push(config);
    let before = doc.export_configs[0].clone();
    let mut form = form_from_config(&before);
    form.name = "ROM v2".to_string();
    form.code_bits = 8;
    assert!(export_form_is_dirty(&doc, Some(&form)));
    let rebuilt = rebuild_export_config(&mut ids, &doc, &form).unwrap().unwrap();
    assert_eq!(rebuilt.id, before.id);
    assert_eq!(rebuilt.address_map.id, before.address_map.id);
    assert_eq!(rebuilt.data_map.id, before.data_map.id);
    assert_eq!(rebuilt.name, "ROM v2");
    assert_eq!(rebuilt.address_map.address_bits.len(), 3 + 8);
    doc.export_configs[0] = rebuilt;
    assert!(!export_form_is_dirty(&doc, Some(&form)), "draft back in sync after Apply");
}

#[test]
fn a_draft_of_a_missing_config_or_glyph_set_is_not_rebuilt() {
    let (mut doc, sel, mut ids) = starter();
    let config = new_export_config(&mut ids, &doc, &sel, "ROM").unwrap();
    doc.export_configs.push(config);
    let mut form = form_from_config(&doc.export_configs[0]);
    form.glyph_set_id = GlyphSetId(99);
    assert_eq!(
        rebuild_export_config(&mut ids, &doc, &form).unwrap().unwrap_err(),
        "Export source glyph set no longer exists"
    );
    form.config_id = ExportConfigId(12);
    assert!(rebuild_export_config(&mut ids, &doc, &form).is_none());
}

#[test]
fn export_form_edits_output_size_and_fill_byte() {
    let (mut doc, sel, mut ids) = starter();
    let config = new_export_config(&mut ids, &doc, &sel, "ROM").unwrap();
    let id = config.id;
    doc.export_configs.push(config);
    let mut form = form_from_config(&doc.export_configs[0]);
    // The preset default is the natural size + erased-EEPROM fill.
    assert_eq!(form.output_address_bits, None);
    assert_eq!(form.fill_byte, fontspace::DEFAULT_FILL_BYTE);
    form.output_address_bits = Some(13); // 8192 bytes
    form.fill_byte = 0x00;
    let rebuilt = rebuild_export_config(&mut ids, &doc, &form).unwrap().unwrap();
    doc.export_configs[0] = rebuilt;
    assert_eq!(doc.export_configs[0].output_address_bits, Some(13));
    assert_eq!(doc.export_configs[0].fill_byte, 0x00);
    // The saved values read back into the re-read form.
    let form = form_from_config(&doc.export_configs[0]);
    assert_eq!(form.output_address_bits, Some(13));
    assert_eq!(form.fill_byte, 0x00);
    assert!(!export_form_is_dirty(&doc, Some(&form)));
    let bytes = fontspace::export_selected_bytes(&doc, Some(id)).unwrap();
    assert_eq!(bytes.len(), 8192);
    assert!(bytes[1024..].iter().all(|&b| b == 0x00));
}
