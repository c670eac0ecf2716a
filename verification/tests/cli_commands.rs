use fontspace::{
    export_named_rom, find_export_config, info_text, new_export_config, new_named_export_config, pages_of,
    source_glyph_set, starter_document, validate_named_export, CliError, ExportError, FontSpace, GlyphPage, GlyphSetId,
    ParseError, ScanDirection, Selection, SequentialIdGen, CURRENT_FORMAT_VERSION,
};

fn starter_with_rom() -> (FontSpace, Selection, SequentialIdGen) {
    let mut ids = SequentialIdGen::new();
    let (mut doc, sel) = starter_document(&mut ids);
    let config = new_export_config(&mut ids, &doc, &sel, "ROM").unwrap();
    doc.export_configs.push(config);
    (doc, sel, ids)
}

fn two_page_doc() -> (FontSpace, SequentialIdGen) {
    let mut ids = SequentialIdGen::new();
    let (mut doc, _) = starter_document(&mut ids);
    let bold = GlyphPage::new(&mut ids, "Bold", "");
    doc.glyph_sets[0].pages.push(bold);
    (doc, ids)
}

#[test]
fn pages_are_named_in_the_order_given() {
    let (doc, _) = two_page_doc();
    let gs = &doc.glyph_sets[0];
    let regular = gs.pages[0].id;
    let bold = gs.pages[1].id;
    assert_eq!(pages_of(gs, "all").unwrap(), vec![regular, bold]);
    assert_eq!(pages_of(gs, "  all ").unwrap(), vec![regular, bold]);
    assert_eq!(pages_of(gs, "Regular").unwrap(), vec![regular]);
    assert_eq!(pages_of(gs, " Bold , Regular ").unwrap(), vec![bold, regular]);
    assert_eq!(pages_of(gs, "Bold,Bold").unwrap(), vec![bold, bold]);
}

#[test]
fn an_unknown_page_name_is_reported_trimmed() {
    let (doc, _) = two_page_doc();
    let gs = &doc.glyph_sets[0];
    assert_eq!(pages_of(gs, "Italic"), Err(CliError::PageNotFound("Italic".into())));
    assert_eq!(pages_of(gs, "Regular, Italic ,Nope"), Err(CliError::PageNotFound("Italic".into())));
    // `all` is matched case-sensitively; "ALL" is a page name.
    assert_eq!(pages_of(gs, "ALL"), Err(CliError::PageNotFound("ALL".into())));
}

#[test]
fn export_configs_are_found_by_name() {
    let (doc, sel, _) = starter_with_rom();
    let config = find_export_config(&doc, "ROM").unwrap();
    assert_eq!(config.id, doc.export_configs[0].id);
    assert_eq!(find_export_config(&doc, "rom").unwrap_err(), CliError::ExportConfigNotFound("rom".into()));
    let source = source_glyph_set(&doc, config, "ROM").unwrap();
    assert_eq!(source.id, sel.glyph_set_id);
}

#[test]
fn a_config_whose_source_is_gone_is_reported() {
    let (mut doc, _, _) = starter_with_rom();
    doc.export_configs[0].source.glyph_set_id = GlyphSetId(424242);
    let config = doc.export_configs[0].clone();
    assert_eq!(
        source_glyph_set(&doc, &config, "ROM").unwrap_err(),
        CliError::ExportSourceMissing { config: "ROM".into() }
    );
    assert_eq!(
        validate_named_export(&doc, "ROM").unwrap_err(),
        CliError::ExportSourceMissing { config: "ROM".into() }
    );
    assert!(export_named_rom(&doc, "ROM").is_err());
}

#[test]
fn validate_named_export_summarizes_the_starter_rom() {
    let (doc, _, _) = starter_with_rom();
    let summary = validate_named_export(&doc, "ROM").unwrap();
    assert_eq!(summary.scan, ScanDirection::Row);
    assert_eq!(summary.data_bits, 8);
    assert_eq!(summary.output_bytes, 1024);
    assert_eq!(validate_named_export(&doc, "Nope").unwrap_err(), CliError::ExportConfigNotFound("Nope".into()));
}

#[test]
fn export_named_rom_writes_each_row_of_the_a() {
    let (doc, _, _) = starter_with_rom();
    let (summary, bytes) = export_named_rom(&doc, "ROM").unwrap();
    assert_eq!(summary.output_bytes, 1024);
    assert_eq!(bytes.len(), 1024);
    // Row y of code 0x41 sits at address (0x41 << 3) | y; bit x is column x.
    let base = 0x41 * 8;
    assert_eq!(bytes[base], 0x3C); // ..####..
    assert_eq!(bytes[base + 1], 0x42); // .#....#.
    assert_eq!(bytes[base + 3], 0x7E); // .######.
    assert_eq!(bytes[base + 7], 0x00); // ........
    // Codes with no stored glyph read blank.
    assert!(bytes[..base].iter().all(|&b| b == 0));
    assert!(bytes[base + 8..].iter().all(|&b| b == 0));
}

#[test]
fn an_invalid_config_exports_no_bytes() {
    let (mut doc, _, _) = starter_with_rom();
    doc.export_configs[0].data_map.output_bits.pop();
    match export_named_rom(&doc, "ROM") {
        Err(CliError::Export(ExportError::DataWidthMismatch { data_bits, extent, .. })) => {
            assert_eq!(data_bits, 7);
            assert_eq!(extent, 8);
        }
        other => panic!("unexpected {other:?}"),
    }
}

#[test]
fn add_export_config_builds_row_and_column_configs() {
    let (doc, mut ids) = two_page_doc();
    let row = new_named_export_config(&mut ids, &doc, "Text", "Terminal 8x8", "Bold", 7, "row", None, 0xFF).unwrap();
    assert_eq!(row.name, "Text");
    assert_eq!(row.source.glyph_set_id, doc.glyph_sets[0].id);
    assert_eq!(row.source.pages, vec![doc.glyph_sets[0].pages[1].id]);
    let column = new_named_export_config(&mut ids, &doc, "Cols", "Terminal 8x8", "all", 7, "column", None, 0xFF).unwrap();
    assert_eq!(column.source.pages.len(), 2);
    assert_eq!(column.data_map.name, "column-scan data");
    assert_eq!(
        new_named_export_config(&mut ids, &doc, "X", "Terminal 8x8", "all", 7, "diagonal", None, 0xFF).unwrap_err(),
        CliError::UnknownScan("diagonal".into())
    );
    assert_eq!(
        new_named_export_config(&mut ids, &doc, "X", "Terminal 8x8", "Light", 7, "row", None, 0xFF).unwrap_err(),
        CliError::PageNotFound("Light".into())
    );
    assert_eq!(
        new_named_export_config(&mut ids, &doc, "X", "Nope", "all", 7, "row", None, 0xFF).unwrap_err(),
        CliError::Parse(ParseError::GlyphSetNotFound("Nope".into()))
    );
}

#[test]
fn info_lists_the_sets_with_their_sizes() {
    let (doc, _) = two_page_doc();
    let expected = format!(
        "format_version: {CURRENT_FORMAT_VERSION}\nname: \"Untitled\"\ncharacter_sets: 1\n  \"ASCII (demo)\" \u{2014} 8 entries\nglyph_sets: 1\n  \"Terminal 8x8\" \u{2014} 8\u{d7}8, 2 page(s), 1 stored glyph(s)\n"
    );
    assert_eq!(info_text(&doc), expected);
}

#[test]
fn cli_export_pads_to_output_size_with_fill_byte() {
    // A config with a 2^14-byte target and fill byte 0xEE: export pads the natural
    // image up to 16384 bytes with the fill byte.
    let (mut doc, mut ids) = two_page_doc();
    let config =
        new_named_export_config(&mut ids, &doc, "rom", "Terminal 8x8", "Regular", 7, "row", Some(14), 0xEE).unwrap();
    assert_eq!(config.output_address_bits, Some(14));
    assert_eq!(config.fill_byte, 0xEE);
    doc.export_configs.push(config);
    let (summary, bytes) = export_named_rom(&doc, "rom").unwrap();
    assert_eq!(summary.output_bytes, 1024);
    assert_eq!(bytes.len(), 16384, "padded to the configured size");
    // The natural 8x8 / 128-code image is 1024 bytes (3 row + 7 code address bits);
    // everything past it is fill.
    assert!(bytes[1024..].iter().all(|&b| b == 0xEE), "the padding is the fill byte");
    assert_eq!(bytes[0x41 * 8], 0x3C);
}

#[test]
fn a_target_smaller_than_the_image_or_too_wide_is_refused() {
    let (mut doc, mut ids) = two_page_doc();
    let small =
        new_named_export_config(&mut ids, &doc, "small", "Terminal 8x8", "Regular", 7, "row", Some(9), 0x00).unwrap();
    let wide =
        new_named_export_config(&mut ids, &doc, "wide", "Terminal 8x8", "Regular", 7, "row", Some(40), 0x00).unwrap();
    let exact =
        new_named_export_config(&mut ids, &doc, "exact", "Terminal 8x8", "Regular", 7, "row", Some(10), 0x00).unwrap();
    doc.export_configs.push(small);
    doc.export_configs.push(wide);
    doc.export_configs.push(exact);
    let e = ExportError::OutputTooSmall { config: "small".into(), image_bytes: 1024, output_bytes: 512 };
    assert_eq!(export_named_rom(&doc, "small").unwrap_err(), CliError::Export(e.clone()));
    assert_eq!(e.message(), "export config \"small\": image is 1024 bytes, over the output size of 512 bytes");
    assert_eq!(
        export_named_rom(&doc, "wide").unwrap_err(),
        CliError::Export(ExportError::AddressTooWide { config: "wide".into(), address_bits: 40, max: 32 })
    );
    // A target of exactly the image's size adds no padding.
    assert_eq!(export_named_rom(&doc, "exact").unwrap().1.len(), 1024);
}
