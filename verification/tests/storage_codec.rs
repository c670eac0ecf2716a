use fontspace::{
    check_fragment_tags, check_version, decode_document, from_stored_glyphs, from_stored_v1,
    row_scan_config, to_stored, to_stored_fragment, to_stored_glyphs, Bitmap, CharacterEntry, CharacterSet,
    FontSpace, FontSpaceFragment, FragmentGlyph, Glyph, GlyphFragment, GlyphPage, GlyphSet, GlyphSize, Guide,
    GuideAxis, GuideId, JsonError, Limits, SequentialIdGen, StoredAxis, StoredCharacterEntry, StoredCharacterSet,
    StoredFontSpaceV1, StoredFragmentGlyph, StoredGlyph, StoredGlyphFragment, StoredGlyphPage, StoredGlyphSet,
    StoredGlyphSize, StoredMetadata, ValidationWarning, CURRENT_FRAGMENT_VERSION, DEFAULT_FILL_BYTE, KIND_GLYPHS,
};

fn golden_doc() -> FontSpace {
    let mut ids = SequentialIdGen::new();
    let mut character_set = CharacterSet::new(&mut ids, "ASCII subset", "space and two letters");
    character_set.entries = vec![
        CharacterEntry { code: 0x20, label: "SPACE".into() },
        CharacterEntry { code: 0x41, label: "LATIN CAPITAL LETTER A".into() },
        CharacterEntry { code: 0x42, label: "LATIN CAPITAL LETTER B".into() },
    ];

    let size = GlyphSize::new(8, 8);
    let mut glyph_set = GlyphSet::new(&mut ids, "Terminal 8x8", "demo", size, character_set.id);
    let mut page = GlyphPage::new(&mut ids, "Regular", "primary page");
    page.guides.push(Guide {
        id: GuideId::new(&mut ids),
        name: "Baseline".into(),
        axis: GuideAxis::Horizontal,
        position: 7,
        visible: true,
        locked: false,
    });

    let mut letter_a = Bitmap::new_blank(size);
    for (x, y) in [(3, 1), (4, 1), (2, 2), (5, 2), (2, 3), (3, 3), (4, 3), (5, 3), (2, 4), (5, 4)] {
        letter_a.set(x, y, true).unwrap();
    }
    let mut letter_b = Bitmap::new_blank(size);
    for (x, y) in [(2, 1), (3, 1), (2, 2), (4, 2), (2, 3), (3, 3), (2, 4), (4, 4), (2, 5)] {
        letter_b.set(x, y, true).unwrap();
    }

    page.glyphs.push(Glyph { code: 0x42, bitmap: letter_b });
    page.glyphs.push(Glyph { code: 0x41, bitmap: letter_a });
    page.glyphs.push(Glyph { code: 0x20, bitmap: Bitmap::new_blank(size) });
    glyph_set.pages.push(page);

    let mut doc = FontSpace::new(&mut ids, "Golden", "canonical golden document");
    doc.character_sets.push(character_set);
    doc.glyph_sets.push(glyph_set);
    doc
}

fn load_stored(stored: StoredFontSpaceV1) -> Result<fontspace::LoadOutcome, JsonError> {
    check_version(stored.format_version)?;
    from_stored_v1(stored)
}

#[test]
fn save_is_canonical_shape() {
    let stored = to_stored(&golden_doc());
    assert_eq!(stored.format_version, 1);
    assert_eq!(stored.id, "00000000-0000-0000-0000-000000000005");
    let page = &stored.glyph_sets[0].pages[0];
    assert_eq!(page.guides[0].axis, StoredAxis::Horizontal);
    assert_eq!(page.glyphs[0].code, "0x41");
    assert_eq!(page.glyphs[0].pixels[1], "...##...");
    assert_eq!(stored.character_sets[0].entries[0].code, "0x20");
}

#[test]
fn glyphs_saved_in_entry_order_with_blanks_pruned() {
    let outcome = load_stored(to_stored(&golden_doc())).unwrap();
    let page = &outcome.document.glyph_sets[0].pages[0];
    let codes: Vec<u32> = page.glyphs.iter().map(|g| g.code).collect();
    assert_eq!(codes, vec![0x41, 0x42]);
    assert!(page.glyph_by_code(0x20).is_none());
}

#[test]
fn save_load_save_is_byte_identical() {
    let once = to_stored(&golden_doc());
    let reloaded = load_stored(to_stored(&golden_doc())).unwrap().document;
    let twice = to_stored(&reloaded);
    assert_eq!(once, twice, "save(load(save(d))) must equal save(d)");
}

#[test]
fn load_reports_dangling_glyph_as_warning_not_error() {
    let mut doc = golden_doc();
    let size = doc.glyph_sets[0].glyph_size;
    let mut mark = Bitmap::new_blank(size);
    mark.set(0, 0, true).unwrap();
    doc.glyph_sets[0].pages[0].glyphs.push(Glyph { code: 0x99, bitmap: mark });
    let outcome = load_stored(to_stored(&doc)).expect("dangling glyph must not fail the load");
    assert_eq!(outcome.warnings.len(), 1);
    assert!(matches!(outcome.warnings[0], ValidationWarning::DanglingGlyph { code: 0x99, .. }));
}

fn bare(id: &str) -> StoredFontSpaceV1 {
    StoredFontSpaceV1 {
        format_version: 1,
        id: id.into(),
        metadata: StoredMetadata { name: "x".into(), description: String::new() },
        character_sets: Vec::new(),
        glyph_sets: Vec::new(),
        export_configs: Vec::new(),
    }
}

fn one_glyph_doc(size: StoredGlyphSize, glyphs: Vec<StoredGlyph>) -> StoredFontSpaceV1 {
    let mut s = bare("00000000-0000-0000-0000-000000000001");
    s.character_sets.push(StoredCharacterSet {
        id: "00000000-0000-0000-0000-000000000002".into(),
        name: "cs".into(),
        description: String::new(),
        entries: vec![StoredCharacterEntry { code: "0x41".into(), label: "A".into() }],
    });
    s.glyph_sets.push(StoredGlyphSet {
        id: "00000000-0000-0000-0000-000000000003".into(),
        name: "gs".into(),
        description: String::new(),
        glyph_size: size,
        character_set_id: "00000000-0000-0000-0000-000000000002".into(),
        pages: vec![StoredGlyphPage {
            id: "00000000-0000-0000-0000-000000000004".into(),
            name: "p".into(),
            description: String::new(),
            guides: Vec::new(),
            glyphs,
        }],
    });
    s
}

#[test]
fn unsupported_version_is_rejected() {
    let mut s = bare("00000000-0000-0000-0000-000000000001");
    s.format_version = 999;
    let err = load_stored(s).unwrap_err();
    assert!(matches!(err, JsonError::UnsupportedVersion { found: 999, .. }));
}

#[test]
fn malformed_visual_row_is_a_precise_error() {
    let s = one_glyph_doc(
        StoredGlyphSize { width: 2, height: 2 },
        vec![StoredGlyph { code: "0x41".into(), pixels: vec!["###".into(), "..".into()] }],
    );
    match load_stored(s).unwrap_err() {
        JsonError::RowWidth { row, expected, found, .. } => assert_eq!((row, expected, found), (0, 2, 3)),
        other => panic!("expected RowWidth, got {other:?}"),
    }
}

#[test]
fn structurally_invalid_document_fails_load() {
    let s = one_glyph_doc(
        StoredGlyphSize { width: 1, height: 1 },
        vec![
            StoredGlyph { code: "0x41".into(), pixels: vec!["#".into()] },
            StoredGlyph { code: "0x41".into(), pixels: vec!["#".into()] },
        ],
    );
    assert!(matches!(load_stored(s).unwrap_err(), JsonError::Invalid(_)));
}

#[test]
fn invalid_uuid_is_a_precise_error() {
    let err = load_stored(bare("not-a-uuid")).unwrap_err();
    match err {
        JsonError::InvalidUuid { value, .. } => assert_eq!(value, "not-a-uuid"),
        other => panic!("expected InvalidUuid, got {other:?}"),
    }
}

#[test]
fn invalid_code_names_the_value() {
    let s = one_glyph_doc(
        StoredGlyphSize { width: 1, height: 1 },
        vec![StoredGlyph { code: "0xZZ".into(), pixels: vec!["#".into()] }],
    );
    match decode_document(&s).unwrap_err() {
        JsonError::InvalidCode { value, .. } => assert_eq!(value, "0xZZ"),
        other => panic!("expected InvalidCode, got {other:?}"),
    }
}

#[test]
fn invalid_pixel_char_is_reported_with_its_place() {
    let s = one_glyph_doc(
        StoredGlyphSize { width: 2, height: 1 },
        vec![StoredGlyph { code: "0x41".into(), pixels: vec!["#o".into()] }],
    );
    match decode_document(&s).unwrap_err() {
        JsonError::InvalidPixelChar { row, column, ch, .. } => assert_eq!((row, column, ch), (0, 1, 'o')),
        other => panic!("expected InvalidPixelChar, got {other:?}"),
    }
}

#[test]
fn uuid_text_parses_back() {
    let doc = decode_document(&bare("00000000-0000-0000-0000-000000000001")).unwrap();
    assert_eq!(doc.id.0, 1);
    let doc = decode_document(&bare("abcdef01-2345-6789-0123-456789abcdef")).unwrap();
    assert_eq!(doc.id.0, 0xabcdef01_2345_6789_0123_456789abcdef);
    let doc = decode_document(&bare("ABCDEF01-2345-6789-0123-456789ABCDEF")).unwrap();
    assert_eq!(doc.id.0, 0xabcdef01_2345_6789_0123_456789abcdef);
    match decode_document(&bare("not-a-uuid")).unwrap_err() {
        JsonError::InvalidUuid { value, .. } => assert_eq!(value, "not-a-uuid"),
        other => panic!("expected InvalidUuid, got {other:?}"),
    }
}

#[test]
fn export_configs_survive_a_stored_round_trip() {
    let mut doc = golden_doc();
    let mut ids = SequentialIdGen::new();
    for _ in 0..10 {
        let _ = GuideId::new(&mut ids);
    }
    let pages = vec![doc.glyph_sets[0].pages[0].id];
    let config = row_scan_config(&mut ids, "Text ROM", &doc.glyph_sets[0], pages, 7);
    doc.export_configs.push(config.clone());
    let mut padded = config;
    padded.id = fontspace::ExportConfigId(0xABC);
    padded.name = "Padded ROM".to_string();
    padded.output_address_bits = Some(14);
    padded.fill_byte = 0xEE;
    doc.export_configs.push(padded);
    let stored = to_stored(&doc);
    assert_eq!(stored.export_configs[0].output_address_bits, None);
    assert_eq!(stored.export_configs[0].fill_byte, DEFAULT_FILL_BYTE);
    assert_eq!(stored.export_configs[1].output_address_bits, Some(14));
    assert_eq!(stored.export_configs[1].fill_byte, 0xEE);
    let back = decode_document(&to_stored(&doc)).unwrap();
    assert_eq!(back.export_configs, doc.export_configs);
    assert_eq!(back.export_configs[1].output_address_bits, Some(14));
    assert_eq!(back.export_configs[1].fill_byte, 0xEE);
}

fn glyph(code: u32, label: &str, size: GlyphSize, on: &[(u16, u16)]) -> FragmentGlyph {
    let mut bitmap = Bitmap::new_blank(size);
    for &(x, y) in on {
        bitmap.set(x, y, true).unwrap();
    }
    FragmentGlyph { code, label: label.to_string(), bitmap }
}

fn sample() -> GlyphFragment {
    let size = GlyphSize::new(5, 3);
    GlyphFragment {
        source_glyph_size: size,
        glyphs: vec![glyph(0x41, "A", size, &[(0, 0), (4, 2)]), glyph(0xE000, "SYMBOL", size, &[(2, 1)])],
    }
}

fn stored_fragment(width: u16, height: u16, glyphs: Vec<StoredFragmentGlyph>) -> StoredGlyphFragment {
    StoredGlyphFragment {
        fragment_version: CURRENT_FRAGMENT_VERSION,
        kind: KIND_GLYPHS.to_string(),
        source_glyph_size: StoredGlyphSize { width, height },
        glyphs,
    }
}

#[test]
fn round_trips_through_json() {
    let fragment = sample();
    let stored = to_stored_glyphs(&fragment);
    check_fragment_tags(stored.fragment_version, &stored.kind).unwrap();
    let back = from_stored_glyphs(&stored).unwrap();
    assert_eq!(back, fragment);
}

#[test]
fn re_serialization_is_stable() {
    let stored = to_stored_fragment(&FontSpaceFragment::Glyphs(sample()));
    let again = to_stored_glyphs(&from_stored_glyphs(&stored).unwrap());
    assert_eq!(again, stored);
}

#[test]
fn canonical_form_is_hex_codes_visual_rows_and_one_trailing_newline() {
    let stored = to_stored_glyphs(&sample());
    assert_eq!(stored.fragment_version, 1);
    assert_eq!(stored.kind, "glyphs");
    assert_eq!(stored.glyphs[0].code, "0x41");
    assert_eq!(stored.glyphs[1].code, "0xe000");
    assert_eq!(stored.glyphs[1].label, "SYMBOL");
    assert_eq!(stored.glyphs[0].pixels[0], "#....");
}

#[test]
fn rejects_an_unsupported_fragment_version() {
    let err = check_fragment_tags(99, "glyphs").unwrap_err();
    assert!(matches!(err, JsonError::UnsupportedFragmentVersion { found: 99, supported: 1 }));
}

#[test]
fn rejects_an_unknown_kind() {
    let err = check_fragment_tags(1, "pages").unwrap_err();
    assert!(matches!(err, JsonError::UnknownFragmentKind { kind } if kind == "pages"));
}

#[test]
fn rejects_an_invalid_source_geometry() {
    let err = from_stored_glyphs(&stored_fragment(0, 3, Vec::new())).unwrap_err();
    assert!(matches!(err, JsonError::InvalidFragmentGeometry { width: 0, height: 3, .. }));
}

#[test]
fn rejects_a_glyph_whose_pixels_mismatch_the_source_geometry() {
    let stored = stored_fragment(
        5,
        3,
        vec![StoredFragmentGlyph {
            code: "0x41".into(),
            label: "A".into(),
            pixels: vec![".....".into(), ".....".into()],
        }],
    );
    let err = from_stored_glyphs(&stored).unwrap_err();
    assert!(matches!(err, JsonError::RowCount { expected: 3, found: 2, .. }));
}

#[test]
fn an_empty_glyph_fragment_round_trips() {
    let fragment = GlyphFragment { source_glyph_size: GlyphSize::new(8, 8), glyphs: Vec::new() };
    let stored = to_stored_glyphs(&fragment);
    assert_eq!(from_stored_glyphs(&stored).unwrap(), fragment);
}

#[test]
fn fragment_geometry_error_explains_the_reason() {
    match from_stored_glyphs(&stored_fragment(300, 3, Vec::new())).unwrap_err() {
        JsonError::InvalidFragmentGeometry { width, height, reason } => {
            assert_eq!((width, height), (300, 3));
            assert_eq!(reason, "glyph width 300 exceeds the maximum of 256");
        }
        other => panic!("expected InvalidFragmentGeometry, got {other:?}"),
    }
}

#[test]
fn a_saved_valid_document_loads_and_validates_again() {
    let mut doc = golden_doc();
    let mut ids = SequentialIdGen::new();
    for _ in 0..10 {
        let _ = GuideId::new(&mut ids);
    }
    let pages = vec![doc.glyph_sets[0].pages[0].id];
    let config = row_scan_config(&mut ids, "Text ROM", &doc.glyph_sets[0], pages, 7);
    doc.export_configs.push(config);
    assert!(doc.validate(&Limits::default()).is_valid());
    let outcome = load_stored(to_stored(&doc)).expect("a saved valid document loads");
    assert!(outcome.warnings.is_empty());
    let back = outcome.document;
    assert!(back.validate(&Limits::default()).is_valid());
    let codes: Vec<u32> = back.glyph_sets[0].pages[0].glyphs.iter().map(|g| g.code).collect();
    assert_eq!(codes, vec![0x41, 0x42]);
    assert_eq!(back.export_configs, doc.export_configs);
}
