use fontspace::{
    Bitmap, CharacterEntry, CharacterSet, CharacterSetId, FontSpace, Glyph, GlyphPage, GlyphSet, GlyphSetId,
    GlyphSize, GlyphSizeError, Guide, GuideAxis, GuideId, Limits, PageId, SequentialIdGen, ValidationError,
    ValidationReport, ValidationWarning,
};

fn valid_doc() -> FontSpace {
    let mut ids = SequentialIdGen::new();
    let mut cs = CharacterSet::new(&mut ids, "ASCII-ish", "");
    cs.entries = vec![
        CharacterEntry { code: 0x41, label: "A".into() },
        CharacterEntry { code: 0x42, label: "B".into() },
    ];
    let size = GlyphSize::new(8, 16);
    let mut gs = GlyphSet::new(&mut ids, "Terminal 8x16", "", size, cs.id);
    let mut page = GlyphPage::new(&mut ids, "Regular", "");
    let mut bitmap = Bitmap::new_blank(size);
    bitmap.set(1, 1, true).unwrap();
    page.glyphs.push(Glyph { code: 0x41, bitmap });
    gs.pages.push(page);

    let mut doc = FontSpace::new(&mut ids, "doc", "");
    doc.character_sets.push(cs);
    doc.glyph_sets.push(gs);
    doc
}

#[test]
fn valid_document_has_no_errors_or_warnings() {
    let report = valid_doc().validate(&Limits::default());
    assert!(report.is_valid(), "errors: {:?}", report.errors);
    assert!(report.warnings.is_empty(), "warnings: {:?}", report.warnings);
}

#[test]
fn dangling_glyph_is_a_warning_not_an_error() {
    let mut doc = valid_doc();
    let size = doc.glyph_sets[0].glyph_size;
    doc.glyph_sets[0].pages[0].glyphs.push(Glyph { code: 0x99, bitmap: Bitmap::new_blank(size) });
    let report = doc.validate(&Limits::default());
    assert!(report.is_valid(), "dangling must not be a hard error");
    assert_eq!(report.warnings.len(), 1);
    assert!(matches!(report.warnings[0], ValidationWarning::DanglingGlyph { code: 0x99, .. }));
}

#[test]
fn duplicate_glyph_code_on_a_page_is_an_error() {
    let mut doc = valid_doc();
    let size = doc.glyph_sets[0].glyph_size;
    doc.glyph_sets[0].pages[0].glyphs.push(Glyph { code: 0x41, bitmap: Bitmap::new_blank(size) });
    let report = doc.validate(&Limits::default());
    assert!(!report.is_valid());
    assert!(report.errors.iter().any(|e| matches!(e, ValidationError::DuplicateGlyphCode { code: 0x41, .. })));
}

#[test]
fn geometry_mismatch_is_an_error() {
    let mut doc = valid_doc();
    doc.glyph_sets[0].pages[0].glyphs[0].bitmap = Bitmap::new_blank(GlyphSize::new(8, 8));
    let report = doc.validate(&Limits::default());
    assert!(report.errors.iter().any(|e| matches!(e, ValidationError::GlyphSizeMismatch { .. })));
}

#[test]
fn unknown_character_set_reference_is_an_error() {
    let mut doc = valid_doc();
    doc.glyph_sets[0].character_set_id = CharacterSetId(0xDEAD_BEEF);
    let report = doc.validate(&Limits::default());
    assert!(report.errors.iter().any(|e| matches!(e, ValidationError::UnknownCharacterSet { .. })));
}

#[test]
fn duplicate_entry_code_is_an_error() {
    let mut doc = valid_doc();
    doc.character_sets[0].entries.push(CharacterEntry { code: 0x41, label: "A again".into() });
    let report = doc.validate(&Limits::default());
    assert!(report.errors.iter().any(|e| matches!(e, ValidationError::DuplicateEntryCode { code: 0x41, .. })));
}

#[test]
fn duplicate_stable_ids_are_errors() {
    let mut doc = valid_doc();
    let dup_page = doc.glyph_sets[0].pages[0].clone();
    doc.glyph_sets[0].pages.push(dup_page);
    let report = doc.validate(&Limits::default());
    assert!(report.errors.iter().any(|e| matches!(e, ValidationError::DuplicatePageId(_))));
}

#[test]
fn duplicate_guide_ids_are_errors() {
    let mut doc = valid_doc();
    let mut ids = SequentialIdGen::new();
    let guide = Guide {
        id: GuideId::new(&mut ids),
        name: "baseline".into(),
        axis: GuideAxis::Horizontal,
        position: 12,
        visible: true,
        locked: false,
    };
    doc.glyph_sets[0].pages[0].guides.push(guide.clone());
    doc.glyph_sets[0].pages[0].guides.push(guide);
    let report = doc.validate(&Limits::default());
    assert!(report.errors.iter().any(|e| matches!(e, ValidationError::DuplicateGuideId(_))));
}

#[test]
fn invalid_glyph_size_is_an_error() {
    let mut doc = valid_doc();
    doc.glyph_sets[0].glyph_size = GlyphSize::new(0, 16);
    let report = doc.validate(&Limits::default());
    assert!(report.errors.iter().any(|e| matches!(e, ValidationError::GlyphSizeInvalid { .. })));
}

#[test]
fn wrong_format_version_is_an_error() {
    let mut doc = valid_doc();
    doc.format_version = 999;
    let report = doc.validate(&Limits::default());
    assert!(report
        .errors
        .iter()
        .any(|e| matches!(e, ValidationError::UnsupportedFormatVersion { found: 999, .. })));
}

#[test]
fn resource_limits_are_enforced_and_cited() {
    let doc = valid_doc();
    let limits = Limits {
        max_character_slots_per_set: 1,
        max_pages_per_glyph_set: 0,
        max_total_glyph_pixels_per_document: 1,
        ..Limits::default()
    };
    let report = doc.validate(&limits);
    assert!(report.errors.iter().any(|e| matches!(e, ValidationError::TooManyEntries { max: 1, .. })));
    assert!(report.errors.iter().any(|e| matches!(e, ValidationError::TooManyPages { max: 0, .. })));
    assert!(report
        .errors
        .iter()
        .any(|e| matches!(e, ValidationError::TotalGlyphPixelsExceeded { max: 1, .. })));
}

#[test]
fn error_messages_carry_object_context() {
    let err = ValidationError::GlyphSizeMismatch {
        glyph_set: {
            let mut ids = SequentialIdGen::new();
            GlyphSetId::new(&mut ids)
        },
        page: {
            let mut ids = SequentialIdGen::new();
            PageId::new(&mut ids)
        },
        code: 0x41,
        expected: GlyphSize::new(8, 16),
        found: GlyphSize::new(8, 8),
    };
    let rendered = err.message();
    assert!(rendered.contains("0x0041"));
    assert!(rendered.contains("8×16"));
    assert!(rendered.contains("8×8"));
}

#[test]
fn errors_come_in_document_order() {
    let mut doc = valid_doc();
    doc.format_version = 7;
    doc.character_sets[0].entries.push(CharacterEntry { code: 0x42, label: "B again".into() });
    doc.glyph_sets[0].glyph_size = GlyphSize::new(0, 16);
    let report = doc.validate(&Limits::default());
    let cs = doc.character_sets[0].id;
    let gs = doc.glyph_sets[0].id;
    assert_eq!(
        report.errors,
        vec![
            ValidationError::UnsupportedFormatVersion { found: 7, supported: 1 },
            ValidationError::DuplicateEntryCode { character_set: cs, code: 0x42 },
            ValidationError::GlyphSizeInvalid { glyph_set: gs, source: GlyphSizeError::ZeroWidth },
            ValidationError::GlyphSizeMismatch {
                glyph_set: gs,
                page: doc.glyph_sets[0].pages[0].id,
                code: 0x41,
                expected: GlyphSize::new(0, 16),
                found: GlyphSize::new(8, 16),
            },
        ]
    );
}

#[test]
fn an_empty_report_is_valid() {
    let report = ValidationReport::default();
    assert!(report.is_valid());
    assert!(report.warnings.is_empty());
}

#[test]
fn warning_message_names_the_code_and_objects() {
    let doc = valid_doc();
    let w = ValidationWarning::DanglingGlyph {
        glyph_set: doc.glyph_sets[0].id,
        page: doc.glyph_sets[0].pages[0].id,
        code: 0x99,
    };
    let text = w.message();
    assert!(text.contains("0x0099"), "{text}");
}
