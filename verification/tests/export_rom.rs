use fontspace::{
    bits_for, column_scan_config, encode_raw_binary, evaluate_output_word, generate_image, row_scan_config,
    validate_export, AddressBitSource, AddressMap, Bitmap, CharacterSetId, CoordinateExpr, DataMap,
    ExportComponentId, ExportConfig, ExportConfigId, ExportError, ExportSourceSpec, Glyph, GlyphPage, GlyphSet,
    GlyphSize, Limits, OneToOneViolation, OutputBitSource, OutputFormatConfig, PageId, ScanDirection,
    SequentialIdGen,
};

fn glyph_set(ids: &mut SequentialIdGen, size: GlyphSize, page_count: usize) -> (GlyphSet, Vec<PageId>) {
    let charset = CharacterSetId::new(ids);
    let mut set = GlyphSet::new(ids, "Terminal", "", size, charset);
    let mut page_ids = Vec::new();
    for i in 0..page_count {
        let page = GlyphPage::new(ids, &format!("page {i}"), "");
        page_ids.push(page.id);
        set.pages.push(page);
    }
    (set, page_ids)
}

fn draw(set: &mut GlyphSet, page: usize, code: u32, on: &[(u16, u16)]) {
    let size = set.glyph_size;
    let mut bitmap = Bitmap::new_blank(size);
    for &(x, y) in on {
        bitmap.set(x, y, true).unwrap();
    }
    set.pages[page].glyphs.push(Glyph { code, bitmap });
}

fn row_byte(bitmap: &Bitmap, y: u16) -> u8 {
    let mut b = 0u8;
    for x in 0..bitmap.width() {
        if bitmap.get(x, y).unwrap() {
            b |= 1 << (bitmap.width() - 1 - x);
        }
    }
    b
}

#[test]
fn row_scan_emits_glyph_row_bytes_msb_first() {
    let mut ids = SequentialIdGen::new();
    let (mut set, pages) = glyph_set(&mut ids, GlyphSize::new(8, 8), 1);
    draw(&mut set, 0, 0, &[(0, 0), (7, 0), (3, 2)]);
    let config = row_scan_config(&mut ids, "rom", &set, pages, 1);

    let summary = validate_export(&set, &config, &Limits::default()).unwrap();
    assert_eq!(summary.output_bytes, 16);
    let image = generate_image(&set, &config, &Limits::default()).unwrap();
    let bytes = encode_raw_binary(&image, summary.data_bits);
    assert_eq!(bytes.len(), 16);

    assert_eq!(bytes[0], 0b1000_0001);
    let glyph = &set.pages[0].glyph_by_code(0).unwrap().bitmap;
    for y in 0..8u16 {
        assert_eq!(bytes[y as usize], row_byte(glyph, y), "row {y}");
    }
    for byte in &bytes[8..16] {
        assert_eq!(*byte, 0, "code 1 is undrawn → blank");
    }
}

#[test]
fn evaluate_selects_the_addressed_code_and_page() {
    let mut ids = SequentialIdGen::new();
    let (mut set, pages) = glyph_set(&mut ids, GlyphSize::new(8, 8), 2);
    draw(&mut set, 1, 3, &[(0, 0)]);
    let config = row_scan_config(&mut ids, "rom", &set, pages, 2);
    let image = generate_image(&set, &config, &Limits::default()).unwrap();

    let address = (3 << 3) | (1 << 5);
    assert_eq!(image[address], 0x80, "only (0,0) of page1/code3 is on");
    assert_eq!(image.iter().filter(|&&w| w != 0).count(), 1, "exactly one nonzero word");
}

#[test]
fn validate_reports_the_at28c64_style_shape() {
    let mut ids = SequentialIdGen::new();
    let (set, pages) = glyph_set(&mut ids, GlyphSize::new(8, 16), 4);
    let config = row_scan_config(&mut ids, "AT28C64 Text ROM", &set, pages, 7);
    let summary = validate_export(&set, &config, &Limits::default()).unwrap();
    assert_eq!(summary.scan, ScanDirection::Row);
    assert_eq!(summary.data_bits, 8);
    assert_eq!(summary.code_bits, 7);
    assert_eq!(summary.codes, 128);
    assert_eq!(summary.pages, 4);
    assert_eq!(summary.output_bytes, 8192);
    let text = summary.describe();
    assert!(text.contains("8 ROM data bits"), "{text}");
    assert!(text.contains("128 codes (7 code bits)"), "{text}");
    assert!(text.contains("8192 output bytes"), "{text}");
}

#[test]
fn validate_rejects_a_data_width_mismatch() {
    let mut ids = SequentialIdGen::new();
    let (set, pages) = glyph_set(&mut ids, GlyphSize::new(16, 16), 1);
    let mut config = row_scan_config(&mut ids, "rom", &set, pages, 4);
    config.data_map.output_bits.pop();
    let err = validate_export(&set, &config, &Limits::default()).unwrap_err();
    assert!(matches!(err, ExportError::DataWidthMismatch { data_bits: 15, extent: 16, .. }), "{err:?}");
}

#[test]
fn validate_rejects_a_constant_address_line() {
    let mut ids = SequentialIdGen::new();
    let (set, pages) = glyph_set(&mut ids, GlyphSize::new(8, 8), 1);
    let mut config = row_scan_config(&mut ids, "rom", &set, pages, 3);
    config.address_map.address_bits.push(AddressBitSource::Constant(true));
    let err = validate_export(&set, &config, &Limits::default()).unwrap_err();
    assert!(matches!(err, ExportError::NotStrictOneToOne { .. }), "{err:?}");
}

#[test]
fn validate_rejects_an_unaddressable_code() {
    let mut ids = SequentialIdGen::new();
    let (mut set, pages) = glyph_set(&mut ids, GlyphSize::new(8, 8), 1);
    draw(&mut set, 0, 5, &[(0, 0)]);
    let config = row_scan_config(&mut ids, "rom", &set, pages, 1);
    let err = validate_export(&set, &config, &Limits::default()).unwrap_err();
    assert!(matches!(err, ExportError::CodeNotAddressable { code: 5, code_bits: 1, .. }), "{err:?}");
}

#[test]
fn encode_raw_binary_packs_little_endian_words() {
    assert_eq!(encode_raw_binary(&[0x00, 0xA5, 0xFF], 8), vec![0x00, 0xA5, 0xFF]);
    assert_eq!(encode_raw_binary(&[0x123, 0x0FF], 12), vec![0x23, 0x01, 0xFF, 0x00]);
}

#[test]
fn column_scan_emits_glyph_column_bytes_on_a_non_square_glyph() {
    let mut ids = SequentialIdGen::new();
    let (mut set, pages) = glyph_set(&mut ids, GlyphSize::new(8, 16), 1);
    draw(&mut set, 0, 0, &[(0, 0), (0, 15)]);
    let config = column_scan_config(&mut ids, "col", &set, pages, 1);

    let summary = validate_export(&set, &config, &Limits::default()).unwrap();
    assert_eq!(summary.scan, ScanDirection::Column);
    assert_eq!(summary.data_bits, 16);
    assert_eq!(summary.output_bytes, 32);

    let image = generate_image(&set, &config, &Limits::default()).unwrap();
    assert_eq!(image[0], 0x8001);
    assert_eq!(image.iter().filter(|&&w| w != 0).count(), 1);
}

#[test]
fn validate_rejects_an_over_wide_address_without_panicking() {
    let mut ids = SequentialIdGen::new();
    let (set, pages) = glyph_set(&mut ids, GlyphSize::new(8, 8), 1);
    let mut config = row_scan_config(&mut ids, "rom", &set, pages, 1);
    config.address_map.address_bits = (0..64).map(AddressBitSource::CodeBit).collect();
    let err = validate_export(&set, &config, &Limits::default()).unwrap_err();
    assert!(matches!(err, ExportError::AddressTooWide { .. }), "{err:?}");
    let err = generate_image(&set, &config, &Limits::default()).unwrap_err();
    assert!(matches!(err, ExportError::AddressTooWide { address_bits: 64, max: 24, .. }), "{err:?}");
}

#[test]
fn evaluate_honors_inversion_and_coordinate_offsets() {
    let mut ids = SequentialIdGen::new();
    let (mut set, pages) = glyph_set(&mut ids, GlyphSize::new(4, 4), 1);
    draw(&mut set, 0, 0, &[(1, 0)]);
    let page_id = pages[0];

    let config = ExportConfig {
        id: ExportConfigId::new(&mut ids),
        name: "hand".into(),
        description: String::new(),
        source: ExportSourceSpec { glyph_set_id: set.id, pages: vec![page_id] },
        address_map: AddressMap {
            id: ExportComponentId::new(&mut ids),
            name: "a".into(),
            address_bits: vec![
                AddressBitSource::PixelXBit(0),
                AddressBitSource::Inverted(Box::new(AddressBitSource::CodeBit(0))),
            ],
        },
        data_map: DataMap {
            id: ExportComponentId::new(&mut ids),
            name: "d".into(),
            output_bits: vec![
                OutputBitSource::Pixel { x: CoordinateExpr::AddressedXPlus(1), y: CoordinateExpr::Constant(0) },
                OutputBitSource::Inverted(Box::new(OutputBitSource::Pixel {
                    x: CoordinateExpr::AddressedXPlus(1),
                    y: CoordinateExpr::Constant(0),
                })),
            ],
        },
        output_format: OutputFormatConfig::RawBinary,
        output_address_bits: None,
        fill_byte: 0xFF,
    };

    assert_eq!(evaluate_output_word(&set, &config, 0), 0b10);
    assert_eq!(evaluate_output_word(&set, &config, 0b10), 0b01);
}

#[test]
fn bits_for_counts_the_address_bits() {
    assert_eq!(bits_for(1), 0);
    assert_eq!(bits_for(2), 1);
    assert_eq!(bits_for(4), 2);
    assert_eq!(bits_for(8), 3);
    assert_eq!(bits_for(16), 4);
    assert_eq!(bits_for(128), 7);
    assert_eq!(bits_for(129), 8);
}

#[test]
fn bits_for_zero_and_the_largest_count() {
    assert_eq!(bits_for(0), 0);
    assert_eq!(bits_for(u32::MAX), 32);
}

#[test]
fn unsupported_output_format_is_rejected() {
    let mut ids = SequentialIdGen::new();
    let (set, pages) = glyph_set(&mut ids, GlyphSize::new(8, 8), 1);
    let mut config = row_scan_config(&mut ids, "rom", &set, pages, 1);
    config.output_format = OutputFormatConfig::Unsupported { name: "intel-hex".into() };
    let err = validate_export(&set, &config, &Limits::default()).unwrap_err();
    assert_eq!(
        err,
        ExportError::UnsupportedOutputFormat { config: "rom".into(), name: "intel-hex".into() }
    );
}

#[test]
fn a_config_without_pages_is_not_one_to_one() {
    let mut ids = SequentialIdGen::new();
    let (set, _pages) = glyph_set(&mut ids, GlyphSize::new(8, 8), 1);
    let config = row_scan_config(&mut ids, "rom", &set, Vec::new(), 1);
    let err = validate_export(&set, &config, &Limits::default()).unwrap_err();
    assert!(
        matches!(err, ExportError::NotStrictOneToOne { reason: OneToOneViolation::NoSourcePages, .. }),
        "{err:?}"
    );
}

#[test]
fn an_image_past_the_word_limit_is_refused() {
    let mut ids = SequentialIdGen::new();
    let (set, pages) = glyph_set(&mut ids, GlyphSize::new(8, 8), 1);
    let config = row_scan_config(&mut ids, "rom", &set, pages, 7);
    let limits = Limits { max_output_image_pixels: 100, ..Limits::default() };
    let err = generate_image(&set, &config, &limits).unwrap_err();
    assert_eq!(err, ExportError::ImageTooLarge { config: "rom".into(), words: 1024, max: 100 });
}

#[test]
fn the_row_scan_preset_validates_for_every_page_count() {
    for page_count in 1..=5 {
        let mut ids = SequentialIdGen::new();
        let (set, pages) = glyph_set(&mut ids, GlyphSize::new(5, 7), page_count);
        let config = row_scan_config(&mut ids, "rom", &set, pages, 3);
        let summary = validate_export(&set, &config, &Limits::default()).unwrap();
        assert_eq!(summary.pages, page_count);
        assert_eq!(summary.data_bits, 5);
    }
}

#[test]
fn export_errors_explain_themselves() {
    let missing = ExportError::NotStrictOneToOne {
        config: "ROM".to_string(),
        reason: OneToOneViolation::SourceGlyphSetMissing,
    };
    assert_eq!(missing.message(), "export config \"ROM\" is not strict 1:1: source glyph set is missing");
    let width = ExportError::DataWidthMismatch {
        config: "ROM".to_string(),
        data_bits: 7,
        extent: 8,
        axis: "wide",
        scan: "row",
    };
    assert_eq!(
        width.message(),
        "export config \"ROM\": 7 ROM data bits but the glyph is 8 pixels wide \u{2014} a strict 1:1 row-scan needs one data bit per wide"
    );
    let code = ExportError::CodeNotAddressable { config: "A \"b\"".to_string(), code: 0x41, code_bits: 6, max: 0x3f };
    assert_eq!(
        code.message(),
        "export config \"A \\\"b\\\"\": code 0x0041 is not addressable with 6 code bits (max 0x003f)"
    );
    let wide = ExportError::AddressTooWide { config: "R".to_string(), address_bits: 30, max: 24 };
    assert_eq!(wide.message(), "export config \"R\": address is 30 bits, over the limit of 24");
    let big = ExportError::ImageTooLarge { config: "R".to_string(), words: 1 << 27, max: 1 << 26 };
    assert_eq!(big.message(), "export config \"R\": image is 134217728 words, over the limit of 67108864");
    let format = ExportError::UnsupportedOutputFormat { config: "R".to_string(), name: "intel-hex".to_string() };
    assert_eq!(
        format.message(),
        "export config \"R\": output format \"intel-hex\" is not supported yet (v1 is raw binary)"
    );
}

#[test]
fn violations_explain_the_offending_bits() {
    let case = |reason: OneToOneViolation| ExportError::NotStrictOneToOne { config: "X".to_string(), reason }.message();
    assert_eq!(
        case(OneToOneViolation::NonContiguousBits { dimension: "code", found: vec![0, 2, 2] }),
        "export config \"X\" is not strict 1:1: the code address bits must be a contiguous 0..N with no gap or duplicate; found [0, 2, 2]"
    );
    assert_eq!(
        case(OneToOneViolation::NonContiguousBits { dimension: "page", found: vec![1] }),
        "export config \"X\" is not strict 1:1: the page address bits must be a contiguous 0..N with no gap or duplicate; found [1]"
    );
    assert_eq!(
        case(OneToOneViolation::TooFewPageBits { page_bits: 1, pages: 3 }),
        "export config \"X\" is not strict 1:1: page has 1 address bits (2 values) but 3 pages are selected"
    );
    assert_eq!(
        case(OneToOneViolation::TooFewPixelBits { dimension: "pixel_y", pixel_bits: 2, extent: 8 }),
        "export config \"X\" is not strict 1:1: pixel_y has 2 address bits (4 values) but the glyph is 8 pixel_y"
    );
    assert_eq!(
        case(OneToOneViolation::ConstantOrInvertedAddressLine { line: 3 }),
        "export config \"X\" is not strict 1:1: address line A3 is a constant/inverted line; a strict 1:1 map needs every line to be a plain code/page/pixel bit"
    );
    assert_eq!(
        case(OneToOneViolation::DataBitOutOfRangeOrDuplicate { bit: 5, extent: 8 }),
        "export config \"X\" is not strict 1:1: data bit D5 maps to an out-of-range or duplicated pixel; the data bits must be a permutation of 0..8"
    );
    assert_eq!(
        case(OneToOneViolation::DataBitNotPixel { bit: 0 }),
        "export config \"X\" is not strict 1:1: data bit D0 is not a plain glyph pixel at the addressed line; a strict 1:1 map emits one glyph pixel per data bit"
    );
    assert_eq!(case(OneToOneViolation::NoSourcePages), "export config \"X\" is not strict 1:1: no source pages selected");
}

#[test]
fn a_violation_states_its_reason_alone() {
    assert_eq!(OneToOneViolation::NoSourcePages.message(), "no source pages selected");
    assert_eq!(
        OneToOneViolation::TooFewPageBits { page_bits: 0, pages: 2 }.message(),
        "page has 0 address bits (1 values) but 2 pages are selected"
    );
}

#[test]
fn address_lines_past_bit_63_read_low() {
    let mut ids = SequentialIdGen::new();
    let (mut set, pages) = glyph_set(&mut ids, GlyphSize::new(4, 4), 1);
    draw(&mut set, 0, 1, &[(1, 0)]);
    let mut address_bits = vec![AddressBitSource::PixelXBit(0)];
    for _ in 1..64 {
        address_bits.push(AddressBitSource::Constant(false));
    }
    address_bits.push(AddressBitSource::Inverted(Box::new(AddressBitSource::CodeBit(0))));
    address_bits.push(AddressBitSource::CodeBit(1));
    assert_eq!(address_bits.len(), 66);
    let config = ExportConfig {
        id: ExportConfigId::new(&mut ids),
        name: "wide".into(),
        description: String::new(),
        source: ExportSourceSpec { glyph_set_id: set.id, pages },
        address_map: AddressMap { id: ExportComponentId::new(&mut ids), name: "a".into(), address_bits },
        data_map: DataMap {
            id: ExportComponentId::new(&mut ids),
            name: "d".into(),
            output_bits: vec![OutputBitSource::Pixel { x: CoordinateExpr::AddressedX, y: CoordinateExpr::Constant(0) }],
        },
        output_format: OutputFormatConfig::RawBinary,
        output_address_bits: None,
        fill_byte: 0xFF,
    };
    assert_eq!(evaluate_output_word(&set, &config, 1), 1);
    assert_eq!(evaluate_output_word(&set, &config, u64::MAX), 1);
    assert_eq!(evaluate_output_word(&set, &config, 0), 0);
}

#[test]
fn row_scan_word_at_row_and_code_holds_that_row() {
    let mut ids = SequentialIdGen::new();
    let (mut set, pages) = glyph_set(&mut ids, GlyphSize::new(5, 3), 1);
    draw(&mut set, 0, 0x41, &[(0, 0), (4, 0), (2, 1), (1, 2), (3, 2)]);
    let config = row_scan_config(&mut ids, "rom", &set, pages, 7);
    let yb = bits_for(3);
    assert_eq!(yb, 2);
    for y in 0..3u64 {
        let word = evaluate_output_word(&set, &config, y | (0x41u64 << yb));
        for x in 0..5u16 {
            let bitmap = &set.pages[0].glyphs[0].bitmap;
            let expected = bitmap.get(x, y as u16).unwrap();
            assert_eq!((word >> (4 - x)) & 1 == 1, expected, "row {y} column {x}");
        }
    }
    assert_eq!(evaluate_output_word(&set, &config, 0 | (0x41u64 << yb)), 0b10001);
    assert_eq!(evaluate_output_word(&set, &config, 1 | (0x42u64 << yb)), 0);
}
