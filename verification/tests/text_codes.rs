use fontspace::{
    format_code, format_rows, parse_code, parse_code_token, parse_glyph_selector, parse_layout, parse_overflow,
    parse_page_selector, parse_pixel, parse_rows, resolve_glyph_set, Bitmap, CharacterSet, FontSpace, GlyphSelector,
    GlyphSet, GlyphSize, OverflowPolicy, PageSelector, ParseError, ParsedPixel, RenderLayout, RowError,
    SequentialIdGen,
};

#[test]
fn format_code_is_lowercase_min_two_digits() {
    assert_eq!(format_code(0x41), "0x41");
    assert_eq!(format_code(0x00), "0x00");
    assert_eq!(format_code(0x7f), "0x7f");
    assert_eq!(format_code(0xE000), "0xe000");
}

#[test]
fn parse_code_accepts_hex_and_decimal() {
    assert_eq!(parse_code("0x41"), Some(0x41));
    assert_eq!(parse_code("0X41"), Some(0x41));
    assert_eq!(parse_code("65"), Some(65));
    assert_eq!(parse_code("  0x7f  "), Some(0x7f));
    assert_eq!(parse_code("0xe000"), Some(0xE000));
    assert_eq!(parse_code(""), None);
    assert_eq!(parse_code("0xZZ"), None);
    assert_eq!(parse_code("nope"), None);
}

#[test]
fn code_round_trips_through_canonical_form() {
    for code in [0u32, 0x20, 0x41, 0x7f, 0xE000, 0x10_FFFF] {
        assert_eq!(parse_code(&format_code(code)), Some(code));
    }
}

#[test]
fn rows_round_trip() {
    let size = GlyphSize::new(5, 3);
    let rows = vec!["#....".to_string(), ".#...".to_string(), "....#".to_string()];
    let bitmap = parse_rows(&rows, size).unwrap();
    assert!(bitmap.get(0, 0).unwrap());
    assert!(bitmap.get(1, 1).unwrap());
    assert!(bitmap.get(4, 2).unwrap());
    assert_eq!(bitmap.count_on(), 3);
    assert_eq!(format_rows(&bitmap), rows);
}

#[test]
fn parse_rows_rejects_wrong_row_count() {
    let size = GlyphSize::new(2, 2);
    let err = parse_rows(&["##".to_string()], size).unwrap_err();
    assert_eq!(err, RowError::RowCount { expected: 2, found: 1 });
}

#[test]
fn parse_rows_rejects_wrong_width_by_scalar_count() {
    let size = GlyphSize::new(3, 1);
    let err = parse_rows(&["##".to_string()], size).unwrap_err();
    assert_eq!(err, RowError::RowWidth { row: 0, expected: 3, found: 2 });
}

#[test]
fn parse_rows_rejects_non_canonical_chars() {
    let size = GlyphSize::new(3, 1);
    let err = parse_rows(&[".x.".to_string()], size).unwrap_err();
    assert_eq!(err, RowError::InvalidChar { row: 0, column: 1, ch: 'x' });
}

#[test]
fn parse_rows_counts_width_in_scalars_not_bytes() {
    let size = GlyphSize::new(2, 1);
    let err = parse_rows(&["é#".to_string()], size).unwrap_err();
    assert_eq!(err, RowError::InvalidChar { row: 0, column: 0, ch: 'é' });
}

#[test]
fn parse_code_rejects_values_past_u32() {
    assert_eq!(parse_code("4294967295"), Some(u32::MAX));
    assert_eq!(parse_code("4294967296"), None);
    assert_eq!(parse_code("0x100000000"), None);
    assert_eq!(parse_code("0x"), None);
}

#[test]
fn blank_rows_format_as_dots() {
    let b = Bitmap::new_blank(GlyphSize::new(3, 2));
    assert_eq!(format_rows(&b), vec!["...".to_string(), "...".to_string()]);
}

#[test]
fn code_tokens() {
    assert_eq!(parse_code_token("A").unwrap(), 0x41);
    assert_eq!(parse_code_token("0x41").unwrap(), 0x41);
    assert_eq!(parse_code_token("65").unwrap(), 65);
    assert_eq!(parse_code_token("5").unwrap(), 5);
    assert_eq!(parse_code_token("0x7e").unwrap(), 0x7e);
    assert!(parse_code_token("").is_err());
    assert!(parse_code_token("0xZZ").is_err());
}

#[test]
fn code_token_error_carries_the_token() {
    assert_eq!(parse_code_token(" 0xZZ "), Err(ParseError::Code("0xZZ".to_string())));
}

#[test]
fn overflow_policies_parse_case_insensitively() {
    assert_eq!(parse_overflow("discard").unwrap(), OverflowPolicy::Discard);
    assert_eq!(parse_overflow("WRAP").unwrap(), OverflowPolicy::Wrap);
    assert_eq!(parse_overflow("nope"), Err(ParseError::Overflow("nope".to_string())));
}

#[test]
fn pixels() {
    assert_eq!(parse_pixel("3,2,1").unwrap(), ParsedPixel { x: 3, y: 2, value: true });
    assert_eq!(parse_pixel("0,0,off").unwrap(), ParsedPixel { x: 0, y: 0, value: false });
    assert!(parse_pixel("3,2").is_err());
    assert!(parse_pixel("3,2,maybe").is_err());
    assert!(parse_pixel("3,2,1,4").is_err());
}

#[test]
fn glyph_sets_resolve_by_unique_name() {
    let mut ids = SequentialIdGen::new();
    let cs = CharacterSet::new(&mut ids, "cs", "");
    let a = GlyphSet::new(&mut ids, "Regular", "", GlyphSize::new(8, 8), cs.id);
    let b = GlyphSet::new(&mut ids, "Bold", "", GlyphSize::new(8, 8), cs.id);
    let c = GlyphSet::new(&mut ids, "Bold", "", GlyphSize::new(8, 8), cs.id);
    let a_id = a.id;
    let mut doc = FontSpace::new(&mut ids, "doc", "");
    doc.character_sets.push(cs);
    doc.glyph_sets.push(a);
    doc.glyph_sets.push(b);
    doc.glyph_sets.push(c);
    assert_eq!(resolve_glyph_set(&doc, "Regular"), Ok(a_id));
    assert_eq!(
        resolve_glyph_set(&doc, "Bold"),
        Err(ParseError::AmbiguousGlyphSet { name: "Bold".to_string(), count: 2 })
    );
    assert_eq!(resolve_glyph_set(&doc, "Italic"), Err(ParseError::GlyphSetNotFound("Italic".to_string())));
}

#[test]
fn glyph_selectors() {
    assert_eq!(parse_glyph_selector("all").unwrap(), GlyphSelector::All);
    assert_eq!(parse_glyph_selector("A").unwrap(), GlyphSelector::Code(0x41));
    assert_eq!(
        parse_glyph_selector("A-Z").unwrap(),
        GlyphSelector::CodeRangeInclusive { start: 0x41, end: 0x5A }
    );
    assert_eq!(
        parse_glyph_selector("0x20-0x7E").unwrap(),
        GlyphSelector::CodeRangeInclusive { start: 0x20, end: 0x7E }
    );
    assert_eq!(parse_glyph_selector("A,B,0x43").unwrap(), GlyphSelector::Codes(vec![0x41, 0x42, 0x43]));
}

#[test]
fn page_selectors() {
    assert_eq!(parse_page_selector("all"), PageSelector::All);
    assert_eq!(parse_page_selector("Regular"), PageSelector::Name("Regular".into()));
    assert_eq!(
        parse_page_selector("Regular,Bold"),
        PageSelector::Names(vec!["Regular".into(), "Bold".into()])
    );
}

#[test]
fn overflow_and_layout() {
    assert_eq!(parse_overflow("discard").unwrap(), OverflowPolicy::Discard);
    assert_eq!(parse_overflow("WRAP").unwrap(), OverflowPolicy::Wrap);
    assert!(parse_overflow("nope").is_err());
    assert_eq!(parse_layout("glyphs-horizontal").unwrap(), RenderLayout::GlyphsHorizontal);
    assert_eq!(parse_layout("grid:4").unwrap(), RenderLayout::Grid { columns: 4 });
    assert!(parse_layout("grid:x").is_err());
    assert!(parse_layout("bogus").is_err());
}

#[test]
fn glyph_selector_errors_name_the_first_bad_token() {
    assert_eq!(parse_glyph_selector(" ALL ").unwrap(), GlyphSelector::All);
    assert_eq!(parse_glyph_selector("A, zz ,?x").unwrap_err(), ParseError::Code("zz".into()));
    assert_eq!(parse_glyph_selector("A,,B").unwrap_err(), ParseError::Code("".into()));
    assert_eq!(parse_glyph_selector("-5").unwrap_err(), ParseError::Code("".into()));
    assert_eq!(parse_glyph_selector("A-0xZZ").unwrap_err(), ParseError::Code("0xZZ".into()));
    // Split at the first dash: "1-2-3" has the end "2-3", which is no code.
    assert_eq!(parse_glyph_selector("1-2-3").unwrap_err(), ParseError::Code("2-3".into()));
    assert_eq!(parse_glyph_selector(" 65 ").unwrap(), GlyphSelector::Code(65));
    assert_eq!(parse_glyph_selector("5,").unwrap_err(), ParseError::Code("".into()));
}

#[test]
fn page_selectors_trim_each_name() {
    assert_eq!(parse_page_selector(" All "), PageSelector::All);
    assert_eq!(
        parse_page_selector(" Regular , Bold Italic "),
        PageSelector::Names(vec!["Regular".into(), "Bold Italic".into()])
    );
    assert_eq!(parse_page_selector("a,,b"), PageSelector::Names(vec!["a".into(), "".into(), "b".into()]));
    assert_eq!(parse_page_selector(""), PageSelector::Name("".into()));
}

#[test]
fn layouts_ignore_case_and_report_the_lowered_value() {
    assert_eq!(parse_layout(" Pages-Vertical ").unwrap(), RenderLayout::PagesVertical);
    assert_eq!(parse_layout("pages-horizontal").unwrap(), RenderLayout::PagesHorizontal);
    assert_eq!(parse_layout("GLYPHS-VERTICAL").unwrap(), RenderLayout::GlyphsVertical);
    assert_eq!(parse_layout("GRID:+12").unwrap(), RenderLayout::Grid { columns: 12 });
    assert_eq!(parse_layout(" Grid:X ").unwrap_err(), ParseError::Layout("grid:x".into()));
    assert_eq!(parse_layout("grid:").unwrap_err(), ParseError::Layout("grid:".into()));
    assert_eq!(parse_layout("Bogus").unwrap_err(), ParseError::Layout("bogus".into()));
}
