use std::collections::HashSet;

use fontspace::{
    to_stored, Bitmap, CharacterEntry, CharacterSet, FontSpace, Glyph, GlyphPage, GlyphSetId, GlyphSize,
    GlyphSizeError, IdGen, Limits, PageId, RandomIdGen, SequentialIdGen, CURRENT_FORMAT_VERSION,
};
use uuid::Uuid;

#[test]
fn defaults_are_well_below_u16_max() {
    let limits = Limits::default();
    assert!(limits.max_glyph_width < u16::MAX);
    assert!(limits.max_glyph_height < u16::MAX);
    assert!(limits.max_glyph_width > 0);
    assert!(limits.max_glyph_height > 0);
}

fn set_with_codes(codes: &[u32]) -> CharacterSet {
    let mut ids = SequentialIdGen::new();
    let mut cs = CharacterSet::new(&mut ids, "test", "");
    cs.entries = codes.iter().map(|&code| CharacterEntry { code, label: format!("code {code:#04x}") }).collect();
    cs
}

#[test]
fn lookup_by_code_is_independent_of_ordinal() {
    let cs = set_with_codes(&[0x20, 0x21, 0x41]);
    assert_eq!(cs.ordinal_of(0x20), Some(0));
    assert_eq!(cs.ordinal_of(0x41), Some(2));
    assert!(cs.contains_code(0x21));
    assert!(!cs.contains_code(0x00));
    assert_eq!(cs.entry(0x41).map(|e| e.code), Some(0x41));
    assert_eq!(cs.entry(0x99), None);
    assert_eq!(cs.ordinal_of(0x99), None);
}

#[test]
fn new_document_is_empty_and_current_version() {
    let mut ids = SequentialIdGen::new();
    let doc = FontSpace::new(&mut ids, "My Font", "desc");
    assert_eq!(doc.format_version, CURRENT_FORMAT_VERSION);
    assert_eq!(doc.metadata.name, "My Font");
    assert!(doc.character_sets.is_empty());
    assert!(doc.glyph_sets.is_empty());
    assert!(doc.export_configs.is_empty());
}

#[test]
fn glyph_by_code_finds_sparse_entries() {
    let mut ids = SequentialIdGen::new();
    let mut page = GlyphPage::new(&mut ids, "page", "");
    page.glyphs.push(Glyph { code: 0x41, bitmap: Bitmap::new_blank(GlyphSize::new(8, 8)) });
    assert_eq!(page.glyph_by_code(0x41).map(|g| g.code), Some(0x41));
    assert!(page.glyph_by_code(0x42).is_none());
    page.glyph_by_code_mut(0x41).unwrap().code = 0x41;
}

#[test]
fn bytes_per_row_rounds_up_for_odd_widths() {
    assert_eq!(GlyphSize::new(8, 16).bytes_per_row(), 1);
    assert_eq!(GlyphSize::new(1, 1).bytes_per_row(), 1);
    assert_eq!(GlyphSize::new(9, 1).bytes_per_row(), 2);
    assert_eq!(GlyphSize::new(16, 1).bytes_per_row(), 2);
    assert_eq!(GlyphSize::new(12, 1).bytes_per_row(), 2);
}

#[test]
fn validate_rejects_zero_dimensions() {
    let limits = Limits::default();
    assert_eq!(GlyphSize::new(0, 16).validate(&limits), Err(GlyphSizeError::ZeroWidth));
    assert_eq!(GlyphSize::new(8, 0).validate(&limits), Err(GlyphSizeError::ZeroHeight));
}

#[test]
fn validate_rejects_oversize_dimensions() {
    let limits = Limits { max_glyph_width: 16, max_glyph_height: 16, ..Limits::default() };
    assert_eq!(
        GlyphSize::new(17, 16).validate(&limits),
        Err(GlyphSizeError::WidthTooLarge { width: 17, max: 16 })
    );
    assert_eq!(
        GlyphSize::new(16, 17).validate(&limits),
        Err(GlyphSizeError::HeightTooLarge { height: 17, max: 16 })
    );
}

#[test]
fn validate_accepts_in_bounds() {
    assert_eq!(GlyphSize::new(8, 16).validate(&Limits::default()), Ok(()));
}

#[test]
fn glyph_size_error_messages_name_the_dimension_and_limit() {
    assert_eq!(GlyphSizeError::ZeroWidth.message(), "glyph width must be nonzero");
    assert_eq!(GlyphSizeError::ZeroHeight.message(), "glyph height must be nonzero");
    assert_eq!(
        GlyphSizeError::WidthTooLarge { width: 300, max: 256 }.message(),
        "glyph width 300 exceeds the maximum of 256"
    );
    assert_eq!(
        GlyphSizeError::HeightTooLarge { height: 17, max: 16 }.message(),
        "glyph height 17 exceeds the maximum of 16"
    );
}

#[test]
fn pixel_count_is_width_times_height() {
    assert_eq!(GlyphSize::new(8, 16).pixel_count(), 128);
    assert_eq!(GlyphSize::new(256, 256).pixel_count(), 65_536);
}

#[test]
fn sequential_id_gen_starts_at_one_and_increments() {
    let mut ids = SequentialIdGen::new();
    assert_eq!(ids.next_uuid(), Uuid::parse_str("00000000-0000-0000-0000-000000000001").unwrap().as_u128());
    assert_eq!(ids.next_uuid(), Uuid::parse_str("00000000-0000-0000-0000-000000000002").unwrap().as_u128());
    assert_eq!(ids.next_uuid(), Uuid::parse_str("00000000-0000-0000-0000-000000000003").unwrap().as_u128());
}

#[test]
fn sequential_id_gen_is_reproducible() {
    let mut a = SequentialIdGen::new();
    let mut b = SequentialIdGen::new();
    for _ in 0..10 {
        assert_eq!(a.next_uuid(), b.next_uuid());
    }
}

#[test]
fn typed_ids_of_same_uuid_are_equal_and_hash_together() {
    let mut ids = SequentialIdGen::new();
    let a = PageId::new(&mut ids);
    let b = PageId(a.as_uuid());
    assert_eq!(a, b);
    let mut set = HashSet::new();
    set.insert(a);
    assert!(set.contains(&b));
}

#[test]
fn distinct_typed_ids_get_distinct_uuids_from_one_gen() {
    let mut ids = SequentialIdGen::new();
    let g = GlyphSetId::new(&mut ids);
    let p = PageId::new(&mut ids);
    assert_ne!(g.as_uuid(), p.as_uuid());
}

#[test]
fn random_id_gen_yields_distinct_nonnil_uuids() {
    let mut ids = RandomIdGen;
    let a = ids.next_uuid();
    let b = ids.next_uuid();
    assert_ne!(a, b);
    assert_ne!(a, Uuid::nil().as_u128());
    assert_eq!(Uuid::from_u128(a).get_version_num(), 4);
}

#[test]
fn uuid_text_is_hyphenated_lowercase_hex() {
    let mut doc = FontSpace::new(&mut SequentialIdGen::new(), "x", "");
    doc.id = fontspace::FontSpaceId(1);
    assert_eq!(to_stored(&doc).id, "00000000-0000-0000-0000-000000000001");
    doc.id = fontspace::FontSpaceId(0xABCD_EF01_2345_6789_0123_4567_89AB_CDEF);
    assert_eq!(to_stored(&doc).id, "abcdef01-2345-6789-0123-456789abcdef");
}

#[test]
fn a_fresh_sequential_generator_numbers_the_starter_objects_in_order() {
    let mut ids = SequentialIdGen::new();
    let (doc, _) = fontspace::starter_document(&mut ids);
    assert_eq!(doc.character_sets[0].id.0, 1);
    assert_eq!(doc.glyph_sets[0].id.0, 2);
    assert_eq!(doc.glyph_sets[0].pages[0].id.0, 3);
    assert_eq!(doc.glyph_sets[0].pages[0].guides[0].id.0, 4);
    assert_eq!(doc.id.0, 5);
    let pages = vec![doc.glyph_sets[0].pages[0].id];
    let config = fontspace::row_scan_config(&mut ids, "rom", &doc.glyph_sets[0], pages, 7);
    assert_eq!((config.id.0, config.address_map.id.0, config.data_map.id.0), (6, 7, 8));
    assert_eq!(ids.next_uuid(), 9);
}

#[test]
fn a_full_bitmap_counts_its_whole_area() {
    let mut b = Bitmap::new_blank(GlyphSize::new(9, 3));
    for y in 0..3 {
        for x in 0..9 {
            b.set(x, y, true).unwrap();
        }
    }
    assert_eq!(b.count_on(), 27);
}
