use fontspace::{
    flip_edits, line_cells, region_extract, rotate_cw, rotate_edits, stamp_edits, Bitmap, FlipDir, GlyphSize,
    Marquee, PixelEdit, PixelRect, Stroke,
};

fn bitmap_with(size: u16, on: &[(u16, u16)]) -> Bitmap {
    let mut b = Bitmap::new_blank(GlyphSize::new(size, size));
    for &(x, y) in on {
        b.set(x, y, true).unwrap();
    }
    b
}

fn apply(bitmap: &Bitmap, edits: &[PixelEdit]) -> Bitmap {
    let mut out = bitmap.clone();
    for e in edits {
        out.set(e.x, e.y, e.value).unwrap();
    }
    out
}

#[test]
fn from_corners_normalizes_either_drag_order() {
    let a = PixelRect::from_corners((5, 6), (2, 1));
    let b = PixelRect::from_corners((2, 1), (5, 6));
    assert_eq!(a, b);
    assert_eq!((a.x0, a.y0, a.x1, a.y1), (2, 1, 5, 6));
    assert_eq!((a.width(), a.height()), (4, 6));
}

#[test]
fn flip_left_right_mirrors_within_the_rect_only() {
    let src = bitmap_with(4, &[(0, 0), (0, 3), (3, 1)]);
    let rect = PixelRect::from_corners((0, 0), (1, 3));
    let out = apply(&src, &flip_edits(&src, rect, FlipDir::LeftRight));
    assert!(out.get(1, 0).unwrap());
    assert!(out.get(1, 3).unwrap());
    assert!(!out.get(0, 0).unwrap());
    assert!(out.get(3, 1).unwrap());
    assert_eq!(out.count_on(), 3);
}

#[test]
fn flip_top_bottom_mirrors_rows() {
    let src = bitmap_with(4, &[(2, 0)]);
    let rect = PixelRect::from_corners((0, 0), (3, 3));
    let out = apply(&src, &flip_edits(&src, rect, FlipDir::TopBottom));
    assert!(out.get(2, 3).unwrap());
    assert!(!out.get(2, 0).unwrap());
    assert_eq!(out.count_on(), 1);
}

#[test]
fn flipping_twice_is_the_identity() {
    let src = bitmap_with(6, &[(1, 2), (4, 5), (0, 0)]);
    let rect = PixelRect::from_corners((0, 0), (5, 5));
    let once = apply(&src, &flip_edits(&src, rect, FlipDir::LeftRight));
    let twice = apply(&once, &flip_edits(&once, rect, FlipDir::LeftRight));
    assert_eq!(twice, src);
}

#[test]
fn region_extract_copies_the_subrect_to_local_coords() {
    let src = bitmap_with(4, &[(1, 2), (2, 1), (3, 3)]);
    let patch = region_extract(&src, PixelRect::from_corners((1, 1), (2, 2)));
    assert_eq!(patch.size(), GlyphSize::new(2, 2));
    assert!(patch.get(0, 1).unwrap());
    assert!(patch.get(1, 0).unwrap());
    assert_eq!(patch.count_on(), 2);
}

#[test]
fn region_extract_reads_off_past_the_glyph_edge() {
    let src = bitmap_with(4, &[(3, 3)]);
    let patch = region_extract(&src, PixelRect::from_corners((3, 3), (5, 4)));
    assert_eq!(patch.size(), GlyphSize::new(3, 2));
    assert!(patch.get(0, 0).unwrap());
    assert_eq!(patch.count_on(), 1);
}

#[test]
fn stamp_edits_replaces_the_destination() {
    let mut patch = Bitmap::new_blank(GlyphSize::new(2, 2));
    patch.set(0, 0, true).unwrap();
    let base = bitmap_with(8, &[(2, 2), (3, 3)]);
    let out = apply(&base, &stamp_edits(&patch, (2, 2), GlyphSize::new(8, 8)));
    assert!(out.get(2, 2).unwrap());
    assert!(!out.get(3, 3).unwrap());
    assert_eq!(out.count_on(), 1);
}

#[test]
fn rotate_cw_turns_a_quarter_clockwise_and_swaps_dims() {
    let mut patch = Bitmap::new_blank(GlyphSize::new(2, 3));
    patch.set(0, 0, true).unwrap();
    let r = rotate_cw(&patch);
    assert_eq!(r.size(), GlyphSize::new(3, 2));
    assert!(r.get(2, 0).unwrap());
    assert_eq!(r.count_on(), 1);
}

#[test]
fn rotate_cw_four_times_is_the_identity() {
    let src = bitmap_with(4, &[(0, 1), (2, 3), (1, 0)]);
    let r = rotate_cw(&rotate_cw(&rotate_cw(&rotate_cw(&src))));
    assert_eq!(r, src);
}

#[test]
fn rotate_edits_rotates_a_square_region_in_place() {
    let src = bitmap_with(8, &[(0, 0), (1, 0)]);
    let rect = PixelRect::from_corners((0, 0), (1, 1));
    let out = apply(&src, &rotate_edits(&src, rect, GlyphSize::new(8, 8)));
    assert!(out.get(1, 0).unwrap());
    assert!(out.get(1, 1).unwrap());
    assert!(!out.get(0, 0).unwrap());
    assert_eq!(out.count_on(), 2);
}

#[test]
fn stamp_edits_clips_at_the_glyph_edge() {
    let mut patch = Bitmap::new_blank(GlyphSize::new(3, 3));
    for i in 0..3 {
        patch.set(i, i, true).unwrap();
    }
    let out = apply(&Bitmap::new_blank(GlyphSize::new(4, 4)), &stamp_edits(&patch, (2, 2), GlyphSize::new(4, 4)));
    assert!(out.get(2, 2).unwrap());
    assert!(out.get(3, 3).unwrap());
    assert_eq!(out.count_on(), 2);
}

#[test]
fn stamp_edits_outside_the_glyph_are_empty() {
    let patch = bitmap_with(2, &[(0, 0)]);
    assert!(stamp_edits(&patch, (8, 0), GlyphSize::new(8, 8)).is_empty());
}

#[test]
fn line_cells_single_point() {
    assert_eq!(line_cells((3, 4), (3, 4)), vec![(3, 4)]);
}

#[test]
fn line_cells_horizontal_and_vertical() {
    assert_eq!(line_cells((0, 0), (3, 0)), vec![(0, 0), (1, 0), (2, 0), (3, 0)]);
    assert_eq!(line_cells((2, 5), (2, 2)), vec![(2, 5), (2, 4), (2, 3), (2, 2)]);
}

#[test]
fn line_cells_diagonal_leaves_no_gap() {
    assert_eq!(line_cells((0, 0), (3, 3)), vec![(0, 0), (1, 1), (2, 2), (3, 3)]);
}

#[test]
fn line_cells_shallow_slope_steps_one_cell_at_a_time() {
    let cells = line_cells((0, 0), (5, 2));
    assert_eq!(cells.first(), Some(&(0, 0)));
    assert_eq!(cells.last(), Some(&(5, 2)));
    assert_eq!(cells.len(), 6);
    for pair in cells.windows(2) {
        let (a, b) = (pair[0], pair[1]);
        assert!((a.0 as i32 - b.0 as i32).abs() <= 1 && (a.1 as i32 - b.1 as i32).abs() <= 1);
    }
}

#[test]
fn line_cells_spans_the_whole_coordinate_range() {
    let cells = line_cells((u16::MAX, 0), (u16::MAX - 2, 0));
    assert_eq!(cells, vec![(u16::MAX, 0), (u16::MAX - 1, 0), (u16::MAX - 2, 0)]);
}

#[test]
fn stroke_interpolates_between_samples() {
    let mut stroke = Stroke::begin(true);
    stroke.extend_to((0, 0));
    stroke.extend_to((4, 0));
    assert_eq!(stroke.cells(), &[(0, 0), (1, 0), (2, 0), (3, 0), (4, 0)]);
}

#[test]
fn stroke_visits_each_cell_once() {
    let mut stroke = Stroke::begin(true);
    stroke.extend_to((0, 0));
    stroke.extend_to((2, 0));
    stroke.extend_to((0, 0));
    assert_eq!(stroke.cells(), &[(0, 0), (1, 0), (2, 0)]);
}

#[test]
fn stroke_edits_carry_the_fixed_paint_value() {
    let mut stroke = Stroke::begin(false);
    stroke.extend_to((1, 1));
    stroke.extend_to((2, 1));
    let edits = stroke.edits();
    assert_eq!(edits.len(), 2);
    assert!(edits.iter().all(|e| !e.value));
    assert_eq!((edits[0].x, edits[0].y), (1, 1));
}

#[test]
fn a_new_stroke_is_empty() {
    let mut stroke = Stroke::begin(true);
    assert!(stroke.is_empty());
    assert!(stroke.edits().is_empty());
    stroke.extend_to((7, 7));
    assert!(!stroke.is_empty());
    assert_eq!(stroke.edits(), vec![PixelEdit { x: 7, y: 7, value: true }]);
}

#[test]
fn a_quarter_turn_keeps_the_lit_pixels() {
    let mut patch = Bitmap::new_blank(GlyphSize::new(5, 3));
    for (x, y) in [(0, 0), (4, 2), (2, 1), (3, 0)] {
        patch.set(x, y, true).unwrap();
    }
    let turned = rotate_cw(&patch);
    assert_eq!(turned.size(), GlyphSize::new(3, 5));
    assert_eq!(turned.count_on(), patch.count_on());
    assert_eq!(turned.count_on(), 4);
}

#[test]
fn a_stroke_sampled_back_and_forth_visits_each_cell_once() {
    let mut s = Stroke::begin(true);
    assert!(s.is_empty());
    for c in [(0, 0), (2, 0), (0, 0), (0, 2)] {
        s.extend_to(c);
    }
    assert_eq!(s.cells(), &[(0, 0), (1, 0), (2, 0), (0, 1), (0, 2)]);
    assert!(!s.is_empty());
}

#[test]
fn marquee_drag_spans_anchor_and_cursor_until_cleared() {
    let mut m = Marquee::new();
    assert!(m.rect.is_none() && m.anchor.is_none());
    m.extend_selection((3, 3));
    assert!(m.rect.is_none());
    m.begin_selection((5, 6));
    assert_eq!(m.rect, Some(PixelRect { x0: 5, y0: 6, x1: 5, y1: 6 }));
    m.extend_selection((2, 1));
    assert_eq!(m.rect, Some(PixelRect { x0: 2, y0: 1, x1: 5, y1: 6 }));
    m.end_selection();
    assert_eq!(m.anchor, None);
    m.extend_selection((7, 7));
    assert_eq!(m.rect, Some(PixelRect { x0: 2, y0: 1, x1: 5, y1: 6 }));
    m.clear_selection();
    assert!(m.rect.is_none() && m.anchor.is_none());
}
