use fontspace::{flipped, inverted, shifted, Bitmap, BitmapError, GlyphSize, GuideAxis, OverflowPolicy};

fn blank(w: u16, h: u16) -> Bitmap {
    Bitmap::new_blank(GlyphSize::new(w, h))
}

#[test]
fn new_blank_is_blank_with_correct_packed_length() {
    let b = blank(8, 16);
    assert_eq!(b.width(), 8);
    assert_eq!(b.height(), 16);
    assert!(b.is_blank());
    assert_eq!(b.count_on(), 0);
    assert_eq!(b.packed().len(), 16);
}

#[test]
fn odd_width_uses_ceil_bytes_per_row() {
    assert_eq!(blank(5, 3).packed().len(), 3);
    assert_eq!(blank(9, 2).packed().len(), 4);
    assert_eq!(blank(12, 1).packed().len(), 2);
}

#[test]
fn set_get_toggle_roundtrip() {
    let mut b = blank(8, 8);
    assert!(!b.get(3, 4).unwrap());
    b.set(3, 4, true).unwrap();
    assert!(b.get(3, 4).unwrap());
    assert_eq!(b.count_on(), 1);
    b.toggle(3, 4).unwrap();
    assert!(!b.get(3, 4).unwrap());
    b.toggle(3, 4).unwrap();
    assert!(b.get(3, 4).unwrap());
    b.set(3, 4, false).unwrap();
    assert!(b.is_blank());
}

#[test]
fn out_of_bounds_access_errors() {
    let mut b = blank(5, 3);
    let oob = BitmapError::OutOfBounds { x: 5, y: 0, width: 5, height: 3 };
    assert_eq!(b.get(5, 0), Err(oob));
    assert_eq!(b.set(5, 0, true), Err(oob));
    assert_eq!(b.toggle(5, 0), Err(oob));
    assert_eq!(b.get(0, 3), Err(BitmapError::OutOfBounds { x: 0, y: 3, width: 5, height: 3 }));
    assert!(b.is_blank());
}

#[test]
fn clear_turns_everything_off() {
    let mut b = blank(8, 2);
    b.set(0, 0, true).unwrap();
    b.set(7, 1, true).unwrap();
    assert!(!b.is_blank());
    b.clear();
    assert!(b.is_blank());
    assert_eq!(b.count_on(), 0);
}

#[test]
fn equality_and_clone_are_content_based() {
    let mut a = blank(8, 8);
    let mut b = blank(8, 8);
    a.set(2, 3, true).unwrap();
    b.set(2, 3, true).unwrap();
    assert_eq!(a, b);
    assert_eq!(a, a.clone());
    b.set(4, 5, true).unwrap();
    assert_ne!(a, b);
}

#[test]
fn padding_bits_stay_zero_for_odd_widths() {
    let mut b = blank(5, 1);
    b.set(4, 0, true).unwrap();
    assert_eq!(b.packed(), &[0b0000_1000]);

    for x in 0..5 {
        b.set(x, 0, true).unwrap();
    }
    assert_eq!(b.packed(), &[0b1111_1000]);
    assert_eq!(b.count_on(), 5);

    let mut c = blank(12, 1);
    for x in 0..12 {
        c.set(x, 0, true).unwrap();
    }
    assert_eq!(c.packed(), &[0b1111_1111, 0b1111_0000]);
    assert_eq!(c.count_on(), 12);
}

#[test]
fn full_odd_width_bitmap_counts_exactly() {
    for w in [1u16, 5, 7, 9, 12, 15] {
        let mut b = blank(w, 3);
        for y in 0..3 {
            for x in 0..w {
                b.set(x, y, true).unwrap();
            }
        }
        assert_eq!(b.count_on(), w as u32 * 3, "width {w}");
    }
}

#[test]
fn shifted_discard_moves_and_drops() {
    let mut b = blank(4, 1);
    b.set(0, 0, true).unwrap();
    b.set(1, 0, true).unwrap();
    let s = shifted(&b, 2, 0, OverflowPolicy::Discard);
    assert!(!s.get(0, 0).unwrap());
    assert!(!s.get(1, 0).unwrap());
    assert!(s.get(2, 0).unwrap());
    assert!(s.get(3, 0).unwrap());
    assert!(shifted(&b, 4, 0, OverflowPolicy::Discard).is_blank());
}

#[test]
fn shifted_wrap_wraps_around() {
    let mut b = blank(4, 1);
    b.set(3, 0, true).unwrap();
    let s = shifted(&b, 1, 0, OverflowPolicy::Wrap);
    assert!(s.get(0, 0).unwrap());
    assert_eq!(s.count_on(), 1);
}

#[test]
fn shifted_discard_vertical_and_diagonal() {
    let mut b = blank(3, 3);
    b.set(0, 0, true).unwrap();
    let down = shifted(&b, 0, 1, OverflowPolicy::Discard);
    assert!(down.get(0, 1).unwrap());
    assert!(!down.get(0, 0).unwrap());
    let diag = shifted(&b, 1, 1, OverflowPolicy::Discard);
    assert!(diag.get(1, 1).unwrap());
    assert_eq!(diag.count_on(), 1);
    assert!(shifted(&b, 0, -1, OverflowPolicy::Discard).is_blank());
}

#[test]
fn shifted_wrap_vertical() {
    let mut b = blank(1, 3);
    b.set(0, 0, true).unwrap();
    let s = shifted(&b, 0, -1, OverflowPolicy::Wrap);
    assert!(s.get(0, 2).unwrap());
    assert_eq!(s.count_on(), 1);
}

#[test]
fn flipped_horizontal_and_vertical() {
    let mut b = blank(2, 2);
    b.set(0, 0, true).unwrap();
    let v = flipped(&b, GuideAxis::Vertical);
    assert!(v.get(1, 0).unwrap());
    let h = flipped(&b, GuideAxis::Horizontal);
    assert!(h.get(0, 1).unwrap());
}

fn on_pixels(b: &Bitmap) -> Vec<(u16, u16)> {
    let mut out = Vec::new();
    for y in 0..b.height() {
        for x in 0..b.width() {
            if b.get(x, y).unwrap() {
                out.push((x, y));
            }
        }
    }
    out
}

#[test]
fn flipped_asymmetric_full_content() {
    let mut b = blank(3, 2);
    for (x, y) in [(0, 0), (1, 0), (0, 1)] {
        b.set(x, y, true).unwrap();
    }
    let v = flipped(&b, GuideAxis::Vertical);
    assert_eq!(on_pixels(&v), vec![(1, 0), (2, 0), (2, 1)]);
    let h = flipped(&b, GuideAxis::Horizontal);
    assert_eq!(on_pixels(&h), vec![(0, 0), (0, 1), (1, 1)]);
}

#[test]
fn shift_by_zero_keeps_every_pixel() {
    let mut b = blank(5, 4);
    b.set(1, 2, true).unwrap();
    b.set(4, 3, true).unwrap();
    assert_eq!(shifted(&b, 0, 0, OverflowPolicy::Discard), b);
    assert_eq!(shifted(&b, 0, 0, OverflowPolicy::Wrap), b);
}

#[test]
fn flipping_a_bitmap_twice_gives_it_back() {
    let mut b = blank(5, 3);
    b.set(0, 0, true).unwrap();
    b.set(3, 2, true).unwrap();
    assert_eq!(flipped(&flipped(&b, GuideAxis::Vertical), GuideAxis::Vertical), b);
    assert_eq!(flipped(&flipped(&b, GuideAxis::Horizontal), GuideAxis::Horizontal), b);
}

#[test]
fn inverting_complements_the_count_and_twice_is_identity() {
    let mut b = blank(5, 3);
    b.set(2, 1, true).unwrap();
    let inv = inverted(&b);
    assert_eq!(inv.count_on(), 14);
    assert!(!inv.get(2, 1).unwrap());
    assert_eq!(inverted(&inv), b);
}

#[test]
fn wrap_shift_keeps_the_pixel_count() {
    let mut b = blank(4, 3);
    b.set(0, 0, true).unwrap();
    b.set(3, 2, true).unwrap();
    b.set(1, 1, true).unwrap();
    let s = shifted(&b, -5, 7, OverflowPolicy::Wrap);
    assert_eq!(s.count_on(), 3);
}

#[test]
fn packed_layout_is_msb_first_per_row() {
    let mut b = blank(9, 2);
    b.set(0, 0, true).unwrap();
    b.set(8, 1, true).unwrap();
    assert_eq!(b.packed(), &[0b1000_0000, 0, 0, 0b1000_0000]);
}
