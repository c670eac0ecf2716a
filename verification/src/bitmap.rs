//! Packed binary glyph pixels with method-only access and the padding-bit-zero
//! invariant. Pixel meaning is fixed: `false` is off, `true` is on.

use vstd::arithmetic::div_mod::{lemma_fundamental_div_mod, lemma_fundamental_div_mod_converse};
use vstd::prelude::*;
use vstd::relations::injective_on;

use crate::geometry::{row_bytes, GlyphSize, GuideAxis};

verus! {

/// Whether bit `pos` (0 is the least significant) of `byte` is set.
pub open spec fn bit_of(byte: u8, pos: u8) -> bool {
    (byte >> pos) & 1u8 == 1u8
}

/// The abstract content of a bitmap: its geometry and one row of pixels per `y`,
/// each row holding one pixel per `x` (`rows[y][x]`).
#[verifier::ext_equal]
pub struct BitmapView {
    pub width: nat,
    pub height: nat,
    pub rows: Seq<Seq<bool>>,
}

/// Number of `true` values in `s`.
pub open spec fn count_true(s: Seq<bool>) -> nat
    decreases s.len(),
{
    if s.len() == 0 {
        0
    } else {
        count_true(s.drop_last()) + if s.last() {
            1nat
        } else {
            0nat
        }
    }
}

/// Number of `true` values over all rows.
pub open spec fn count_rows(rows: Seq<Seq<bool>>) -> nat
    decreases rows.len(),
{
    if rows.len() == 0 {
        0
    } else {
        count_rows(rows.drop_last()) + count_true(rows.last())
    }
}

impl BitmapView {
    /// Every row has exactly `width` pixels and there are `height` rows.
    pub open spec fn wf(self) -> bool {
        &&& self.rows.len() == self.height
        &&& forall|y: int| 0 <= y < self.height ==> #[trigger] self.rows[y].len() == self.width
    }

    /// The `width`×`height` grid whose pixel `(x, y)` is `f(x, y)`.
    pub open spec fn from_fn(width: nat, height: nat, f: spec_fn(int, int) -> bool) -> BitmapView {
        BitmapView {
            width,
            height,
            rows: Seq::new(height, |y: int| Seq::new(width, |x: int| f(x, y))),
        }
    }

    /// The same grid with pixel `(x, y)` replaced by `value`.
    pub open spec fn with_pixel(self, x: int, y: int, value: bool) -> BitmapView {
        BitmapView { width: self.width, height: self.height, rows: self.rows.update(y, self.rows[y].update(x, value)) }
    }

    /// The number of on pixels.
    pub open spec fn count_on(self) -> nat {
        count_rows(self.rows)
    }

    /// True when no pixel is on.
    pub open spec fn is_blank(self) -> bool {
        forall|x: int, y: int| 0 <= x < self.width && 0 <= y < self.height ==> !self.rows[y][x]
    }
}

/// The source pixel that destination `(x, y)` of a shift by `(dx, dy)` samples:
/// `(x - dx, y - dy)`, dropped when off the grid (`Discard`) or taken modulo the
/// grid size (`Wrap`).
pub open spec fn shift_source(v: BitmapView, sx: int, sy: int, overflow: OverflowPolicy) -> bool {
    match overflow {
        OverflowPolicy::Discard => 0 <= sx < v.width && 0 <= sy < v.height && v.rows[sy][sx],
        OverflowPolicy::Wrap => v.rows[sy % (v.height as int)][sx % (v.width as int)],
    }
}

/// `v` translated by `(dx, dy)` (positive moves right/down) under `overflow`.
pub open spec fn shifted_view(v: BitmapView, dx: int, dy: int, overflow: OverflowPolicy) -> BitmapView {
    BitmapView::from_fn(v.width, v.height, |x: int, y: int| shift_source(v, x - dx, y - dy, overflow))
}

/// `v` mirrored across `axis`: `Horizontal` swaps rows `y` and `height-1-y`,
/// `Vertical` swaps columns `x` and `width-1-x`.
pub open spec fn flipped_view(v: BitmapView, axis: GuideAxis) -> BitmapView {
    BitmapView::from_fn(
        v.width,
        v.height,
        |x: int, y: int|
            match axis {
                GuideAxis::Horizontal => v.rows[v.height - 1 - y][x],
                GuideAxis::Vertical => v.rows[y][v.width - 1 - x],
            },
    )
}

/// `v` with every pixel toggled.
pub open spec fn inverted_view(v: BitmapView) -> BitmapView {
    BitmapView::from_fn(v.width, v.height, |x: int, y: int| !v.rows[y][x])
}

/// Packed binary glyph pixels.
///
/// Rows are byte-aligned and packed most-significant-bit first: pixel `x` of a row
/// lives in byte `x / 8` at bit `7 - x % 8`. All access goes through methods. The
/// unused low bits of each row's last byte are always zero, which is what makes two
/// bitmaps with the same pixels byte-equal (see [`lemma_view_determines_bytes`]).
#[derive(Debug, PartialEq, Eq)]
pub struct Bitmap {
    width: u16,
    height: u16,
    packed_rows: Vec<u8>,
}

/// Why a bitmap coordinate access failed.
#[derive(Debug, Clone, Copy, PartialEq, Eq, Structural)]
pub enum BitmapError {
    OutOfBounds { x: u16, y: u16, width: u16, height: u16 },
}

/// How pixels shifted past an edge are handled.
#[derive(Debug, Clone, Copy, PartialEq, Eq, Structural)]
pub enum OverflowPolicy {
    /// Pixels shifted off an edge are lost; vacated pixels become off.
    Discard,
    /// Pixels shifted off one edge reappear on the opposite edge.
    Wrap,
}

/// Whether the bits of `byte` that lie past column `width` (for byte `c` of a row)
/// are all clear.
pub open spec fn padding_clear(byte: u8, c: int, width: int) -> bool {
    forall|i: u8| i < 8 && 8 * c + 7 - i >= width ==> !#[trigger] bit_of(byte, i)
}

/// Byte `c` of row `y` in a packing with `bpr` bytes per row.
pub open spec fn row_byte(bytes: Seq<u8>, bpr: int, y: int, c: int) -> u8 {
    bytes[y * bpr + c]
}

impl Bitmap {
    /// The packed bytes (private representation).
    pub closed spec fn bytes(self) -> Seq<u8> {
        self.packed_rows@
    }

    /// Byte `c` of row `y`.
    pub closed spec fn byte_at(self, y: int, c: int) -> u8 {
        row_byte(self.packed_rows@, row_bytes(self.width as nat) as int, y, c)
    }

    /// The value of pixel `(x, y)` as read from the packed bytes.
    pub closed spec fn pix(self, x: int, y: int) -> bool {
        bit_of(self.byte_at(y, x / 8), (7 - x % 8) as u8)
    }

    /// The packing invariant: the byte count matches the geometry and every padding
    /// bit is clear. It holds of every bitmap value the methods produce.
    pub closed spec fn well_formed(self) -> bool {
        self.inv()
    }

    #[verifier::type_invariant]
    closed spec fn inv(self) -> bool {
        &&& self.packed_rows@.len() == row_bytes(self.width as nat) * self.height
        &&& forall|y: int, c: int|
            0 <= y < self.height && 0 <= c < row_bytes(self.width as nat) ==> padding_clear(
                #[trigger] self.byte_at(y, c),
                c,
                self.width as int,
            )
    }

    pub closed spec fn spec_width(self) -> u16 {
        self.width
    }

    pub closed spec fn spec_height(self) -> u16 {
        self.height
    }
}

impl Clone for Bitmap {
    fn clone(&self) -> (b: Self)
        ensures
            b.well_formed(),
            b@ == self@,
    {
        proof {
            use_type_invariant(self);
        }
        let packed_rows = self.packed_rows.clone();
        proof {
            assert(packed_rows@ =~= self.packed_rows@);
            let bpr = row_bytes(self.width as nat) as int;
            assert forall|y: int, c: int| 0 <= y < self.height && 0 <= c < bpr implies padding_clear(
                #[trigger] row_byte(packed_rows@, bpr, y, c),
                c,
                self.width as int,
            ) by {
                assert(self.byte_at(y, c) == row_byte(packed_rows@, bpr, y, c));
            }
        }
        let b = Bitmap { width: self.width, height: self.height, packed_rows };
        proof {
            use_type_invariant(&b);
            assert(b.bytes() == self.bytes());
            assert(b@ =~~= self@);
        }
        b
    }
}

impl View for Bitmap {
    type V = BitmapView;

    open spec fn view(&self) -> BitmapView {
        BitmapView::from_fn(
            self.spec_width() as nat,
            self.spec_height() as nat,
            |x: int, y: int| self.pix(x, y),
        )
    }
}

/// Writes one byte of a vector in place (`bytes[index] = value`).
fn store_byte(bytes: &mut Vec<u8>, index: usize, value: u8)
    requires
        index < old(bytes).len(),
    ensures
        final(bytes)@ == old(bytes)@.update(index as int, value),
    no_unwind
{
    bytes[index] = value;
}

// ---- arithmetic facts about the packed layout ----

proof fn lemma_column_byte(x: int, w: int)
    requires
        0 <= x < w,
    ensures
        0 <= x / 8 < row_bytes(w as nat),
        0 <= x % 8 < 8,
{
}

proof fn lemma_index_in_range(y: int, c: int, h: int, bpr: int)
    requires
        0 <= y < h,
        0 <= c < bpr,
    ensures
        0 <= y * bpr + c < h * bpr,
        h * bpr == bpr * h,
{
    assert(h * bpr == bpr * h) by (nonlinear_arith);
    assert(y * bpr + c < h * bpr) by (nonlinear_arith)
        requires
            0 <= y < h,
            0 <= c < bpr,
    ;
    assert(0 <= y * bpr) by (nonlinear_arith)
        requires
            0 <= y,
            0 <= bpr,
    ;
}

proof fn lemma_index_unique(y1: int, c1: int, y2: int, c2: int, bpr: int)
    requires
        0 <= c1 < bpr,
        0 <= c2 < bpr,
        y1 * bpr + c1 == y2 * bpr + c2,
    ensures
        y1 == y2,
        c1 == c2,
{
    let k = y1 * bpr + c1;
    lemma_fundamental_div_mod_converse(k, bpr, y1, c1);
    lemma_fundamental_div_mod_converse(k, bpr, y2, c2);
}

proof fn lemma_index_split(k: int, h: int, bpr: int)
    requires
        0 <= k < h * bpr,
        bpr > 0,
    ensures
        k == (k / bpr) * bpr + k % bpr,
        0 <= k / bpr < h,
        0 <= k % bpr < bpr,
{
    lemma_fundamental_div_mod(k, bpr);
    assert((k / bpr) * bpr == bpr * (k / bpr)) by (nonlinear_arith);
    assert(0 <= k % bpr < bpr);
    assert(0 <= k / bpr) by (nonlinear_arith)
        requires
            0 <= k,
            bpr > 0,
    ;
    if k / bpr >= h {
        assert((k / bpr) * bpr >= h * bpr) by (nonlinear_arith)
            requires
                k / bpr >= h,
                bpr > 0,
        ;
    }
}

// ---- bit-level facts ----

proof fn lemma_bit_set_one(b: u8, p: u8, i: u8)
    by (bit_vector)
    requires
        p < 8,
        i < 8,
    ensures
        (((b | (1u8 << p)) >> i) & 1u8 == 1u8) == (i == p || (b >> i) & 1u8 == 1u8),
{
}

proof fn lemma_bit_clear_one(b: u8, p: u8, i: u8)
    by (bit_vector)
    requires
        p < 8,
        i < 8,
    ensures
        (((b & !(1u8 << p)) >> i) & 1u8 == 1u8) == (i != p && (b >> i) & 1u8 == 1u8),
{
}

proof fn lemma_bit_set(b: u8, p: u8)
    requires
        p < 8,
    ensures
        forall|i: u8| i < 8 ==> #[trigger] bit_of(b | (1u8 << p), i) == (i == p || bit_of(b, i)),
{
    assert forall|i: u8| i < 8 implies #[trigger] bit_of(b | (1u8 << p), i) == (i == p || bit_of(b, i)) by {
        lemma_bit_set_one(b, p, i);
    }
}

proof fn lemma_bit_clear(b: u8, p: u8)
    requires
        p < 8,
    ensures
        forall|i: u8| i < 8 ==> #[trigger] bit_of(b & !(1u8 << p), i) == (i != p && bit_of(b, i)),
{
    assert forall|i: u8| i < 8 implies #[trigger] bit_of(b & !(1u8 << p), i) == (i != p && bit_of(b, i)) by {
        lemma_bit_clear_one(b, p, i);
    }
}

proof fn lemma_zero_bit(i: u8)
    by (bit_vector)
    ensures
        (0u8 >> i) & 1u8 != 1u8,
{
}

proof fn lemma_zero_bits()
    ensures
        forall|i: u8| i < 8 ==> !#[trigger] bit_of(0u8, i),
{
    assert forall|i: u8| i < 8 implies !#[trigger] bit_of(0u8, i) by {
        lemma_zero_bit(i);
    }
}

/// A byte is determined by its eight bits.
proof fn lemma_byte_from_bits(a: u8, b: u8)
    requires
        forall|i: u8| i < 8 ==> #[trigger] bit_of(a, i) == bit_of(b, i),
    ensures
        a == b,
{
    assert(bit_of(a, 0) == bit_of(b, 0));
    assert(bit_of(a, 1) == bit_of(b, 1));
    assert(bit_of(a, 2) == bit_of(b, 2));
    assert(bit_of(a, 3) == bit_of(b, 3));
    assert(bit_of(a, 4) == bit_of(b, 4));
    assert(bit_of(a, 5) == bit_of(b, 5));
    assert(bit_of(a, 6) == bit_of(b, 6));
    assert(bit_of(a, 7) == bit_of(b, 7));
    assert(a == b) by (bit_vector)
        requires
            ((a >> 0u8) & 1u8 == 1u8) == ((b >> 0u8) & 1u8 == 1u8),
            ((a >> 1u8) & 1u8 == 1u8) == ((b >> 1u8) & 1u8 == 1u8),
            ((a >> 2u8) & 1u8 == 1u8) == ((b >> 2u8) & 1u8 == 1u8),
            ((a >> 3u8) & 1u8 == 1u8) == ((b >> 3u8) & 1u8 == 1u8),
            ((a >> 4u8) & 1u8 == 1u8) == ((b >> 4u8) & 1u8 == 1u8),
            ((a >> 5u8) & 1u8 == 1u8) == ((b >> 5u8) & 1u8 == 1u8),
            ((a >> 6u8) & 1u8 == 1u8) == ((b >> 6u8) & 1u8 == 1u8),
            ((a >> 7u8) & 1u8 == 1u8) == ((b >> 7u8) & 1u8 == 1u8),
    ;
}

/// The bitmap of the given geometry with every pixel off.
pub open spec fn blank_view(width: nat, height: nat) -> BitmapView {
    BitmapView::from_fn(width, height, |x: int, y: int| false)
}

impl Bitmap {
    /// A bitmap of the given size with every pixel off.
    pub fn new_blank(size: GlyphSize) -> (b: Self)
        ensures
            b.well_formed(),
            b@ == blank_view(size.width as nat, size.height as nat),
    {
        let bpr = size.bytes_per_row();
        assert(bpr * size.height <= 8192 * 65535) by (nonlinear_arith)
            requires
                bpr <= 8192,
                size.height <= 65535,
        ;
        let len = bpr * size.height as usize;
        let packed_rows = vec![0u8; len];
        proof {
            lemma_zero_bits();
            assert(packed_rows@ =~= Seq::new(len as nat, |i: int| 0u8));
            assert forall|y: int, c: int| 0 <= y < size.height && 0 <= c < bpr implies padding_clear(
                #[trigger] row_byte(packed_rows@, bpr as int, y, c),
                c,
                size.width as int,
            ) by {
                lemma_index_in_range(y, c, size.height as int, bpr as int);
            }
        }
        let b = Bitmap { width: size.width, height: size.height, packed_rows };
        proof {
            use_type_invariant(&b);
        }
        assert(b@ =~~= BitmapView::from_fn(size.width as nat, size.height as nat, |x: int, y: int| false)) by {
            assert forall|x: int, y: int| 0 <= x < size.width && 0 <= y < size.height implies !b.pix(x, y) by {
                lemma_column_byte(x, size.width as int);
                lemma_index_in_range(y, x / 8, size.height as int, bpr as int);
            }
        }
        b
    }

    pub fn width(&self) -> (w: u16)
        ensures
            w == self@.width,
    {
        self.width
    }

    pub fn height(&self) -> (h: u16)
        ensures
            h == self@.height,
    {
        self.height
    }

    /// The geometry of this bitmap.
    pub fn size(&self) -> (s: GlyphSize)
        ensures
            s.width == self@.width,
            s.height == self@.height,
    {
        GlyphSize::new(self.width, self.height)
    }

    /// The packed rows: pixel `(x, y)` is bit `7 - x % 8` of byte
    /// `y * bytes_per_row + x / 8`, and the bits past the last column are clear.
    pub fn packed(&self) -> (r: &[u8])
        ensures
            r@ == self.bytes(),
            r@.len() == row_bytes(self@.width) * self@.height,
            forall|x: int, y: int|
                0 <= x < self@.width && 0 <= y < self@.height ==> bit_of(
                    row_byte(r@, row_bytes(self@.width) as int, y, x / 8),
                    (7 - x % 8) as u8,
                ) == #[trigger] self@.rows[y][x],
            forall|y: int, c: int|
                0 <= y < self@.height && 0 <= c < row_bytes(self@.width) ==> padding_clear(
                    #[trigger] row_byte(r@, row_bytes(self@.width) as int, y, c),
                    c,
                    self@.width as int,
                ),
    {
        proof {
            use_type_invariant(self);
            let bpr = row_bytes(self.width as nat) as int;
            assert forall|y: int, c: int| 0 <= y < self.height && 0 <= c < bpr implies padding_clear(
                #[trigger] row_byte(self.packed_rows@, bpr, y, c),
                c,
                self.width as int,
            ) by {
                assert(self.byte_at(y, c) == row_byte(self.packed_rows@, bpr, y, c));
            }
        }
        self.packed_rows.as_slice()
    }

    fn bytes_per_row(&self) -> (n: usize)
        ensures
            n == row_bytes(self.width as nat),
    {
        self.size().bytes_per_row()
    }

    /// Byte index and most-significant-first bit position of an in-bounds pixel.
    fn locate(&self, x: u16, y: u16) -> (r: (usize, u8))
        requires
            x < self.width,
            y < self.height,
        ensures
            r.0 == y * row_bytes(self.width as nat) + x / 8,
            r.0 < self.packed_rows@.len(),
            r.1 == 7 - x % 8,
    {
        proof {
            use_type_invariant(self);
            lemma_column_byte(x as int, self.width as int);
            lemma_index_in_range(y as int, x as int / 8, self.height as int, row_bytes(self.width as nat) as int);
            assert(y * row_bytes(self.width as nat) <= 65535 * 8192) by (nonlinear_arith)
                requires
                    y <= 65535,
                    row_bytes(self.width as nat) <= 8192,
            ;
        }
        let byte = y as usize * self.bytes_per_row() + (x as usize / 8);
        let bit = 7 - (x % 8) as u8;
        (byte, bit)
    }

    /// Reads a pixel known to be in bounds.
    fn get_bit(&self, x: u16, y: u16) -> (v: bool)
        requires
            x < self.width,
            y < self.height,
        ensures
            v == self@.rows[y as int][x as int],
    {
        let (byte, bit) = self.locate(x, y);
        (self.packed_rows[byte] >> bit) & 1 == 1
    }

    /// Writes a pixel known to be in bounds; `x < width`, so no padding bit moves.
    fn set_bit(&mut self, x: u16, y: u16, value: bool)
        requires
            x < old(self).width,
            y < old(self).height,
        ensures
            final(self)@ == old(self)@.with_pixel(x as int, y as int, value),
    {
        proof {
            use_type_invariant(&*self);
        }
        let (byte, bit) = self.locate(x, y);
        let ghost bpr = row_bytes(self.width as nat) as int;
        let ghost before = *self;
        let old_byte = self.packed_rows[byte];
        let new_byte = if value {
            old_byte | (1u8 << bit)
        } else {
            old_byte & !(1u8 << bit)
        };
        proof {
            if value {
                lemma_bit_set(old_byte, bit);
            } else {
                lemma_bit_clear(old_byte, bit);
            }
            lemma_column_byte(x as int, self.width as int);
            // The padding of the touched byte stays clear: the written bit is column x.
            assert forall|i: u8| i < 8 && 8 * (x / 8) + 7 - i >= self.width implies !#[trigger] bit_of(
                new_byte,
                i,
            ) by {
                assert(i != bit);
                assert(before.byte_at(y as int, x as int / 8) == old_byte);
            }
        }
        proof {
            let new_bytes = self.packed_rows@.update(byte as int, new_byte);
            assert forall|yy: int, c: int|
                0 <= yy < self.height && 0 <= c < bpr implies #[trigger] row_byte(new_bytes, bpr, yy, c)
                == if yy == y && c == x / 8 {
                new_byte
            } else {
                before.byte_at(yy, c)
            } by {
                lemma_column_byte(x as int, self.width as int);
                lemma_index_in_range(yy, c, self.height as int, bpr);
                if yy * bpr + c == byte {
                    lemma_index_unique(yy, c, y as int, x as int / 8, bpr);
                    assert(row_byte(new_bytes, bpr, yy, c) == new_byte);
                } else {
                    assert(row_byte(new_bytes, bpr, yy, c) == self.packed_rows@[yy * bpr + c]);
                    assert(yy != y || c != x / 8);
                }
            }
            assert forall|yy: int, c: int| 0 <= yy < self.height && 0 <= c < bpr implies padding_clear(
                #[trigger] row_byte(new_bytes, bpr, yy, c),
                c,
                self.width as int,
            ) by {
                assert(row_byte(new_bytes, bpr, yy, c) == if yy == y && c == x / 8 {
                    new_byte
                } else {
                    before.byte_at(yy, c)
                });
            }
        }
        store_byte(&mut self.packed_rows, byte, new_byte);
        proof {
            assert forall|yy: int, c: int|
                0 <= yy < self.height && 0 <= c < bpr implies #[trigger] self.byte_at(yy, c) == if yy
                == y && c == x / 8 {
                new_byte
            } else {
                before.byte_at(yy, c)
            } by {
                lemma_index_in_range(yy, c, self.height as int, bpr);
                if yy * bpr + c == byte {
                    lemma_index_unique(yy, c, y as int, x as int / 8, bpr);
                }
            }
        }
        assert(self@ =~~= before@.with_pixel(x as int, y as int, value)) by {
            assert forall|xx: int, yy: int|
                0 <= xx < self.width && 0 <= yy < self.height implies self.pix(xx, yy) == if xx == x
                && yy == y {
                value
            } else {
                before.pix(xx, yy)
            } by {
                lemma_column_byte(xx, self.width as int);
                if yy == y && xx / 8 == x / 8 {
                    let p = (7 - xx % 8) as u8;
                    assert(p < 8);
                    if xx != x {
                        assert(p != bit);
                    }
                }
            }
        }
    }

    fn check_bounds(&self, x: u16, y: u16) -> (r: Result<(), BitmapError>)
        ensures
            r == (if x < self@.width && y < self@.height {
                Ok(())
            } else {
                Err(
                    BitmapError::OutOfBounds {
                        x,
                        y,
                        width: self@.width as u16,
                        height: self@.height as u16,
                    },
                )
            }),
    {
        if x < self.width && y < self.height {
            Ok(())
        } else {
            Err(BitmapError::OutOfBounds { x, y, width: self.width, height: self.height })
        }
    }

    /// Reads a pixel, or `Err` for a coordinate outside the bitmap.
    pub fn get(&self, x: u16, y: u16) -> (r: Result<bool, BitmapError>)
        ensures
            r == (if x < self@.width && y < self@.height {
                Ok(self@.rows[y as int][x as int])
            } else {
                Err(
                    BitmapError::OutOfBounds {
                        x,
                        y,
                        width: self@.width as u16,
                        height: self@.height as u16,
                    },
                )
            }),
    {
        match self.check_bounds(x, y) {
            Ok(()) => Ok(self.get_bit(x, y)),
            Err(e) => Err(e),
        }
    }

    /// Writes a pixel, or `Err` (leaving the bitmap untouched) for a coordinate
    /// outside the bitmap.
    pub fn set(&mut self, x: u16, y: u16, value: bool) -> (r: Result<(), BitmapError>)
        ensures
            final(self).well_formed(),
            x < old(self)@.width && y < old(self)@.height ==> r is Ok && final(self)@ == old(
                self,
            )@.with_pixel(x as int, y as int, value),
            !(x < old(self)@.width && y < old(self)@.height) ==> r == Err::<(), BitmapError>(
                BitmapError::OutOfBounds {
                    x,
                    y,
                    width: old(self)@.width as u16,
                    height: old(self)@.height as u16,
                },
            ) && final(self)@ == old(self)@,
    {
        let r = match self.check_bounds(x, y) {
            Ok(()) => {
                self.set_bit(x, y, value);
                Ok(())
            },
            Err(e) => Err(e),
        };
        proof {
            use_type_invariant(&*self);
        }
        r
    }

    /// Flips a pixel, or `Err` (leaving the bitmap untouched) for a coordinate
    /// outside the bitmap.
    pub fn toggle(&mut self, x: u16, y: u16) -> (r: Result<(), BitmapError>)
        ensures
            x < old(self)@.width && y < old(self)@.height ==> r is Ok && final(self)@ == old(
                self,
            )@.with_pixel(x as int, y as int, !old(self)@.rows[y as int][x as int]),
            !(x < old(self)@.width && y < old(self)@.height) ==> r == Err::<(), BitmapError>(
                BitmapError::OutOfBounds {
                    x,
                    y,
                    width: old(self)@.width as u16,
                    height: old(self)@.height as u16,
                },
            ) && final(self)@ == old(self)@,
    {
        match self.check_bounds(x, y) {
            Ok(()) => {
                let value = !self.get_bit(x, y);
                self.set_bit(x, y, value);
                Ok(())
            },
            Err(e) => Err(e),
        }
    }
}

/// `x` taken modulo `n` (Euclidean, so the result is in `0..n`).
fn wrap_index(x: i32, n: u16) -> (r: u16)
    requires
        n > 0,
        -32768 <= x <= 98304,
    ensures
        r as int == x as int % (n as int),
{
    let t: u64 = (x as i64 + 65536 * n as i64) as u64;
    proof {
        vstd::arithmetic::div_mod::lemma_mod_multiples_vanish(65536, x as int, n as int);
        assert((n as int) * 65536 + x == t);
        vstd::arithmetic::div_mod::lemma_mod_pos_bound(t as int, n as int);
    }
    (t % n as u64) as u16
}

impl Bitmap {
    /// Builds a `size` bitmap whose pixel `(x, y)` is `f(x, y)`, evaluated in
    /// row-major order. Only `true` results are written, so padding stays zero.
    fn from_fn<F: Fn(u16, u16) -> bool>(
        size: GlyphSize,
        f: F,
        Ghost(expected): Ghost<spec_fn(int, int) -> bool>,
    ) -> (out: Self)
        requires
            forall|x: u16, y: u16| x < size.width && y < size.height ==> #[trigger] f.requires((x, y)),
            forall|x: u16, y: u16, r: bool|
                x < size.width && y < size.height && #[trigger] f.ensures((x, y), r) ==> r == expected(
                    x as int,
                    y as int,
                ),
        ensures
            out.well_formed(),
            out@ == BitmapView::from_fn(size.width as nat, size.height as nat, expected),
    {
        let mut out = Self::new_blank(size);
        let mut y: u16 = 0;
        while y < size.height
            invariant
                y <= size.height,
                out@.width == size.width,
                out@.height == size.height,
                forall|x: u16, y: u16| x < size.width && y < size.height ==> #[trigger] f.requires((x, y)),
                forall|x: u16, y: u16, r: bool|
                    x < size.width && y < size.height && #[trigger] f.ensures((x, y), r) ==> r == expected(
                        x as int,
                        y as int,
                    ),
                forall|xx: int, yy: int|
                    0 <= xx < size.width && 0 <= yy < size.height ==> out@.rows[yy][xx] == if yy < y {
                        expected(xx, yy)
                    } else {
                        false
                    },
            decreases size.height - y,
        {
            let mut x: u16 = 0;
            while x < size.width
                invariant
                    x <= size.width,
                    y < size.height,
                    out@.width == size.width,
                    out@.height == size.height,
                    forall|x: u16, y: u16| x < size.width && y < size.height ==> #[trigger] f.requires((x, y)),
                    forall|x: u16, y: u16, r: bool|
                        x < size.width && y < size.height && #[trigger] f.ensures((x, y), r) ==> r
                            == expected(x as int, y as int),
                    forall|xx: int, yy: int|
                        0 <= xx < size.width && 0 <= yy < size.height ==> out@.rows[yy][xx] == if yy < y
                            || (yy == y && xx < x) {
                            expected(xx, yy)
                        } else {
                            false
                        },
                decreases size.width - x,
            {
                let on = f(x, y);
                if on {
                    out.set_bit(x, y, true);
                }
                x = x + 1;
            }
            y = y + 1;
        }
        assert(out@ =~~= BitmapView::from_fn(size.width as nat, size.height as nat, expected));
        proof {
            use_type_invariant(&out);
        }
        out
    }

    /// Turns every pixel off.
    pub fn clear(&mut self)
        ensures
            final(self)@ == BitmapView::from_fn(
                old(self)@.width,
                old(self)@.height,
                |x: int, y: int| false,
            ),
    {
        proof {
            use_type_invariant(&*self);
            lemma_zero_bits();
        }
        let len = self.packed_rows.len();
        let ghost bpr = row_bytes(self.width as nat) as int;
        let mut i: usize = 0;
        while i < len
            invariant
                i <= len,
                len == self.packed_rows@.len(),
                len == bpr * self.height,
                bpr == row_bytes(self.width as nat),
                self.width == old(self).width,
                self.height == old(self).height,
                forall|k: int| 0 <= k < i ==> self.packed_rows@[k] == 0u8,
                forall|i: u8| i < 8 ==> !#[trigger] bit_of(0u8, i),
            decreases len - i,
        {
            proof {
                use_type_invariant(&*self);
                let new_bytes = self.packed_rows@.update(i as int, 0u8);
                assert forall|yy: int, c: int| 0 <= yy < self.height && 0 <= c < bpr implies padding_clear(
                    #[trigger] row_byte(new_bytes, bpr, yy, c),
                    c,
                    self.width as int,
                ) by {
                    lemma_index_in_range(yy, c, self.height as int, bpr);
                    assert(self.byte_at(yy, c) == row_byte(self.packed_rows@, bpr, yy, c));
                }
            }
            store_byte(&mut self.packed_rows, i, 0);
            i = i + 1;
        }
        proof {
            assert forall|x: int, y: int| 0 <= x < self.width && 0 <= y < self.height implies !self.pix(
                x,
                y,
            ) by {
                lemma_column_byte(x, self.width as int);
                lemma_index_in_range(y, x / 8, self.height as int, bpr);
            }
        }
        assert(self@ =~~= BitmapView::from_fn(
            old(self)@.width,
            old(self)@.height,
            |x: int, y: int| false,
        ));
    }

    /// True when every pixel is off, read off the packed bytes: with the padding
    /// bits always clear, a bitmap is blank exactly when all its bytes are zero.
    pub fn is_blank(&self) -> (r: bool)
        ensures
            r == self@.is_blank(),
    {
        proof {
            use_type_invariant(self);
        }
        let len = self.packed_rows.len();
        let ghost bpr = row_bytes(self.width as nat) as int;
        let mut i: usize = 0;
        while i < len
            invariant
                i <= len,
                len == self.packed_rows@.len(),
                forall|k: int| 0 <= k < i ==> self.packed_rows@[k] == 0u8,
            decreases len - i,
        {
            if self.packed_rows[i] != 0 {
                proof {
                    use_type_invariant(self);
                    self.lemma_nonzero_byte_has_pixel(i as int);
                }
                return false;
            }
            i = i + 1;
        }
        proof {
            lemma_zero_bits();
            assert forall|x: int, y: int| 0 <= x < self.width && 0 <= y < self.height implies !self.pix(
                x,
                y,
            ) by {
                lemma_column_byte(x, self.width as int);
                lemma_index_in_range(y, x / 8, self.height as int, bpr);
            }
        }
        true
    }

    proof fn lemma_nonzero_byte_has_pixel(self, k: int)
        requires
            0 <= k < self.packed_rows@.len(),
            self.packed_rows@[k] != 0u8,
            self.inv(),
        ensures
            !self@.is_blank(),
    {
        let bpr = row_bytes(self.width as nat) as int;
        assert(bpr > 0) by (nonlinear_arith)
            requires
                0 <= k < bpr * self.height,
                bpr >= 0,
                self.height >= 0,
        ;
        assert(bpr * self.height == self.height * bpr) by (nonlinear_arith);
        lemma_index_split(k, self.height as int, bpr);
        let y = k / bpr;
        let c = k % bpr;
        let b = self.packed_rows@[k];
        assert(self.byte_at(y, c) == b);
        lemma_nonzero_bit(b);
        let i: u8 = if bit_of(b, 0) {
            0
        } else if bit_of(b, 1) {
            1
        } else if bit_of(b, 2) {
            2
        } else if bit_of(b, 3) {
            3
        } else if bit_of(b, 4) {
            4
        } else if bit_of(b, 5) {
            5
        } else if bit_of(b, 6) {
            6
        } else {
            7
        };
        assert(bit_of(b, i));
        let x = 8 * c + 7 - i;
        assert(x < self.width);
        lemma_fundamental_div_mod_converse(x, 8, c, 7 - i);
        assert(self.pix(x, y));
        assert(self@.rows[y][x]);
    }

    /// The number of on pixels.
    pub fn count_on(&self) -> (n: u32)
        ensures
            n == self@.count_on(),
    {
        let w = self.width;
        let h = self.height;
        let ghost v = self@;
        let mut count: u32 = 0;
        let mut y: u16 = 0;
        while y < h
            invariant
                y <= h,
                w == v.width,
                h == v.height,
                v == self@,
                count == count_rows(v.rows.take(y as int)),
                count <= y * w,
            decreases h - y,
        {
            let mut x: u16 = 0;
            let ghost row = v.rows[y as int];
            assert(row.len() == w);
            while x < w
                invariant
                    x <= w,
                    y < h,
                    w == v.width,
                    h == v.height,
                    v == self@,
                    row == v.rows[y as int],
                    row.len() == w,
                    count == count_rows(v.rows.take(y as int)) + count_true(row.take(x as int)),
                    count <= y * w + x,
                    count_rows(v.rows.take(y as int)) <= y * w,
                decreases w - x,
            {
                proof {
                    lemma_count_true_step(row, x as int);
                    assert((y + 1) * w <= 65535 * 65535) by (nonlinear_arith)
                        requires
                            y < h,
                            h <= 65535,
                            w <= 65535,
                    ;
                    assert(y * w + x < (y + 1) * w) by (nonlinear_arith)
                        requires
                            x < w,
                    ;
                }
                if self.get_bit(x, y) {
                    count = count + 1;
                }
                x = x + 1;
            }
            proof {
                lemma_count_rows_step(v.rows, y as int);
                assert(row.take(w as int) =~= row);
                assert((y + 1) * w == y * w + w) by (nonlinear_arith);
            }
            y = y + 1;
        }
        assert(v.rows.take(h as int) =~= v.rows);
        count
    }
}

proof fn lemma_nonzero_bit(b: u8)
    requires
        b != 0u8,
    ensures
        bit_of(b, 0) || bit_of(b, 1) || bit_of(b, 2) || bit_of(b, 3) || bit_of(b, 4) || bit_of(b, 5)
            || bit_of(b, 6) || bit_of(b, 7),
{
    assert(b != 0u8 ==> ((b >> 0u8) & 1u8 == 1u8 || (b >> 1u8) & 1u8 == 1u8 || (b >> 2u8) & 1u8 == 1u8
        || (b >> 3u8) & 1u8 == 1u8 || (b >> 4u8) & 1u8 == 1u8 || (b >> 5u8) & 1u8 == 1u8 || (b >> 6u8)
        & 1u8 == 1u8 || (b >> 7u8) & 1u8 == 1u8)) by (bit_vector);
}

proof fn lemma_count_true_step(s: Seq<bool>, i: int)
    requires
        0 <= i < s.len(),
    ensures
        count_true(s.take(i + 1)) == count_true(s.take(i)) + if s[i] {
            1nat
        } else {
            0nat
        },
{
    assert(s.take(i + 1).drop_last() =~= s.take(i));
}

proof fn lemma_count_rows_step(rows: Seq<Seq<bool>>, y: int)
    requires
        0 <= y < rows.len(),
    ensures
        count_rows(rows.take(y + 1)) == count_rows(rows.take(y)) + count_true(rows[y]),
{
    assert(rows.take(y + 1).drop_last() =~= rows.take(y));
}

/// A copy of `src` translated by `(dx, dy)` under `overflow`; positive `dx`/`dy`
/// move content right/down.
pub fn shifted(src: &Bitmap, dx: i16, dy: i16, overflow: OverflowPolicy) -> (out: Bitmap)
    ensures
        out.well_formed(),
        out@ == shifted_view(src@, dx as int, dy as int, overflow),
{
    let w = src.width();
    let h = src.height();
    let ghost v = src@;
    let sample = |x: u16, y: u16| -> (r: bool)
        requires
            x < w,
            y < h,
            w == src@.width,
            h == src@.height,
        ensures
            r == shift_source(src@, x - dx, y - dy, overflow),
        {
            let sx = x as i32 - dx as i32;
            let sy = y as i32 - dy as i32;
            match overflow {
                OverflowPolicy::Discard => {
                    if 0 <= sx && sx < w as i32 && 0 <= sy && sy < h as i32 {
                        src.get_bit(sx as u16, sy as u16)
                    } else {
                        false
                    }
                },
                OverflowPolicy::Wrap => {
                    let wx = wrap_index(sx, w);
                    let wy = wrap_index(sy, h);
                    src.get_bit(wx, wy)
                },
            }
        };
    Bitmap::from_fn(
        src.size(),
        sample,
        Ghost(|x: int, y: int| shift_source(v, x - dx, y - dy, overflow)),
    )
}

/// A copy of `src` mirrored across `axis`.
pub fn flipped(src: &Bitmap, axis: GuideAxis) -> (out: Bitmap)
    ensures
        out.well_formed(),
        out@ == flipped_view(src@, axis),
{
    let w = src.width();
    let h = src.height();
    let ghost v = src@;
    let sample = |x: u16, y: u16| -> (r: bool)
        requires
            x < w,
            y < h,
            w == src@.width,
            h == src@.height,
        ensures
            r == match axis {
                GuideAxis::Horizontal => src@.rows[src@.height - 1 - y][x as int],
                GuideAxis::Vertical => src@.rows[y as int][src@.width - 1 - x],
            },
        {
            match axis {
                GuideAxis::Horizontal => src.get_bit(x, h - 1 - y),
                GuideAxis::Vertical => src.get_bit(w - 1 - x, y),
            }
        };
    Bitmap::from_fn(
        src.size(),
        sample,
        Ghost(
            |x: int, y: int|
                match axis {
                    GuideAxis::Horizontal => v.rows[v.height - 1 - y][x],
                    GuideAxis::Vertical => v.rows[y][v.width - 1 - x],
                },
        ),
    )
}

/// A copy of `src` with every pixel toggled (a data operation, distinct from
/// display inversion).
pub fn inverted(src: &Bitmap) -> (out: Bitmap)
    ensures
        out.well_formed(),
        out@ == inverted_view(src@),
{
    let w = src.width();
    let h = src.height();
    let ghost v = src@;
    let sample = |x: u16, y: u16| -> (r: bool)
        requires
            x < w,
            y < h,
            w == src@.width,
            h == src@.height,
        ensures
            r == !src@.rows[y as int][x as int],
        { !src.get_bit(x, y) };
    Bitmap::from_fn(src.size(), sample, Ghost(|x: int, y: int| !v.rows[y][x]))
}

// ---- counting lemmas ----

proof fn lemma_count_true_concat(a: Seq<bool>, b: Seq<bool>)
    ensures
        count_true(a + b) == count_true(a) + count_true(b),
    decreases b.len(),
{
    if b.len() == 0 {
        assert(a + b =~= a);
    } else {
        lemma_count_true_concat(a, b.drop_last());
        assert((a + b).drop_last() =~= a + b.drop_last());
    }
}

proof fn lemma_count_rows_concat(a: Seq<Seq<bool>>, b: Seq<Seq<bool>>)
    ensures
        count_rows(a + b) == count_rows(a) + count_rows(b),
    decreases b.len(),
{
    if b.len() == 0 {
        assert(a + b =~= a);
    } else {
        lemma_count_rows_concat(a, b.drop_last());
        assert((a + b).drop_last() =~= a + b.drop_last());
    }
}

proof fn lemma_count_true_le_len(s: Seq<bool>)
    ensures
        count_true(s) <= s.len(),
    decreases s.len(),
{
    if s.len() > 0 {
        lemma_count_true_le_len(s.drop_last());
    }
}

/// Rows with equal per-row counts have equal total counts.
proof fn lemma_count_rows_pointwise(a: Seq<Seq<bool>>, b: Seq<Seq<bool>>)
    requires
        a.len() == b.len(),
        forall|i: int| 0 <= i < a.len() ==> count_true(#[trigger] a[i]) == count_true(b[i]),
    ensures
        count_rows(a) == count_rows(b),
    decreases a.len(),
{
    if a.len() > 0 {
        lemma_count_rows_pointwise(a.drop_last(), b.drop_last());
    }
}

/// `(x - d) % n` is `(x + k) % n` for `k = (-d) % n`, and for `0 <= x < n` that
/// index is the position `x` of `s.skip(k) + s.take(k)`.
proof fn lemma_rotation_index(x: int, d: int, n: int)
    requires
        0 <= x < n,
    ensures
        0 <= (-d) % n < n,
        (x - d) % n == if x + (-d) % n < n {
            x + (-d) % n
        } else {
            x + (-d) % n - n
        },
{
    let k = (-d) % n;
    lemma_fundamental_div_mod(-d, n);
    let q = (-d) / n;
    assert(0 <= k < n) by {
        vstd::arithmetic::div_mod::lemma_mod_bound(-d, n);
    }
    assert(x - d == n * q + (x + k));
    vstd::arithmetic::div_mod::lemma_mod_multiples_vanish(q, x + k, n);
    if x + k < n {
        lemma_fundamental_div_mod_converse(x + k, n, 0, x + k);
    } else {
        lemma_fundamental_div_mod_converse(x + k, n, 1, x + k - n);
    }
}

proof fn lemma_rotated_row_count(s: Seq<bool>, d: int)
    requires
        s.len() > 0,
    ensures
        count_true(Seq::new(s.len(), |x: int| s[(x - d) % (s.len() as int)])) == count_true(s),
{
    let n = s.len() as int;
    let r = Seq::new(s.len(), |x: int| s[(x - d) % n]);
    let k = (-d) % n;
    assert forall|x: int| 0 <= x < n implies r[x] == (s.skip(k) + s.take(k))[x] by {
        lemma_rotation_index(x, d, n);
    }
    lemma_rotation_index(0, d, n);
    assert(r =~= s.skip(k) + s.take(k));
    lemma_count_true_concat(s.skip(k), s.take(k));
    lemma_count_true_concat(s.take(k), s.skip(k));
    assert(s.take(k) + s.skip(k) =~= s);
}

proof fn lemma_rotated_rows_count(rows: Seq<Seq<bool>>, d: int)
    requires
        rows.len() > 0,
    ensures
        count_rows(Seq::new(rows.len(), |y: int| rows[(y - d) % (rows.len() as int)])) == count_rows(
            rows,
        ),
{
    let n = rows.len() as int;
    let r = Seq::new(rows.len(), |y: int| rows[(y - d) % n]);
    let k = (-d) % n;
    assert forall|y: int| 0 <= y < n implies r[y] == (rows.skip(k) + rows.take(k))[y] by {
        lemma_rotation_index(y, d, n);
    }
    lemma_rotation_index(0, d, n);
    assert(r =~= rows.skip(k) + rows.take(k));
    lemma_count_rows_concat(rows.skip(k), rows.take(k));
    lemma_count_rows_concat(rows.take(k), rows.skip(k));
    assert(rows.take(k) + rows.skip(k) =~= rows);
}

proof fn lemma_count_true_negated(s: Seq<bool>)
    ensures
        count_true(Seq::new(s.len(), |x: int| !s[x])) + count_true(s) == s.len(),
    decreases s.len(),
{
    let t = Seq::new(s.len(), |x: int| !s[x]);
    if s.len() > 0 {
        let u = s.drop_last();
        lemma_count_true_negated(u);
        assert(t.drop_last() =~= Seq::new(u.len(), |x: int| !u[x]));
    }
}

proof fn lemma_count_rows_uniform(rows: Seq<Seq<bool>>, w: nat)
    requires
        forall|y: int| 0 <= y < rows.len() ==> count_true(#[trigger] rows[y]) == w,
    ensures
        count_rows(rows) == rows.len() * w,
    decreases rows.len(),
{
    if rows.len() > 0 {
        lemma_count_rows_uniform(rows.drop_last(), w);
        assert((rows.len() - 1) * w + w == rows.len() * w) by (nonlinear_arith);
    }
}

// ---- laws of the pixel transforms ----

/// Shifting by `(0, 0)` is the identity, under either overflow policy.
pub proof fn law_shift_by_zero_is_identity(b: Bitmap, overflow: OverflowPolicy)
    ensures
        shifted_view(b@, 0, 0, overflow) == b@,
{
    let v = b@;
    assert forall|x: int, y: int| 0 <= x < v.width && 0 <= y < v.height implies shift_source(
        v,
        x - 0,
        y - 0,
        overflow,
    ) == v.rows[y][x] by {
        lemma_fundamental_div_mod_converse(x, v.width as int, 0, x);
        lemma_fundamental_div_mod_converse(y, v.height as int, 0, y);
    }
    assert(shifted_view(v, 0, 0, overflow) =~~= v);
}

/// Flipping twice across the same axis is the identity.
pub proof fn law_flip_twice_is_identity(b: Bitmap, axis: GuideAxis)
    ensures
        flipped_view(flipped_view(b@, axis), axis) == b@,
{
    assert(flipped_view(flipped_view(b@, axis), axis) =~~= b@);
}

/// Inverting twice is the identity.
pub proof fn law_invert_twice_is_identity(b: Bitmap)
    ensures
        inverted_view(inverted_view(b@)) == b@,
{
    assert(inverted_view(inverted_view(b@)) =~~= b@);
}

/// Inversion toggles every pixel, so a bitmap and its inverse together have
/// `width * height` on pixels.
pub proof fn law_invert_complements_count(b: Bitmap)
    ensures
        inverted_view(b@).count_on() + b@.count_on() == b@.width * b@.height,
{
    let v = b@;
    let iv = inverted_view(v);
    let both = Seq::new(v.height, |y: int| v.rows[y] + iv.rows[y]);
    assert forall|y: int| 0 <= y < v.height implies count_true(#[trigger] both[y]) == v.width by {
        lemma_count_true_concat(v.rows[y], iv.rows[y]);
        assert(iv.rows[y] =~= Seq::new(v.rows[y].len(), |x: int| !v.rows[y][x]));
        lemma_count_true_negated(v.rows[y]);
    }
    lemma_count_rows_uniform(both, v.width);
    lemma_count_rows_sum(v.rows, iv.rows);
    assert(v.height * v.width == v.width * v.height) by (nonlinear_arith);
}

/// The positions `x` of `row` that are on.
pub open spec fn row_on(row: Seq<bool>) -> Set<int> {
    Set::new(|x: int| 0 <= x < row.len() && row[x])
}

/// The cells `(x, y)` of `rows` that are on.
pub open spec fn rows_on(rows: Seq<Seq<bool>>) -> Set<(int, int)> {
    Set::new(|p: (int, int)| 0 <= p.1 < rows.len() && 0 <= p.0 < rows[p.1].len() && rows[p.1][p.0])
}

/// A row's on count is the number of its on positions.
proof fn lemma_row_on(row: Seq<bool>)
    ensures
        row_on(row).finite(),
        row_on(row).len() == count_true(row),
    decreases row.len(),
{
    if row.len() == 0 {
        assert(row_on(row) =~= Set::<int>::empty());
    } else {
        let p = row.drop_last();
        lemma_row_on(p);
        let n = row.len() - 1;
        if row.last() {
            assert(row_on(row) =~= row_on(p).insert(n));
            assert(!row_on(p).contains(n));
        } else {
            assert(row_on(row) =~= row_on(p));
        }
    }
}

/// The on count of some rows is the number of their on cells.
pub(crate) proof fn lemma_rows_on(rows: Seq<Seq<bool>>)
    ensures
        rows_on(rows).finite(),
        rows_on(rows).len() == count_rows(rows),
    decreases rows.len(),
{
    if rows.len() == 0 {
        assert(rows_on(rows) =~= Set::<(int, int)>::empty());
    } else {
        let p = rows.drop_last();
        lemma_rows_on(p);
        let y = rows.len() - 1;
        let last = rows.last();
        lemma_row_on(last);
        let f = |x: int| (x, y);
        let line = row_on(last).map(f);
        assert(injective_on(f, row_on(last)));
        vstd::set_lib::lemma_map_size(row_on(last), line, f);
        assert forall|q: (int, int)| #[trigger] rows_on(rows).contains(q) <== rows_on(p).contains(q) || line.contains(
            q,
        ) by {
            if line.contains(q) {
                let a = choose|a: int| row_on(last).contains(a) && f(a) == q;
                assert(q == (a, y));
            }
        }
        assert forall|q: (int, int)| #[trigger] rows_on(rows).contains(q) implies rows_on(p).contains(q) || line.contains(
            q,
        ) by {
            if q.1 == y {
                assert(row_on(last).contains(q.0));
                assert(f(q.0) == q);
            }
        }
        assert(rows_on(rows) =~= rows_on(p) + line);
        assert(rows_on(p).disjoint(line)) by {
            assert forall|q: (int, int)| rows_on(p).contains(q) implies !line.contains(q) by {
                if line.contains(q) {
                    let a = choose|a: int| row_on(last).contains(a) && f(a) == q;
                }
            }
        }
        vstd::set_lib::lemma_set_disjoint_lens(rows_on(p), line);
    }
}

/// A bitmap has no more on pixels than pixels.
pub proof fn law_count_on_is_at_most_the_area(b: Bitmap)
    ensures
        b@.count_on() <= b@.width * b@.height,
{
    law_invert_complements_count(b);
}

proof fn lemma_count_rows_sum(a: Seq<Seq<bool>>, b: Seq<Seq<bool>>)
    requires
        a.len() == b.len(),
    ensures
        count_rows(Seq::new(a.len(), |y: int| a[y] + b[y])) == count_rows(a) + count_rows(b),
    decreases a.len(),
{
    let s = Seq::new(a.len(), |y: int| a[y] + b[y]);
    if a.len() > 0 {
        let a1 = a.drop_last();
        let b1 = b.drop_last();
        lemma_count_rows_sum(a1, b1);
        assert(s.drop_last() =~= Seq::new(a1.len(), |y: int| a1[y] + b1[y]));
        lemma_count_true_concat(a.last(), b.last());
    }
}

/// A wrapping shift only permutes pixels, so it preserves the on-pixel count.
pub proof fn law_wrap_shift_preserves_count(b: Bitmap, dx: int, dy: int)
    ensures
        shifted_view(b@, dx, dy, OverflowPolicy::Wrap).count_on() == b@.count_on(),
{
    let v = b@;
    let sv = shifted_view(v, dx, dy, OverflowPolicy::Wrap);
    if v.height == 0 {
        assert(sv.rows =~= Seq::<Seq<bool>>::empty());
        assert(v.rows =~= Seq::<Seq<bool>>::empty());
        return;
    }
    let h = v.height as int;
    let moved = Seq::new(v.height, |y: int| v.rows[(y - dy) % h]);
    if v.width == 0 {
        assert forall|y: int| 0 <= y < h implies count_true(#[trigger] sv.rows[y]) == count_true(
            moved[y],
        ) by {
            lemma_rotation_index(y, dy, h);
            assert(sv.rows[y] =~= Seq::<bool>::empty());
            assert(moved[y] =~= Seq::<bool>::empty());
        }
    } else {
        assert forall|y: int| 0 <= y < h implies count_true(#[trigger] sv.rows[y]) == count_true(
            moved[y],
        ) by {
            lemma_rotation_index(y, dy, h);
            let src = moved[y];
            assert(src.len() == v.width);
            assert(sv.rows[y] =~= Seq::new(src.len(), |x: int| src[(x - dx) % (src.len() as int)]));
            lemma_rotated_row_count(src, dx);
        }
    }
    lemma_count_rows_pointwise(sv.rows, moved);
    lemma_rotated_rows_count(v.rows, dy);
}

/// The packed representation is canonical: two bitmaps with the same pixels have
/// the same bytes (the padding bits, never set, cannot tell them apart).
pub proof fn law_view_determines_bytes(a: Bitmap, b: Bitmap)
    requires
        a.well_formed(),
        b.well_formed(),
        a@ == b@,
    ensures
        a.bytes() == b.bytes(),
{
    assert(a.width == b@.width);
    assert(a.height == b@.height);
    let bpr = row_bytes(a.width as nat) as int;
    let len = a.packed_rows@.len();
    assert forall|k: int| 0 <= k < len implies a.packed_rows@[k] == b.packed_rows@[k] by {
        assert(bpr > 0) by (nonlinear_arith)
            requires
                0 <= k < bpr * a.height,
                bpr >= 0,
                a.height >= 0,
        ;
        assert(bpr * a.height == a.height * bpr) by (nonlinear_arith);
        lemma_index_split(k, a.height as int, bpr);
        let y = k / bpr;
        let c = k % bpr;
        let ba = a.packed_rows@[k];
        let bb = b.packed_rows@[k];
        assert(a.byte_at(y, c) == ba);
        assert(b.byte_at(y, c) == bb);
        assert forall|i: u8| i < 8 implies #[trigger] bit_of(ba, i) == bit_of(bb, i) by {
            let x = 8 * c + 7 - i;
            if x < a.width {
                lemma_fundamental_div_mod_converse(x, 8, c, 7 - i);
                assert(0 <= y < a.height);
                assert(a@.rows[y] == Seq::new(a.width as nat, |x: int| a.pix(x, y)));
                assert(b@.rows[y] == Seq::new(b.width as nat, |x: int| b.pix(x, y)));
                assert(a@.rows[y][x] == b@.rows[y][x]);
                assert(0 <= x < a.width);
                assert(a@.rows[y][x] == a.pix(x, y));
                assert(b@.rows[y][x] == b.pix(x, y));
            }
        }
        lemma_byte_from_bits(ba, bb);
    }
    assert(a.packed_rows@ =~= b.packed_rows@);
}

} // verus!
