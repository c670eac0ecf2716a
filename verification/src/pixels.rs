//! The two textual encodings of the storage format: a character `code` as a hex
//! string, and a glyph bitmap as visual rows of `#` (on) and `.` (off). These are
//! context-free; the loader attaches object context to any failure.

use vstd::prelude::*;

use crate::bitmap::{Bitmap, BitmapView};
use crate::geometry::GlyphSize;
use crate::search::{first_where, lemma_first_where_is, lemma_first_where_none};
use crate::text::{
    chars_of, digit_char, digits_value, hex, push_char, push_hex_padded, trim, trim_chars, trim_end,
    trim_start, unsigned_value, white_space, zero_padded, parse_unsigned, slice_chars,
};

verus! {

/// The canonical off pixel.
pub const OFF: char = '.';

/// The canonical on pixel.
pub const ON: char = '#';

/// The canonical text of a code: `0x` and at least two lowercase hex digits.
pub open spec fn code_text(code: u32) -> Seq<char> {
    "0x"@ + zero_padded(hex(code as nat, false), 2)
}

/// Formats a code as a lowercase `0x` hex string of at least two digits (`0x41`,
/// `0x00`, `0xe000`): the form written on save.
pub fn format_code(code: u32) -> (s: String)
    ensures
        s@ == code_text(code),
{
    let mut s = String::new();
    crate::text::push_str(&mut s, "0x");
    push_hex_padded(&mut s, code as u64, 2, false);
    s
}

/// What a number reads as: a `0x`/`0X` prefix means hex, otherwise decimal; `None`
/// for anything else or anything beyond `u32::MAX`.
pub open spec fn number_value(t: Seq<char>) -> Option<u32> {
    let v = if t.len() >= 2 && t[0] == '0' && (t[1] == 'x' || t[1] == 'X') {
        unsigned_value(t.skip(2), 16)
    } else {
        unsigned_value(t, 10)
    };
    match v {
        Some(n) => if n <= u32::MAX {
            Some(n as u32)
        } else {
            None
        },
        None => None,
    }
}

/// What a code string reads as: after trimming white space, a hex or decimal
/// number (see [`number_value`]).
pub open spec fn code_value(text: Seq<char>) -> Option<u32> {
    number_value(trim(text))
}

/// Reads `t` as a `0x`-prefixed hex or a decimal number.
pub fn parse_number(t: &Vec<char>) -> (r: Option<u32>)
    ensures
        r == number_value(t@),
{
    let v = if t.len() >= 2 && t[0] == '0' && (t[1] == 'x' || t[1] == 'X') {
        let digits = slice_chars(t, 2, t.len());
        proof {
            assert(digits@ =~= t@.skip(2));
        }
        parse_unsigned(&digits, 16, 0xffff_ffff)
    } else {
        parse_unsigned(t, 10, 0xffff_ffff)
    };
    match v {
        Some(n) => Some(n as u32),
        None => None,
    }
}

/// Parses a code leniently: a `0x`/`0X` prefix means hex, otherwise decimal.
pub fn parse_code(text: &str) -> (r: Option<u32>)
    ensures
        r == code_value(text@),
{
    let all = chars_of(text);
    let t = trim_chars(&all);
    parse_number(&t)
}

/// The character for one pixel.
pub open spec fn pixel_char(on: bool) -> char {
    if on {
        '#'
    } else {
        '.'
    }
}

/// One bitmap row as visual text.
pub open spec fn row_text(row: Seq<bool>) -> Seq<char> {
    row.map_values(|on: bool| pixel_char(on))
}

/// Formats a bitmap as visual rows: one string per row, `#` for on and `.` for off.
pub fn format_rows(bitmap: &Bitmap) -> (rows: Vec<String>)
    ensures
        rows@.len() == bitmap@.height,
        forall|y: int| 0 <= y < rows@.len() ==> #[trigger] rows@[y]@ == row_text(bitmap@.rows[y]),
{
    let w = bitmap.width();
    let h = bitmap.height();
    let mut rows: Vec<String> = Vec::new();
    let mut y: u16 = 0;
    while y < h
        invariant
            y <= h,
            w == bitmap@.width,
            h == bitmap@.height,
            rows@.len() == y,
            forall|j: int| 0 <= j < y ==> #[trigger] rows@[j]@ == row_text(bitmap@.rows[j]),
        decreases h - y,
    {
        let mut line = String::new();
        let mut x: u16 = 0;
        while x < w
            invariant
                x <= w,
                y < h,
                w == bitmap@.width,
                h == bitmap@.height,
                line@ == row_text(bitmap@.rows[y as int]).take(x as int),
            decreases w - x,
        {
            let on = match bitmap.get(x, y) {
                Ok(v) => v,
                Err(_) => false,
            };
            push_char(&mut line, if on { ON } else { OFF });
            proof {
                assert(line@ =~= row_text(bitmap@.rows[y as int]).take(x + 1));
            }
            x = x + 1;
        }
        proof {
            assert(row_text(bitmap@.rows[y as int]).take(w as int) =~= row_text(bitmap@.rows[y as int]));
        }
        rows.push(line);
        y = y + 1;
    }
    rows
}

/// Why a block of visual rows does not describe a bitmap of the expected size.
#[derive(Debug, Clone, Copy, PartialEq, Eq, Structural)]
pub enum RowError {
    RowCount { expected: u16, found: usize },
    RowWidth { row: usize, expected: u16, found: usize },
    InvalidChar { row: usize, column: usize, ch: char },
}

/// A canonical pixel character.
pub open spec fn is_pixel_char(c: char) -> bool {
    c == '.' || c == '#'
}

/// A row that is exactly `width` canonical pixel characters.
pub open spec fn row_ok(row: Seq<char>, width: nat) -> bool {
    row.len() == width && forall|x: int| 0 <= x < row.len() ==> is_pixel_char(#[trigger] row[x])
}

/// The error for bad row `y`: its width if wrong, else its first non-canonical
/// character.
pub open spec fn row_error(row: Seq<char>, y: int, width: u16) -> RowError {
    if row.len() != width {
        RowError::RowWidth { row: y as usize, expected: width, found: row.len() as usize }
    } else {
        let x = first_where(row.len() as int, |x: int| !is_pixel_char(row[x]))->0;
        RowError::InvalidChar { row: y as usize, column: x as usize, ch: row[x] }
    }
}

/// What a block of visual rows reads as for a bitmap of `size`: exactly `height`
/// rows, each exactly `width` characters (Unicode scalars), only `.` and `#`;
/// otherwise the first problem, row by row.
pub open spec fn rows_result(rows: Seq<Seq<char>>, size: GlyphSize) -> Result<BitmapView, RowError> {
    if rows.len() != size.height {
        Err(RowError::RowCount { expected: size.height, found: rows.len() as usize })
    } else {
        match first_where(rows.len() as int, |y: int| !row_ok(rows[y], size.width as nat)) {
            Some(y) => Err(row_error(rows[y], y, size.width)),
            None => Ok(
                BitmapView::from_fn(size.width as nat, size.height as nat, |x: int, y: int| rows[y][x] == '#'),
            ),
        }
    }
}

/// The characters of each row.
pub open spec fn rows_chars(rows: Seq<String>) -> Seq<Seq<char>> {
    rows.map_values(|s: String| s@)
}

/// Reads one row into `bitmap` as row `y`, or finds its problem.
fn parse_row(row: &String, y: u16, size: GlyphSize, bitmap: &mut Bitmap) -> (r: Result<(), RowError>)
    requires
        y < size.height,
        old(bitmap).well_formed(),
        old(bitmap)@.width == size.width,
        old(bitmap)@.height == size.height,
        old(bitmap)@.wf(),
        forall|x: int| 0 <= x < size.width ==> !#[trigger] old(bitmap)@.rows[y as int][x],
    ensures
        row_ok(row@, size.width as nat) ==> r is Ok,
        !row_ok(row@, size.width as nat) ==> r == Err::<(), RowError>(row_error(row@, y as int, size.width)),
        r is Ok ==> {
            &&& final(bitmap).well_formed()
            &&& final(bitmap)@.width == size.width
            &&& final(bitmap)@.height == size.height
            &&& final(bitmap)@.wf()
            &&& forall|x: int, j: int|
                0 <= x < size.width && 0 <= j < size.height ==> #[trigger] final(bitmap)@.rows[j][x] == if j == y {
                    row@[x] == '#'
                } else {
                    old(bitmap)@.rows[j][x]
                }
        },
{
    let cs = chars_of(row.as_str());
    if cs.len() != size.width as usize {
        return Err(RowError::RowWidth { row: y as usize, expected: size.width, found: cs.len() });
    }
    let ghost p = |x: int| !is_pixel_char(row@[x]);
    let mut x: usize = 0;
    while x < cs.len()
        invariant
            x <= cs@.len(),
            cs@ == row@,
            cs@.len() == size.width,
            y < size.height,
            p == (|x: int| !is_pixel_char(row@[x])),
            forall|k: int| 0 <= k < x ==> !#[trigger] p(k),
            forall|k: int| 0 <= k < size.width ==> !#[trigger] old(bitmap)@.rows[y as int][k],
            bitmap.well_formed(),
            bitmap@.width == size.width,
            bitmap@.height == size.height,
            bitmap@.wf(),
            forall|k: int, j: int|
                0 <= k < size.width && 0 <= j < size.height ==> #[trigger] bitmap@.rows[j][k] == if j == y && k < x {
                    row@[k] == '#'
                } else {
                    old(bitmap)@.rows[j][k]
                },
        decreases cs@.len() - x,
    {
        let c = cs[x];
        let ghost before = bitmap@;
        if c == ON {
            let _ = bitmap.set(x as u16, y, true);
            proof {
                assert(bitmap@ == before.with_pixel(x as int, y as int, true));
                assert forall|k: int, j: int|
                    0 <= k < size.width && 0 <= j < size.height implies #[trigger] bitmap@.rows[j][k] == if j == y && k < x + 1 {
                        row@[k] == '#'
                    } else {
                        old(bitmap)@.rows[j][k]
                    } by {
                    assert(before.rows[j][k] == if j == y && k < x {
                        row@[k] == '#'
                    } else {
                        old(bitmap)@.rows[j][k]
                    });
                }
            }
        } else if c != OFF {
            proof {
                lemma_first_where_is(row@.len() as int, p, x as int);
            }
            return Err(RowError::InvalidChar { row: y as usize, column: x, ch: c });
        }
        proof {
            assert(!p(x as int));
            if c == OFF {
                assert forall|k: int, j: int|
                    0 <= k < size.width && 0 <= j < size.height implies #[trigger] bitmap@.rows[j][k] == if j == y && k < x + 1 {
                        row@[k] == '#'
                    } else {
                        old(bitmap)@.rows[j][k]
                    } by {
                    assert(before.rows[j][k] == if j == y && k < x {
                        row@[k] == '#'
                    } else {
                        old(bitmap)@.rows[j][k]
                    });
                }
            }
        }
        x = x + 1;
    }
    proof {
        assert forall|k: int| 0 <= k < row@.len() implies is_pixel_char(#[trigger] row@[k]) by {
            assert(!p(k));
        }
    }
    Ok(())
}

/// Parses visual rows into a bitmap of `size`: exactly `height` rows, each exactly
/// `width` Unicode scalars, only `.` and `#`.
pub fn parse_rows(rows: &[String], size: GlyphSize) -> (r: Result<Bitmap, RowError>)
    ensures
        match rows_result(rows_chars(rows@), size) {
            Ok(v) => (r matches Ok(b) && b@ == v && b.well_formed()),
            Err(e) => r == Err::<Bitmap, RowError>(e),
        },
{
    let ghost texts = rows_chars(rows@);
    if rows.len() != size.height as usize {
        return Err(RowError::RowCount { expected: size.height, found: rows.len() });
    }
    let ghost p = |y: int| !row_ok(texts[y], size.width as nat);
    let mut bitmap = Bitmap::new_blank(size);
    let mut y: usize = 0;
    while y < rows.len()
        invariant
            y <= rows@.len(),
            rows@.len() == size.height,
            texts == rows_chars(rows@),
            p == (|y: int| !row_ok(texts[y], size.width as nat)),
            forall|j: int| 0 <= j < y ==> !#[trigger] p(j),
            bitmap.well_formed(),
            bitmap@.width == size.width,
            bitmap@.height == size.height,
            bitmap@.wf(),
            forall|x: int, j: int|
                0 <= x < size.width && 0 <= j < size.height ==> #[trigger] bitmap@.rows[j][x] == (j < y
                    && texts[j][x] == '#'),
        decreases rows@.len() - y,
    {
        let ghost before = bitmap@;
        assert(texts[y as int] == rows@[y as int]@);
        match parse_row(&rows[y], y as u16, size, &mut bitmap) {
            Err(e) => {
                proof {
                    lemma_first_where_is(texts.len() as int, p, y as int);
                }
                return Err(e);
            },
            Ok(()) => {},
        }
        proof {
            assert(!p(y as int));
        }
        y = y + 1;
    }
    proof {
        lemma_first_where_none(texts.len() as int, p);
        let want = BitmapView::from_fn(size.width as nat, size.height as nat, |x: int, j: int| texts[j][x] == '#');
        assert(bitmap@.rows =~~= want.rows);
    }
    Ok(bitmap)
}


// ---- round trips ----

proof fn lemma_hex_digit_value(d: nat)
    requires
        d < 16,
    ensures
        crate::text::digit_value(digit_char(d, false), 16) == Some(d),
        !white_space(digit_char(d, false)),
        digit_char(d, false) != '+',
{
}

proof fn lemma_hex_value(n: nat)
    ensures
        digits_value(hex(n, false), 16) == Some(n),
        hex(n, false).len() >= 1,
        !white_space(hex(n, false).last()),
        hex(n, false)[0] != '+',
        !white_space(hex(n, false)[0]),
    decreases n,
{
    if n < 16 {
        lemma_hex_digit_value(n);
        let one = seq![digit_char(n, false)];
        assert(one.drop_last() =~= Seq::<char>::empty());
        assert(digits_value(Seq::<char>::empty(), 16) == Some(0nat));
        assert(digits_value(one, 16) == Some(0nat * 16 + n));
        assert(hex(n, false) == one);
    } else {
        lemma_hex_value(n / 16);
        lemma_hex_digit_value(n % 16);
        let h = hex(n / 16, false);
        assert((n / 16) * 16 + n % 16 == n) by (nonlinear_arith);
        assert(hex(n, false).drop_last() =~= h);
        assert(hex(n, false).last() == digit_char(n % 16, false));
        assert(digits_value(hex(n, false), 16) == Some((n / 16) * 16 + n % 16));
        assert(hex(n, false)[0] == h[0]);
    }
}

proof fn lemma_zeros_value(k: nat)
    ensures
        digits_value(Seq::new(k, |i: int| '0'), 16) == Some(0nat),
    decreases k,
{
    if k > 0 {
        lemma_zeros_value((k - 1) as nat);
        assert(Seq::new(k, |i: int| '0').drop_last() =~= Seq::new((k - 1) as nat, |i: int| '0'));
    }
}

proof fn lemma_leading_zeros_value(k: nat, s: Seq<char>)
    ensures
        digits_value(Seq::new(k, |i: int| '0') + s, 16) == digits_value(s, 16),
    decreases s.len(),
{
    let z = Seq::new(k, |i: int| '0');
    if s.len() == 0 {
        assert(z + s =~= z);
        lemma_zeros_value(k);
    } else {
        lemma_leading_zeros_value(k, s.drop_last());
        assert((z + s).drop_last() =~= z + s.drop_last());
        assert((z + s).last() == s.last());
    }
}

/// A code reads back as itself from its canonical text.
pub proof fn law_code_round_trip(code: u32)
    ensures
        code_value(code_text(code)) == Some(code),
{
    reveal_strlit("0x");
    let h = hex(code as nat, false);
    lemma_hex_value(code as nat);
    let padded = zero_padded(h, 2);
    let t = code_text(code);
    if h.len() >= 2 {
        assert(padded == h);
        lemma_leading_zeros_value(0, h);
        assert(Seq::new(0, |i: int| '0') + h =~= h);
    } else {
        lemma_leading_zeros_value((2 - h.len()) as nat, h);
    }
    assert(digits_value(padded, 16) == Some(code as nat));
    assert(padded.len() >= 1);
    assert(padded.last() == h.last());
    assert(padded[0] == '0' || padded[0] == h[0]);
    assert(t.skip(2) =~= padded);
    assert(t.len() >= 3);
    assert(t[0] == '0');
    assert(t[1] == 'x');
    assert(t.last() == padded.last());
    assert(!white_space(t[0]));
    assert(trim_start(t) == t);
    assert(trim_end(t) == t);
    assert(trim(t) == t);
}

/// The visual rows of a bitmap view.
pub open spec fn view_rows(v: BitmapView) -> Seq<Seq<char>> {
    v.rows.map_values(|row: Seq<bool>| row_text(row))
}

/// A bitmap reads back as itself from its visual rows.
pub proof fn law_rows_round_trip(v: BitmapView)
    requires
        v.wf(),
        v.width <= u16::MAX,
        v.height <= u16::MAX,
    ensures
        rows_result(view_rows(v), GlyphSize { width: v.width as u16, height: v.height as u16 }) == Ok::<
            BitmapView,
            RowError,
        >(v),
{
    let rows = view_rows(v);
    let size = GlyphSize { width: v.width as u16, height: v.height as u16 };
    let p = |y: int| !row_ok(rows[y], size.width as nat);
    assert forall|y: int| 0 <= y < rows.len() implies !#[trigger] p(y) by {
        assert(rows[y] == row_text(v.rows[y]));
        assert forall|x: int| 0 <= x < rows[y].len() implies is_pixel_char(#[trigger] rows[y][x]) by {
            assert(rows[y][x] == pixel_char(v.rows[y][x]));
        }
    }
    lemma_first_where_none(rows.len() as int, p);
    let want = BitmapView::from_fn(size.width as nat, size.height as nat, |x: int, y: int| rows[y][x] == '#');
    assert forall|y: int| 0 <= y < v.height implies #[trigger] want.rows[y] =~= v.rows[y] by {
        assert forall|x: int| 0 <= x < v.width implies want.rows[y][x] == v.rows[y][x] by {
            assert(rows[y][x] == pixel_char(v.rows[y][x]));
        }
    }
    assert(want.rows =~= v.rows);
}
/// Visual rows that read as a bitmap are exactly that bitmap's visual rows: a row
/// of canonical pixel characters formats back to itself.
pub proof fn law_rows_text_round_trip(rows: Seq<Seq<char>>, size: GlyphSize)
    ensures
        rows_result(rows, size) matches Ok(v) ==> v.height == rows.len() && view_rows(v) == rows && forall|y: int|
            0 <= y < rows.len() ==> row_ok(#[trigger] rows[y], size.width as nat),
{
    if rows_result(rows, size) is Ok && rows.len() == size.height {
        let p = |y: int| !row_ok(rows[y], size.width as nat);
        let v = BitmapView::from_fn(size.width as nat, size.height as nat, |x: int, y: int| rows[y][x] == '#');
        assert(first_where(rows.len() as int, p) is None);
        assert forall|y: int| 0 <= y < rows.len() implies #[trigger] view_rows(v)[y] =~= rows[y] by {
            if !row_ok(rows[y], size.width as nat) {
                assert(p(y));
            }
            assert forall|x: int| 0 <= x < rows[y].len() implies view_rows(v)[y][x] == rows[y][x] by {
                assert(is_pixel_char(rows[y][x]));
            }
        }
        assert(view_rows(v) =~= rows);
        assert forall|y: int| 0 <= y < rows.len() implies row_ok(#[trigger] rows[y], size.width as nat) by {
            if !row_ok(rows[y], size.width as nat) {
                assert(p(y));
            }
        }
    }
}
/// Rows of the right count and width made of canonical pixel characters read as a
/// bitmap.
pub proof fn lemma_canonical_rows_read(rows: Seq<Seq<char>>, size: GlyphSize)
    requires
        rows.len() == size.height,
        forall|y: int| 0 <= y < rows.len() ==> row_ok(#[trigger] rows[y], size.width as nat),
    ensures
        rows_result(rows, size) is Ok,
{
    let p = |y: int| !row_ok(rows[y], size.width as nat);
    assert forall|y: int| 0 <= y < rows.len() implies !#[trigger] p(y) by {}
    lemma_first_where_none(rows.len() as int, p);
}
} // verus!
