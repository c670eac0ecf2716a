//! Rectangular pixel-region selection and its transforms: a marquee rectangle over
//! glyph cells, and the pixel edits that mirror, stamp or rotate a region. Edits are
//! listed row by row and, applied in order, perform the transform.

use vstd::prelude::*;

use crate::bitmap::{lemma_rows_on, rows_on, Bitmap, BitmapView};
use vstd::relations::injective_on;
use crate::geometry::GlyphSize;

verus! {

/// One pixel assignment: set `(x, y)` to `value`.
#[derive(Debug, Clone, Copy, PartialEq, Eq, Structural)]
pub struct PixelEdit {
    pub x: u16,
    pub y: u16,
    pub value: bool,
}

/// A rectangular selection of glyph cells, inclusive of both corners.
#[derive(Debug, Clone, Copy, PartialEq, Eq, Structural)]
pub struct PixelRect {
    pub x0: u16,
    pub y0: u16,
    pub x1: u16,
    pub y1: u16,
}

/// A rectangle whose corners are ordered and whose sides fit in a `u16`.
pub open spec fn rect_ok(r: PixelRect) -> bool {
    r.x0 <= r.x1 && r.y0 <= r.y1 && r.x1 - r.x0 < u16::MAX && r.y1 - r.y0 < u16::MAX
}

/// The width of a rectangle, in cells.
pub open spec fn rect_width(r: PixelRect) -> nat {
    (r.x1 - r.x0 + 1) as nat
}

/// The height of a rectangle, in cells.
pub open spec fn rect_height(r: PixelRect) -> nat {
    (r.y1 - r.y0 + 1) as nat
}

impl PixelRect {
    /// The normalized rectangle spanning two corner cells (either drag order).
    pub fn from_corners(a: (u16, u16), b: (u16, u16)) -> (r: Self)
        ensures
            r.x0 == if a.0 <= b.0 { a.0 } else { b.0 },
            r.y0 == if a.1 <= b.1 { a.1 } else { b.1 },
            r.x1 == if a.0 <= b.0 { b.0 } else { a.0 },
            r.y1 == if a.1 <= b.1 { b.1 } else { a.1 },
    {
        PixelRect {
            x0: if a.0 <= b.0 { a.0 } else { b.0 },
            y0: if a.1 <= b.1 { a.1 } else { b.1 },
            x1: if a.0 <= b.0 { b.0 } else { a.0 },
            y1: if a.1 <= b.1 { b.1 } else { a.1 },
        }
    }

    /// The number of columns the rectangle spans.
    pub fn width(&self) -> (w: u16)
        requires
            self.x0 <= self.x1,
            self.x1 - self.x0 < u16::MAX,
        ensures
            w == rect_width(*self),
    {
        self.x1 - self.x0 + 1
    }

    /// The number of rows the rectangle spans.
    pub fn height(&self) -> (h: u16)
        requires
            self.y0 <= self.y1,
            self.y1 - self.y0 < u16::MAX,
        ensures
            h == rect_height(*self),
    {
        self.y1 - self.y0 + 1
    }
}

/// Which way to mirror a region.
#[derive(Debug, Clone, Copy, PartialEq, Eq, Structural)]
pub enum FlipDir {
    /// Mirror left and right about the selection's vertical center.
    LeftRight,
    /// Mirror top and bottom about the selection's horizontal center.
    TopBottom,
}

/// Pixel `(x, y)` of `v`, off outside the grid.
pub open spec fn pixel_at(v: BitmapView, x: int, y: int) -> bool {
    0 <= x < v.width && 0 <= y < v.height && v.rows[y][x]
}

fn read_pixel(bitmap: &Bitmap, x: u16, y: u16) -> (on: bool)
    ensures
        on == pixel_at(bitmap@, x as int, y as int),
{
    match bitmap.get(x, y) {
        Ok(v) => v,
        Err(_) => false,
    }
}

/// `(x, y)`'s mirror partner within `r`.
pub open spec fn mirror(r: PixelRect, dir: FlipDir, x: int, y: int) -> (int, int) {
    match dir {
        FlipDir::LeftRight => (r.x0 + r.x1 - x, y),
        FlipDir::TopBottom => (x, r.y0 + r.y1 - y),
    }
}

/// The edit for cell `(dx, dy)` of `r` (relative to its top-left) that mirrors it.
pub open spec fn flip_edit(v: BitmapView, r: PixelRect, dir: FlipDir, dx: int, dy: int) -> PixelEdit {
    let (sx, sy) = mirror(r, dir, r.x0 + dx, r.y0 + dy);
    PixelEdit { x: (r.x0 + dx) as u16, y: (r.y0 + dy) as u16, value: pixel_at(v, sx, sy) }
}

/// Edit `k` of a row-major walk of a `w`-wide grid is cell `(k % w, k / w)`.
proof fn lemma_row_major(dy: int, dx: int, w: int)
    requires
        w > 0,
        0 <= dx < w,
        0 <= dy,
    ensures
        (dy * w + dx) / w == dy,
        (dy * w + dx) % w == dx,
        (dy + 1) * w == dy * w + w,
{
    vstd::arithmetic::div_mod::lemma_fundamental_div_mod_converse(dy * w + dx, w, dy, dx);
    assert((dy + 1) * w == dy * w + w) by (nonlinear_arith);
}

/// The edits that mirror `rect` of `bitmap` in place, row by row. Each cell takes
/// the value of its mirror partner within the rectangle; values are read from
/// `bitmap`, so applying the whole list at once is a correct flip.
pub fn flip_edits(bitmap: &Bitmap, rect: PixelRect, dir: FlipDir) -> (edits: Vec<PixelEdit>)
    requires
        rect_ok(rect),
    ensures
        edits@.len() == rect_width(rect) * rect_height(rect),
        forall|dx: int, dy: int|
            0 <= dx < rect_width(rect) && 0 <= dy < rect_height(rect) ==> #[trigger] edits@[dy * rect_width(rect) + dx]
                == flip_edit(bitmap@, rect, dir, dx, dy),
{
    let w = rect.width();
    let h = rect.height();
    let ghost wi = w as int;
    let mut edits: Vec<PixelEdit> = Vec::new();
    let mut dy: u16 = 0;
    while dy < h
        invariant
            dy <= h,
            w == rect_width(rect),
            h == rect_height(rect),
            wi == w,
            rect_ok(rect),
            edits@.len() == dy * wi,
            forall|cx: int, cy: int|
                0 <= cx < wi && 0 <= cy < dy ==> #[trigger] edits@[cy * wi + cx] == flip_edit(bitmap@, rect, dir, cx, cy),
        decreases h - dy,
    {
        let ghost row_start = edits@.len();
        let mut dx: u16 = 0;
        while dx < w
            invariant
                dx <= w,
                dy < h,
                w == rect_width(rect),
                h == rect_height(rect),
                wi == w,
                rect_ok(rect),
                row_start == dy * wi,
                edits@.len() == row_start + dx,
                forall|cx: int, cy: int|
                    0 <= cx < wi && 0 <= cy < dy ==> #[trigger] edits@[cy * wi + cx] == flip_edit(bitmap@, rect, dir, cx, cy),
                forall|cx: int| 0 <= cx < dx ==> #[trigger] edits@[row_start + cx] == flip_edit(bitmap@, rect, dir, cx, dy as int),
            decreases w - dx,
        {
            let x = rect.x0 + dx;
            let y = rect.y0 + dy;
            let (sx, sy) = match dir {
                FlipDir::LeftRight => (rect.x1 - dx, y),
                FlipDir::TopBottom => (x, rect.y1 - dy),
            };
            let value = read_pixel(bitmap, sx, sy);
            edits.push(PixelEdit { x, y, value });
            proof {
                assert forall|cx: int, cy: int|
                    0 <= cx < wi && 0 <= cy < dy implies #[trigger] edits@[cy * wi + cx] == flip_edit(bitmap@, rect, dir, cx, cy) by {
                    assert(cy * wi + cx < dy * wi) by (nonlinear_arith)
                        requires
                            0 <= cy < dy,
                            0 <= cx < wi,
                    ;
                }
            }
            dx = dx + 1;
        }
        proof {
            assert forall|cx: int, cy: int|
                0 <= cx < wi && 0 <= cy < dy + 1 implies #[trigger] edits@[cy * wi + cx] == flip_edit(bitmap@, rect, dir, cx, cy) by {
                if cy == dy {
                    assert(edits@[row_start + cx] == flip_edit(bitmap@, rect, dir, cx, dy as int));
                }
            }
            assert((dy + 1) * wi == dy * wi + wi) by (nonlinear_arith);
        }
        dy = dy + 1;
    }
    proof {
        assert(h * wi == wi * h) by (nonlinear_arith);
    }
    edits
}

/// The pixels of `rect` of `v`, as a `width`×`height` grid in local coordinates.
pub open spec fn extract_view(v: BitmapView, r: PixelRect) -> BitmapView {
    BitmapView::from_fn(rect_width(r), rect_height(r), |dx: int, dy: int| pixel_at(v, r.x0 + dx, r.y0 + dy))
}

/// Copies the pixels inside `rect` into a fresh `width`×`height` bitmap: the region
/// clipboard. Cells of the rectangle outside the bitmap read off.
pub fn region_extract(bitmap: &Bitmap, rect: PixelRect) -> (out: Bitmap)
    requires
        rect_ok(rect),
    ensures
        out@ == extract_view(bitmap@, rect),
        out.well_formed(),
{
    let w = rect.width();
    let h = rect.height();
    let mut out = Bitmap::new_blank(GlyphSize::new(w, h));
    let mut dy: u16 = 0;
    while dy < h
        invariant
            dy <= h,
            w == rect_width(rect),
            h == rect_height(rect),
            rect_ok(rect),
            out.well_formed(),
            out@.width == w,
            out@.height == h,
            out@.wf(),
            forall|cx: int, cy: int|
                0 <= cx < w && 0 <= cy < h ==> #[trigger] out@.rows[cy][cx] == (cy < dy && pixel_at(
                    bitmap@,
                    rect.x0 + cx,
                    rect.y0 + cy,
                )),
        decreases h - dy,
    {
        let mut dx: u16 = 0;
        while dx < w
            invariant
                dx <= w,
                dy < h,
                w == rect_width(rect),
                h == rect_height(rect),
                rect_ok(rect),
                out.well_formed(),
                out@.width == w,
                out@.height == h,
                out@.wf(),
                forall|cx: int, cy: int|
                    0 <= cx < w && 0 <= cy < h ==> #[trigger] out@.rows[cy][cx] == ((cy < dy || (cy == dy && cx < dx))
                        && pixel_at(bitmap@, rect.x0 + cx, rect.y0 + cy)),
            decreases w - dx,
        {
            if read_pixel(bitmap, rect.x0 + dx, rect.y0 + dy) {
                let _ = out.set(dx, dy, true);
            }
            dx = dx + 1;
        }
        dy = dy + 1;
    }
    proof {
        let want = extract_view(bitmap@, rect);
        assert forall|cy: int| 0 <= cy < h implies #[trigger] out@.rows[cy] =~= want.rows[cy] by {
            assert forall|cx: int| 0 <= cx < w implies out@.rows[cy][cx] == want.rows[cy][cx] by {
                assert(out@.rows[cy][cx] == pixel_at(bitmap@, rect.x0 + cx, rect.y0 + cy));
            }
        }
        assert(out@.rows =~= want.rows);
    }
    out
}

/// `v` turned a quarter clockwise: a `w`×`h` grid becomes `h`×`w`, and source
/// `(sx, sy)` lands at `(h-1-sy, sx)`.
pub open spec fn rotate_view(v: BitmapView) -> BitmapView {
    BitmapView::from_fn(v.height, v.width, |x: int, y: int| v.rows[v.height - 1 - x][y])
}

/// A quarter turn keeps the number of on pixels: it moves each cell to one cell
/// and no two to the same.
pub proof fn law_rotation_keeps_count(v: BitmapView)
    requires
        v.wf(),
    ensures
        rotate_view(v).count_on() == v.count_on(),
{
    let r = rotate_view(v);
    let h = v.height as int;
    lemma_rows_on(v.rows);
    lemma_rows_on(r.rows);
    let g = |p: (int, int)| (h - 1 - p.1, p.0);
    let src = rows_on(v.rows);
    assert(injective_on(g, src));
    assert forall|q: (int, int)| #[trigger] src.map(g).contains(q) <==> rows_on(r.rows).contains(q) by {
        if src.map(g).contains(q) {
            let a = choose|a: (int, int)| src.contains(a) && g(a) == q;
            assert(r.rows[q.1][q.0] == v.rows[h - 1 - q.0][q.1]);
        }
        if rows_on(r.rows).contains(q) {
            let a = (q.1, h - 1 - q.0);
            assert(r.rows[q.1][q.0] == v.rows[h - 1 - q.0][q.1]);
            assert(src.contains(a));
            assert(g(a) == q);
        }
    }
    assert(src.map(g) =~= rows_on(r.rows));
    vstd::set_lib::lemma_map_size(src, rows_on(r.rows), g);
}

/// A copy of `patch` rotated 90° clockwise; the result dimensions are swapped.
pub fn rotate_cw(patch: &Bitmap) -> (out: Bitmap)
    ensures
        out@ == rotate_view(patch@),
        out.well_formed(),
{
    let w = patch.width();
    let h = patch.height();
    let mut out = Bitmap::new_blank(GlyphSize::new(h, w));
    let mut sy: u16 = 0;
    while sy < h
        invariant
            sy <= h,
            w == patch@.width,
            h == patch@.height,
            patch@.wf(),
            out.well_formed(),
            out@.width == h,
            out@.height == w,
            out@.wf(),
            forall|x: int, y: int|
                0 <= x < h && 0 <= y < w ==> #[trigger] out@.rows[y][x] == (h - 1 - x < sy && patch@.rows[h - 1 - x][y]),
        decreases h - sy,
    {
        let mut sx: u16 = 0;
        while sx < w
            invariant
                sx <= w,
                sy < h,
                w == patch@.width,
                h == patch@.height,
                patch@.wf(),
                out.well_formed(),
                out@.width == h,
                out@.height == w,
                out@.wf(),
                forall|x: int, y: int|
                    0 <= x < h && 0 <= y < w ==> #[trigger] out@.rows[y][x] == ((h - 1 - x < sy || (h - 1 - x == sy && y
                        < sx)) && patch@.rows[h - 1 - x][y]),
            decreases w - sx,
        {
            if read_pixel(patch, sx, sy) {
                let _ = out.set(h - 1 - sy, sx, true);
            }
            sx = sx + 1;
        }
        sy = sy + 1;
    }
    proof {
        let want = rotate_view(patch@);
        assert forall|y: int| 0 <= y < w implies #[trigger] out@.rows[y] =~= want.rows[y] by {
            assert forall|x: int| 0 <= x < h implies out@.rows[y][x] == want.rows[y][x] by {
                assert(out@.rows[y][x] == patch@.rows[h - 1 - x][y]);
            }
        }
        assert(out@.rows =~= want.rows);
    }
    out
}

/// Four quarter turns give back the original grid.
pub proof fn law_four_rotations_are_the_identity(v: BitmapView)
    requires
        v.wf(),
    ensures
        rotate_view(rotate_view(rotate_view(rotate_view(v)))) == v,
{
    let r1 = rotate_view(v);
    let r2 = rotate_view(r1);
    let r3 = rotate_view(r2);
    let r4 = rotate_view(r3);
    assert forall|y: int| 0 <= y < v.height implies #[trigger] r4.rows[y] =~= v.rows[y] by {
        assert forall|x: int| 0 <= x < v.width implies r4.rows[y][x] == v.rows[y][x] by {
            assert(r4.rows[y][x] == r3.rows[r3.height - 1 - x][y]);
            assert(r3.rows[r3.height - 1 - x][y] == r2.rows[r2.height - 1 - y][r3.height - 1 - x]);
        }
    }
    assert(r4.rows =~= v.rows);
}


/// How many of `len` cells starting at `origin` fit below `limit`.
pub open spec fn clipped(len: nat, origin: nat, limit: nat) -> nat {
    if origin >= limit {
        0
    } else if len <= limit - origin {
        len
    } else {
        (limit - origin) as nat
    }
}

/// The edit that stamps patch cell `(px, py)` at `origin`.
pub open spec fn stamp_edit(patch: BitmapView, origin: (u16, u16), px: int, py: int) -> PixelEdit {
    PixelEdit { x: (origin.0 + px) as u16, y: (origin.1 + py) as u16, value: patch.rows[py][px] }
}

/// The edits that stamp `patch` into a `glyph`-sized bitmap with its top-left at
/// `origin`, replacing the destination cells (on and off), row by row. Cells that
/// fall outside the glyph are clipped.
pub fn stamp_edits(patch: &Bitmap, origin: (u16, u16), glyph: GlyphSize) -> (edits: Vec<PixelEdit>)
    ensures
        ({
            let cw = clipped(patch@.width, origin.0 as nat, glyph.width as nat);
            let ch = clipped(patch@.height, origin.1 as nat, glyph.height as nat);
            &&& edits@.len() == cw * ch
            &&& forall|px: int, py: int|
                0 <= px < cw && 0 <= py < ch ==> #[trigger] edits@[py * cw + px] == stamp_edit(patch@, origin, px, py)
        }),
{
    let pw = patch.width();
    let ph = patch.height();
    let cw: u16 = if origin.0 >= glyph.width {
        0
    } else if pw <= glyph.width - origin.0 {
        pw
    } else {
        glyph.width - origin.0
    };
    let ch: u16 = if origin.1 >= glyph.height {
        0
    } else if ph <= glyph.height - origin.1 {
        ph
    } else {
        glyph.height - origin.1
    };
    let ghost wi = cw as int;
    let mut edits: Vec<PixelEdit> = Vec::new();
    let mut py: u16 = 0;
    while py < ch
        invariant
            py <= ch,
            ch <= ph,
            cw <= pw,
            pw == patch@.width,
            ph == patch@.height,
            patch@.wf(),
            wi == cw,
            cw > 0 ==> origin.0 + cw <= glyph.width,
            ch > 0 ==> origin.1 + ch <= glyph.height,
            edits@.len() == py * wi,
            forall|cx: int, cy: int|
                0 <= cx < wi && 0 <= cy < py ==> #[trigger] edits@[cy * wi + cx] == stamp_edit(patch@, origin, cx, cy),
        decreases ch - py,
    {
        let ghost row_start = edits@.len();
        let mut px: u16 = 0;
        while px < cw
            invariant
                px <= cw,
                py < ch,
                ch <= ph,
                cw <= pw,
                pw == patch@.width,
                ph == patch@.height,
                patch@.wf(),
                wi == cw,
                cw > 0 ==> origin.0 + cw <= glyph.width,
                ch > 0 ==> origin.1 + ch <= glyph.height,
                row_start == py * wi,
                edits@.len() == row_start + px,
                forall|cx: int, cy: int|
                    0 <= cx < wi && 0 <= cy < py ==> #[trigger] edits@[cy * wi + cx] == stamp_edit(patch@, origin, cx, cy),
                forall|cx: int| 0 <= cx < px ==> #[trigger] edits@[row_start + cx] == stamp_edit(patch@, origin, cx, py as int),
            decreases cw - px,
        {
            let value = read_pixel(patch, px, py);
            edits.push(PixelEdit { x: origin.0 + px, y: origin.1 + py, value });
            proof {
                assert forall|cx: int, cy: int|
                    0 <= cx < wi && 0 <= cy < py implies #[trigger] edits@[cy * wi + cx] == stamp_edit(patch@, origin, cx, cy) by {
                    assert(cy * wi + cx < py * wi) by (nonlinear_arith)
                        requires
                            0 <= cy < py,
                            0 <= cx < wi,
                    ;
                }
            }
            px = px + 1;
        }
        proof {
            assert forall|cx: int, cy: int|
                0 <= cx < wi && 0 <= cy < py + 1 implies #[trigger] edits@[cy * wi + cx] == stamp_edit(patch@, origin, cx, cy) by {
                if cy == py {
                    assert(edits@[row_start + cx] == stamp_edit(patch@, origin, cx, py as int));
                }
            }
            assert((py + 1) * wi == py * wi + wi) by (nonlinear_arith);
        }
        py = py + 1;
    }
    proof {
        assert(ch * wi == wi * ch) by (nonlinear_arith);
    }
    edits
}

/// The edits that rotate `rect` of `bitmap` 90° clockwise, anchored at the
/// rectangle's top-left: first every cell of the rectangle cleared, row by row,
/// then the rotated region (dimensions swapped) stamped at `(x0, y0)`, clipped at
/// the glyph edge. Applied in order, the stamp wins on overlapping cells.
pub fn rotate_edits(bitmap: &Bitmap, rect: PixelRect, glyph: GlyphSize) -> (edits: Vec<PixelEdit>)
    requires
        rect_ok(rect),
    ensures
        ({
            let w = rect_width(rect);
            let h = rect_height(rect);
            let rotated = rotate_view(extract_view(bitmap@, rect));
            let cw = clipped(rotated.width, rect.x0 as nat, glyph.width as nat);
            let ch = clipped(rotated.height, rect.y0 as nat, glyph.height as nat);
            &&& edits@.len() == w * h + cw * ch
            &&& forall|dx: int, dy: int|
                0 <= dx < w && 0 <= dy < h ==> #[trigger] edits@[dy * w + dx] == (PixelEdit {
                    x: (rect.x0 + dx) as u16,
                    y: (rect.y0 + dy) as u16,
                    value: false,
                })
            &&& forall|px: int, py: int|
                0 <= px < cw && 0 <= py < ch ==> #[trigger] edits@[w * h + py * cw + px] == stamp_edit(
                    rotated,
                    (rect.x0, rect.y0),
                    px,
                    py,
                )
        }),
{
    let rotated = rotate_cw(&region_extract(bitmap, rect));
    let w = rect.width();
    let h = rect.height();
    let ghost wi = w as int;
    let mut edits: Vec<PixelEdit> = Vec::new();
    let mut dy: u16 = 0;
    while dy < h
        invariant
            dy <= h,
            w == rect_width(rect),
            h == rect_height(rect),
            wi == w,
            rect_ok(rect),
            edits@.len() == dy * wi,
            forall|cx: int, cy: int|
                0 <= cx < wi && 0 <= cy < dy ==> #[trigger] edits@[cy * wi + cx] == (PixelEdit {
                    x: (rect.x0 + cx) as u16,
                    y: (rect.y0 + cy) as u16,
                    value: false,
                }),
        decreases h - dy,
    {
        let ghost row_start = edits@.len();
        let mut dx: u16 = 0;
        while dx < w
            invariant
                dx <= w,
                dy < h,
                w == rect_width(rect),
                h == rect_height(rect),
                wi == w,
                rect_ok(rect),
                row_start == dy * wi,
                edits@.len() == row_start + dx,
                forall|cx: int, cy: int|
                    0 <= cx < wi && 0 <= cy < dy ==> #[trigger] edits@[cy * wi + cx] == (PixelEdit {
                        x: (rect.x0 + cx) as u16,
                        y: (rect.y0 + cy) as u16,
                        value: false,
                    }),
                forall|cx: int|
                    0 <= cx < dx ==> #[trigger] edits@[row_start + cx] == (PixelEdit {
                        x: (rect.x0 + cx) as u16,
                        y: (rect.y0 + dy) as u16,
                        value: false,
                    }),
            decreases w - dx,
        {
            edits.push(PixelEdit { x: rect.x0 + dx, y: rect.y0 + dy, value: false });
            proof {
                assert forall|cx: int, cy: int| 0 <= cx < wi && 0 <= cy < dy implies #[trigger] edits@[cy * wi + cx] == (PixelEdit {
                    x: (rect.x0 + cx) as u16,
                    y: (rect.y0 + cy) as u16,
                    value: false,
                }) by {
                    assert(cy * wi + cx < dy * wi) by (nonlinear_arith)
                        requires
                            0 <= cy < dy,
                            0 <= cx < wi,
                    ;
                }
            }
            dx = dx + 1;
        }
        proof {
            assert forall|cx: int, cy: int| 0 <= cx < wi && 0 <= cy < dy + 1 implies #[trigger] edits@[cy * wi + cx] == (PixelEdit {
                x: (rect.x0 + cx) as u16,
                y: (rect.y0 + cy) as u16,
                value: false,
            }) by {
                if cy == dy {
                    assert(edits@[row_start + cx] == (PixelEdit {
                        x: (rect.x0 + cx) as u16,
                        y: (rect.y0 + dy) as u16,
                        value: false,
                    }));
                }
            }
            assert((dy + 1) * wi == dy * wi + wi) by (nonlinear_arith);
        }
        dy = dy + 1;
    }
    proof {
        assert(h * wi == wi * h) by (nonlinear_arith);
    }
    let ghost cleared = edits@;
    let stamp = stamp_edits(&rotated, (rect.x0, rect.y0), glyph);
    let mut k: usize = 0;
    while k < stamp.len()
        invariant
            k <= stamp@.len(),
            edits@.len() == cleared.len() + k,
            forall|i: int| 0 <= i < cleared.len() ==> edits@[i] == cleared[i],
            forall|i: int| 0 <= i < k ==> #[trigger] edits@[cleared.len() + i] == stamp@[i],
        decreases stamp@.len() - k,
    {
        edits.push(stamp[k]);
        k = k + 1;
    }
    proof {
        let cw = clipped(rotated@.width, rect.x0 as nat, glyph.width as nat);
        let ch = clipped(rotated@.height, rect.y0 as nat, glyph.height as nat);
        assert forall|px: int, py: int|
            0 <= px < cw && 0 <= py < ch implies #[trigger] edits@[wi * h + py * cw + px] == stamp_edit(
                rotated@,
                (rect.x0, rect.y0),
                px,
                py,
            ) by {
            assert(0 <= py * cw + px < cw * ch) by (nonlinear_arith)
                requires
                    0 <= px < cw,
                    0 <= py < ch,
            ;
            assert(edits@[cleared.len() + (py * cw + px)] == stamp@[py * cw + px]);
        }
        assert forall|dx: int, dy: int| 0 <= dx < wi && 0 <= dy < h implies #[trigger] edits@[dy * wi + dx] == (PixelEdit {
            x: (rect.x0 + dx) as u16,
            y: (rect.y0 + dy) as u16,
            value: false,
        }) by {
            assert(dy * wi + dx < h * wi) by (nonlinear_arith)
                requires
                    0 <= dy < h,
                    0 <= dx < wi,
            ;
            assert(edits@[dy * wi + dx] == cleared[dy * wi + dx]);
        }
    }
    edits
}
/// The grid after `edits` are applied in order, each setting its cell as
/// `Bitmap::set` does; an edit off the grid changes nothing.
pub open spec fn apply_edits(v: BitmapView, edits: Seq<PixelEdit>) -> BitmapView
    decreases edits.len(),
{
    if edits.len() == 0 {
        v
    } else {
        let w = apply_edits(v, edits.drop_last());
        let e = edits.last();
        if (e.x as int) < w.width && (e.y as int) < w.height {
            w.with_pixel(e.x as int, e.y as int, e.value)
        } else {
            w
        }
    }
}

/// The value the last edit of cell `(x, y)` writes, or `d` when none writes it.
pub open spec fn last_write(edits: Seq<PixelEdit>, x: int, y: int, d: bool) -> bool
    decreases edits.len(),
{
    if edits.len() == 0 {
        d
    } else if edits.last().x == x && edits.last().y == y {
        edits.last().value
    } else {
        last_write(edits.drop_last(), x, y, d)
    }
}

/// Applying edits keeps the geometry, and each cell ends with the value of the last
/// edit that writes it.
proof fn lemma_apply_edits(v: BitmapView, edits: Seq<PixelEdit>)
    requires
        v.wf(),
    ensures
        apply_edits(v, edits).width == v.width,
        apply_edits(v, edits).height == v.height,
        apply_edits(v, edits).wf(),
        forall|x: int, y: int|
            0 <= x < v.width && 0 <= y < v.height ==> #[trigger] apply_edits(v, edits).rows[y][x] == last_write(
                edits,
                x,
                y,
                v.rows[y][x],
            ),
    decreases edits.len(),
{
    if edits.len() > 0 {
        lemma_apply_edits(v, edits.drop_last());
        let w = apply_edits(v, edits.drop_last());
        let e = edits.last();
        if (e.x as int) < w.width && (e.y as int) < w.height {
            let r = w.with_pixel(e.x as int, e.y as int, e.value);
            assert forall|x: int, y: int| 0 <= x < v.width && 0 <= y < v.height implies #[trigger] r.rows[y][x]
                == last_write(edits, x, y, v.rows[y][x]) by {
                assert(w.rows[y][x] == last_write(edits.drop_last(), x, y, v.rows[y][x]));
            }
        } else {
            assert forall|x: int, y: int| 0 <= x < v.width && 0 <= y < v.height implies #[trigger] w.rows[y][x]
                == last_write(edits, x, y, v.rows[y][x]) by {
                assert(w.rows[y][x] == last_write(edits.drop_last(), x, y, v.rows[y][x]));
            }
        }
    }
}

/// When exactly one edit writes a cell, that edit's value is what the cell ends with.
proof fn lemma_last_write_single(edits: Seq<PixelEdit>, x: int, y: int, d: bool, k0: int)
    requires
        0 <= k0 < edits.len(),
        edits[k0].x == x && edits[k0].y == y,
        forall|k: int| 0 <= k < edits.len() && k != k0 ==> !(#[trigger] edits[k].x == x && edits[k].y == y),
    ensures
        last_write(edits, x, y, d) == edits[k0].value,
    decreases edits.len(),
{
    if k0 < edits.len() - 1 {
        let p = edits.drop_last();
        assert(!(edits[edits.len() - 1].x == x && edits[edits.len() - 1].y == y));
        assert forall|k: int| 0 <= k < p.len() && k != k0 implies !(#[trigger] p[k].x == x && p[k].y == y) by {
            assert(p[k] == edits[k]);
        }
        lemma_last_write_single(p, x, y, d, k0);
    }
}

/// When no edit writes a cell, it keeps its value.
proof fn lemma_last_write_none(edits: Seq<PixelEdit>, x: int, y: int, d: bool)
    requires
        forall|k: int| 0 <= k < edits.len() ==> !(#[trigger] edits[k].x == x && edits[k].y == y),
    ensures
        last_write(edits, x, y, d) == d,
    decreases edits.len(),
{
    if edits.len() > 0 {
        let p = edits.drop_last();
        assert(!(edits[edits.len() - 1].x == x && edits[edits.len() - 1].y == y));
        assert forall|k: int| 0 <= k < p.len() implies !(#[trigger] p[k].x == x && p[k].y == y) by {
            assert(p[k] == edits[k]);
        }
        lemma_last_write_none(p, x, y, d);
    }
}

/// `v` with the cells of `r` mirrored within `r`.
pub open spec fn flip_region(v: BitmapView, r: PixelRect, dir: FlipDir) -> BitmapView {
    BitmapView::from_fn(
        v.width,
        v.height,
        |x: int, y: int|
            if r.x0 <= x <= r.x1 && r.y0 <= y <= r.y1 {
                let (sx, sy) = mirror(r, dir, x, y);
                pixel_at(v, sx, sy)
            } else {
                v.rows[y][x]
            },
    )
}

/// A cell index of a row-major walk of a `w`×`h` grid splits into its column and row.
proof fn lemma_row_major_split(k: int, w: int, h: int)
    requires
        w > 0,
        0 <= k < w * h,
    ensures
        0 <= k % w < w,
        0 <= k / w < h,
        k == (k / w) * w + k % w,
{
    vstd::arithmetic::div_mod::lemma_fundamental_div_mod(k, w);
    vstd::arithmetic::div_mod::lemma_div_pos_is_pos(k, w);
    vstd::arithmetic::div_mod::lemma_mod_bound(k, w);
    assert((k / w) * w == w * (k / w)) by (nonlinear_arith);
    if k / w >= h {
        assert((k / w) * w >= h * w) by (nonlinear_arith)
            requires
                k / w >= h,
                w > 0,
        ;
        assert(h * w == w * h) by (nonlinear_arith);
    }
}

/// Applying the edits [`flip_edits`] returns, all at once, mirrors the region: every
/// cell of a rectangle inside the grid takes its mirror partner's value and every
/// other cell keeps its own.
pub proof fn law_flip_edits_mirror_the_region(v: BitmapView, rect: PixelRect, dir: FlipDir, edits: Seq<PixelEdit>)
    requires
        v.wf(),
        rect_ok(rect),
        (rect.x1 as int) < v.width,
        (rect.y1 as int) < v.height,
        edits.len() == rect_width(rect) * rect_height(rect),
        forall|dx: int, dy: int|
            0 <= dx < rect_width(rect) && 0 <= dy < rect_height(rect) ==> #[trigger] edits[dy * rect_width(rect) + dx]
                == flip_edit(v, rect, dir, dx, dy),
    ensures
        apply_edits(v, edits) == flip_region(v, rect, dir),
{
    let w = rect_width(rect) as int;
    let h = rect_height(rect) as int;
    let r = apply_edits(v, edits);
    let f = flip_region(v, rect, dir);
    lemma_apply_edits(v, edits);
    assert forall|k: int| 0 <= k < edits.len() implies rect.x0 <= (#[trigger] edits[k]).x <= rect.x1 && rect.y0
        <= edits[k].y <= rect.y1 && edits[k].x == rect.x0 + k % w && edits[k].y == rect.y0 + k / w by {
        lemma_row_major_split(k, w, h);
        assert(edits[(k / w) * w + k % w] == flip_edit(v, rect, dir, k % w, k / w));
    }
    assert forall|y: int| 0 <= y < v.height implies #[trigger] r.rows[y] =~= f.rows[y] by {
        assert forall|x: int| 0 <= x < v.width implies r.rows[y][x] == f.rows[y][x] by {
            assert(r.rows[y][x] == last_write(edits, x, y, v.rows[y][x]));
            if rect.x0 <= x <= rect.x1 && rect.y0 <= y <= rect.y1 {
                let dx = x - rect.x0;
                let dy = y - rect.y0;
                let k0 = dy * w + dx;
                lemma_row_major(dy, dx, w);
                assert(0 <= k0 < w * h) by (nonlinear_arith)
                    requires
                        k0 == dy * w + dx,
                        0 <= dx < w,
                        0 <= dy < h,
                ;
                assert(edits[k0] == flip_edit(v, rect, dir, dx, dy));
                assert forall|k: int| 0 <= k < edits.len() && k != k0 implies !(#[trigger] edits[k].x == x
                    && edits[k].y == y) by {
                    lemma_row_major_split(k, w, h);
                    if edits[k].x == x && edits[k].y == y {
                        assert(k % w == dx && k / w == dy);
                    }
                }
                lemma_last_write_single(edits, x, y, v.rows[y][x], k0);
            } else {
                lemma_last_write_none(edits, x, y, v.rows[y][x]);
            }
        }
    }
    assert(r.rows =~= f.rows);
}

/// Mirroring a region twice gives back the grid.
pub proof fn law_flip_region_twice_is_the_identity(v: BitmapView, rect: PixelRect, dir: FlipDir)
    requires
        v.wf(),
        rect_ok(rect),
        (rect.x1 as int) < v.width,
        (rect.y1 as int) < v.height,
    ensures
        flip_region(flip_region(v, rect, dir), rect, dir) == v,
{
    let once = flip_region(v, rect, dir);
    let twice = flip_region(once, rect, dir);
    assert forall|y: int| 0 <= y < v.height implies #[trigger] twice.rows[y] =~= v.rows[y] by {
        assert forall|x: int| 0 <= x < v.width implies twice.rows[y][x] == v.rows[y][x] by {
            if rect.x0 <= x <= rect.x1 && rect.y0 <= y <= rect.y1 {
                let (sx, sy) = mirror(rect, dir, x, y);
                assert(once.rows[sy][sx] == pixel_at(v, x, y));
            }
        }
    }
    assert(twice.rows =~= v.rows);
}

/// Applying a row-major walk of edits over a `w`×`h` block at `(x0, y0)` sets each
/// cell of the block inside the grid to its edit's value and leaves the rest.
proof fn lemma_apply_block(v: BitmapView, edits: Seq<PixelEdit>, x0: int, y0: int, w: int, h: int, val: spec_fn(int, int) -> bool)
    requires
        v.wf(),
        w > 0,
        h >= 0,
        0 <= x0,
        0 <= y0,
        x0 + w <= 65536,
        y0 + h <= 65536,
        edits.len() == w * h,
        forall|dx: int, dy: int|
            0 <= dx < w && 0 <= dy < h ==> #[trigger] edits[dy * w + dx] == (PixelEdit {
                x: (x0 + dx) as u16,
                y: (y0 + dy) as u16,
                value: val(dx, dy),
            }),
    ensures
        apply_edits(v, edits).width == v.width,
        apply_edits(v, edits).height == v.height,
        apply_edits(v, edits).wf(),
        forall|x: int, y: int|
            0 <= x < v.width && 0 <= y < v.height ==> #[trigger] apply_edits(v, edits).rows[y][x] == if x0 <= x < x0
                + w && y0 <= y < y0 + h {
                val(x - x0, y - y0)
            } else {
                v.rows[y][x]
            },
{
    lemma_apply_edits(v, edits);
    assert forall|k: int| 0 <= k < edits.len() implies (#[trigger] edits[k]).x == x0 + k % w && edits[k].y == y0
        + k / w && 0 <= k % w < w && 0 <= k / w < h by {
        lemma_row_major_split(k, w, h);
        assert(edits[(k / w) * w + k % w] == (PixelEdit {
            x: (x0 + k % w) as u16,
            y: (y0 + k / w) as u16,
            value: val(k % w, k / w),
        }));
    }
    assert forall|x: int, y: int| 0 <= x < v.width && 0 <= y < v.height implies #[trigger] apply_edits(
        v,
        edits,
    ).rows[y][x] == if x0 <= x < x0 + w && y0 <= y < y0 + h {
        val(x - x0, y - y0)
    } else {
        v.rows[y][x]
    } by {
        if x0 <= x < x0 + w && y0 <= y < y0 + h {
            let dx = x - x0;
            let dy = y - y0;
            let k0 = dy * w + dx;
            lemma_row_major(dy, dx, w);
            assert(0 <= k0 < w * h) by (nonlinear_arith)
                requires
                    k0 == dy * w + dx,
                    0 <= dx < w,
                    0 <= dy < h,
            ;
            assert(edits[k0].value == val(dx, dy));
            assert forall|k: int| 0 <= k < edits.len() && k != k0 implies !(#[trigger] edits[k].x == x && edits[k].y
                == y) by {
                lemma_row_major_split(k, w, h);
                if edits[k].x == x && edits[k].y == y {
                    assert(k % w == dx && k / w == dy);
                }
            }
            lemma_last_write_single(edits, x, y, v.rows[y][x], k0);
        } else {
            lemma_last_write_none(edits, x, y, v.rows[y][x]);
        }
    }
}

/// Applying two edit lists one after the other is applying their concatenation.
proof fn lemma_apply_concat(v: BitmapView, a: Seq<PixelEdit>, b: Seq<PixelEdit>)
    ensures
        apply_edits(v, a + b) == apply_edits(apply_edits(v, a), b),
    decreases b.len(),
{
    if b.len() == 0 {
        assert(a + b =~= a);
    } else {
        lemma_apply_concat(v, a, b.drop_last());
        assert((a + b).drop_last() =~= a + b.drop_last());
        assert((a + b).last() == b.last());
    }
}

/// `v` with `patch` placed with its top-left at `origin`; patch cells past the grid
/// are dropped.
pub open spec fn stamp_region(v: BitmapView, patch: BitmapView, origin: (u16, u16)) -> BitmapView {
    BitmapView::from_fn(
        v.width,
        v.height,
        |x: int, y: int|
            if origin.0 <= x < origin.0 + patch.width && origin.1 <= y < origin.1 + patch.height {
                patch.rows[y - origin.1][x - origin.0]
            } else {
                v.rows[y][x]
            },
    )
}

/// Applying the edits [`stamp_edits`] returns for a grid of the glyph's size places
/// the patch: the covered cells take the patch's values, on and off, and every
/// other cell keeps its own.
pub proof fn law_stamp_edits_place_the_patch(v: BitmapView, patch: BitmapView, origin: (u16, u16), edits: Seq<PixelEdit>)
    requires
        v.wf(),
        patch.wf(),
        v.width <= u16::MAX,
        v.height <= u16::MAX,
        edits.len() == clipped(patch.width, origin.0 as nat, v.width) * clipped(patch.height, origin.1 as nat, v.height),
        forall|px: int, py: int|
            0 <= px < clipped(patch.width, origin.0 as nat, v.width) && 0 <= py < clipped(
                patch.height,
                origin.1 as nat,
                v.height,
            ) ==> #[trigger] edits[py * clipped(patch.width, origin.0 as nat, v.width) + px] == stamp_edit(
                patch,
                origin,
                px,
                py,
            ),
    ensures
        apply_edits(v, edits) == stamp_region(v, patch, origin),
{
    let cw = clipped(patch.width, origin.0 as nat, v.width) as int;
    let ch = clipped(patch.height, origin.1 as nat, v.height) as int;
    let r = apply_edits(v, edits);
    let f = stamp_region(v, patch, origin);
    if cw == 0 {
        assert(edits.len() == 0) by (nonlinear_arith)
            requires
                edits.len() == cw * ch,
                cw == 0,
        ;
        assert forall|y: int| 0 <= y < v.height implies #[trigger] r.rows[y] =~= f.rows[y] by {
            assert forall|x: int| 0 <= x < v.width implies r.rows[y][x] == f.rows[y][x] by {
                if origin.0 <= x < origin.0 + patch.width && origin.1 <= y < origin.1 + patch.height {
                    assert(origin.0 >= v.width || patch.width == 0);
                }
            }
        }
    } else {
        let val = |px: int, py: int| patch.rows[py][px];
        assert forall|px: int, py: int| 0 <= px < cw && 0 <= py < ch implies #[trigger] edits[py * cw + px] == (PixelEdit {
            x: (origin.0 + px) as u16,
            y: (origin.1 + py) as u16,
            value: val(px, py),
        }) by {
            assert(edits[py * cw + px] == stamp_edit(patch, origin, px, py));
        }
        lemma_apply_block(v, edits, origin.0 as int, origin.1 as int, cw, ch, val);
        assert forall|y: int| 0 <= y < v.height implies #[trigger] r.rows[y] =~= f.rows[y] by {
            assert forall|x: int| 0 <= x < v.width implies r.rows[y][x] == f.rows[y][x] by {
                assert(r.rows[y][x] == if origin.0 <= x < origin.0 + cw && origin.1 <= y < origin.1 + ch {
                    val(x - origin.0, y - origin.1)
                } else {
                    v.rows[y][x]
                });
            }
        }
    }
    assert(r.rows =~= f.rows);
}

/// `v` with the cells of `r` cleared.
pub open spec fn clear_region(v: BitmapView, r: PixelRect) -> BitmapView {
    BitmapView::from_fn(
        v.width,
        v.height,
        |x: int, y: int|
            if r.x0 <= x <= r.x1 && r.y0 <= y <= r.y1 {
                false
            } else {
                v.rows[y][x]
            },
    )
}

/// Applying the edits [`rotate_edits`] returns for a grid of the glyph's size clears
/// the rectangle, then places its contents turned a quarter clockwise with the same
/// top-left corner: a square selection turns in place, and the turned block wins
/// where it overlaps the cleared one.
pub proof fn law_rotate_edits_turn_the_region(v: BitmapView, rect: PixelRect, edits: Seq<PixelEdit>)
    requires
        v.wf(),
        rect_ok(rect),
        v.width <= u16::MAX,
        v.height <= u16::MAX,
        ({
            let w = rect_width(rect);
            let h = rect_height(rect);
            let rotated = rotate_view(extract_view(v, rect));
            let cw = clipped(rotated.width, rect.x0 as nat, v.width);
            let ch = clipped(rotated.height, rect.y0 as nat, v.height);
            &&& edits.len() == w * h + cw * ch
            &&& forall|dx: int, dy: int|
                0 <= dx < w && 0 <= dy < h ==> #[trigger] edits[dy * w + dx] == (PixelEdit {
                    x: (rect.x0 + dx) as u16,
                    y: (rect.y0 + dy) as u16,
                    value: false,
                })
            &&& forall|px: int, py: int|
                0 <= px < cw && 0 <= py < ch ==> #[trigger] edits[w * h + py * cw + px] == stamp_edit(
                    rotated,
                    (rect.x0, rect.y0),
                    px,
                    py,
                )
        }),
    ensures
        apply_edits(v, edits) == stamp_region(
            clear_region(v, rect),
            rotate_view(extract_view(v, rect)),
            (rect.x0, rect.y0),
        ),
{
    let w = rect_width(rect) as int;
    let h = rect_height(rect) as int;
    let rotated = rotate_view(extract_view(v, rect));
    let cw = clipped(rotated.width, rect.x0 as nat, v.width) as int;
    let ch = clipped(rotated.height, rect.y0 as nat, v.height) as int;
    assert(w * h >= 0) by (nonlinear_arith)
        requires
            w > 0,
            h > 0,
    ;
    let a = edits.subrange(0, w * h);
    let b = edits.subrange(w * h, edits.len() as int);
    assert(edits =~= a + b);
    lemma_apply_concat(v, a, b);
    let val = |dx: int, dy: int| false;
    assert forall|dx: int, dy: int| 0 <= dx < w && 0 <= dy < h implies #[trigger] a[dy * w + dx] == (PixelEdit {
        x: (rect.x0 + dx) as u16,
        y: (rect.y0 + dy) as u16,
        value: val(dx, dy),
    }) by {
        lemma_row_major(dy, dx, w);
        assert(dy * w + dx < w * h) by (nonlinear_arith)
            requires
                0 <= dx < w,
                0 <= dy < h,
        ;
        assert(a[dy * w + dx] == edits[dy * w + dx]);
    }
    lemma_apply_block(v, a, rect.x0 as int, rect.y0 as int, w, h, val);
    let cleared = apply_edits(v, a);
    let c = clear_region(v, rect);
    assert forall|y: int| 0 <= y < v.height implies #[trigger] cleared.rows[y] =~= c.rows[y] by {
        assert forall|x: int| 0 <= x < v.width implies cleared.rows[y][x] == c.rows[y][x] by {
            assert(cleared.rows[y][x] == if rect.x0 <= x < rect.x0 + w && rect.y0 <= y < rect.y0 + h {
                val(x - rect.x0, y - rect.y0)
            } else {
                v.rows[y][x]
            });
        }
    }
    assert(cleared.rows =~= c.rows);
    assert(cleared == c);
    assert(rotated.wf());
    assert forall|px: int, py: int| 0 <= px < cw && 0 <= py < ch implies #[trigger] b[py * cw + px] == stamp_edit(
        rotated,
        (rect.x0, rect.y0),
        px,
        py,
    ) by {
        assert(0 <= py * cw + px < cw * ch) by (nonlinear_arith)
            requires
                0 <= px < cw,
                0 <= py < ch,
        ;
        assert(b[py * cw + px] == edits[w * h + (py * cw + px)]);
        assert(w * h + (py * cw + px) == w * h + py * cw + px);
    }
    law_stamp_edits_place_the_patch(c, rotated, (rect.x0, rect.y0), b);
}


/// What a flip does, cell by cell: after applying the edits [`flip_edits`]
/// returns, a cell `(x, y)` of the rectangle holds the original pixel at
/// `(x0 + x1 - x, y)` for a left-right flip (same row) and at `(x, y0 + y1 - y)`
/// for a top-bottom flip (same column); every cell outside the rectangle keeps its
/// pixel.
pub proof fn law_flip_mirrors_within_rows_or_columns(v: BitmapView, rect: PixelRect, dir: FlipDir, edits: Seq<PixelEdit>)
    requires
        v.wf(),
        rect_ok(rect),
        (rect.x1 as int) < v.width,
        (rect.y1 as int) < v.height,
        edits.len() == rect_width(rect) * rect_height(rect),
        forall|dx: int, dy: int|
            0 <= dx < rect_width(rect) && 0 <= dy < rect_height(rect) ==> #[trigger] edits[dy * rect_width(rect) + dx]
                == flip_edit(v, rect, dir, dx, dy),
    ensures
        apply_edits(v, edits).width == v.width,
        apply_edits(v, edits).height == v.height,
        forall|x: int, y: int|
            rect.x0 <= x <= rect.x1 && rect.y0 <= y <= rect.y1 ==> #[trigger] apply_edits(v, edits).rows[y][x] == match dir {
                FlipDir::LeftRight => v.rows[y][rect.x0 + rect.x1 - x],
                FlipDir::TopBottom => v.rows[rect.y0 + rect.y1 - y][x],
            },
        forall|x: int, y: int|
            0 <= x < v.width && 0 <= y < v.height && !(rect.x0 <= x <= rect.x1 && rect.y0 <= y <= rect.y1)
                ==> #[trigger] apply_edits(v, edits).rows[y][x] == v.rows[y][x],
{
    law_flip_edits_mirror_the_region(v, rect, dir, edits);
}

} // verus!
