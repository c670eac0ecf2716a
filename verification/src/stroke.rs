//! Stroke logic for pixel editing: the first pixel fixes the whole stroke to paint
//! on or erase, fast pointer motion is interpolated along a Bresenham line so no
//! cell is skipped, and each cell is visited at most once.

use std::collections::HashSet;

use vstd::prelude::*;

use crate::region::PixelEdit;

verus! {

broadcast use vstd::std_specs::hash::group_hash_axioms;

/// The cells Bresenham's walk visits from `(x, y)` towards `(x1, y1)`, given the
/// step signs, the distances `dx = |x1 - x0|` and `dy = -|y1 - y0|`, the error term
/// and a bound on the number of cells.
pub open spec fn bresenham_walk(
    x: int,
    y: int,
    x1: int,
    y1: int,
    sx: int,
    sy: int,
    dx: int,
    dy: int,
    err: int,
    fuel: nat,
) -> Seq<(u16, u16)>
    decreases fuel,
{
    if fuel == 0 {
        Seq::empty()
    } else if x == x1 && y == y1 {
        seq![(x as u16, y as u16)]
    } else {
        let e2 = 2 * err;
        let err1 = if e2 >= dy { err + dy } else { err };
        let nx = if e2 >= dy { x + sx } else { x };
        let err2 = if e2 <= dx { err1 + dx } else { err1 };
        let ny = if e2 <= dx { y + sy } else { y };
        seq![(x as u16, y as u16)] + bresenham_walk(nx, ny, x1, y1, sx, sy, dx, dy, err2, (fuel - 1) as nat)
    }
}

/// `|a - b|`.
pub open spec fn distance(a: int, b: int) -> int {
    if a <= b {
        b - a
    } else {
        a - b
    }
}

/// The integer cells on the line between two cells, inclusive of both ends, as
/// Bresenham's algorithm visits them.
pub open spec fn line_spec(from: (u16, u16), to: (u16, u16)) -> Seq<(u16, u16)> {
    let dx = distance(from.0 as int, to.0 as int);
    let dy = -distance(from.1 as int, to.1 as int);
    bresenham_walk(
        from.0 as int,
        from.1 as int,
        to.0 as int,
        to.1 as int,
        if from.0 < to.0 { 1 } else { -1 },
        if from.1 < to.1 { 1 } else { -1 },
        dx,
        dy,
        dx + dy,
        (dx - dy + 1) as nat,
    )
}

/// Two cells touch: they differ by at most one in each coordinate.
pub open spec fn adjacent(a: (u16, u16), b: (u16, u16)) -> bool {
    distance(a.0 as int, b.0 as int) <= 1 && distance(a.1 as int, b.1 as int) <= 1
}

/// The position reached after `steps` unit steps from `start` in direction `s`.
pub open spec fn stepped(start: int, steps: int, s: int) -> int {
    if s == 1 {
        start + steps
    } else {
        start - steps
    }
}

/// The walk from step `(i, j)` of a line spanning `dx` columns and `dy` rows: with
/// the error term Bresenham keeps there, it goes on from the current cell through
/// touching cells and stops exactly at the far end.
proof fn lemma_walk_reaches_end(
    x0: int,
    y0: int,
    x1: int,
    y1: int,
    sx: int,
    sy: int,
    dx: int,
    dy: int,
    i: int,
    j: int,
    err: int,
    fuel: nat,
)
    requires
        0 <= x0 <= 65535,
        0 <= y0 <= 65535,
        0 <= x1 <= 65535,
        0 <= y1 <= 65535,
        sx == 1 || sx == -1,
        sy == 1 || sy == -1,
        dx >= 0,
        dy >= 0,
        x1 == stepped(x0, dx, sx),
        y1 == stepped(y0, dy, sy),
        0 <= i <= dx,
        0 <= j <= dy,
        err == (1 + j) * dx - (1 + i) * dy,
        fuel >= dx + dy - i - j + 1,
    ensures
        ({
            let w = bresenham_walk(stepped(x0, i, sx), stepped(y0, j, sy), x1, y1, sx, sy, dx, -dy, err, fuel);
            &&& w.len() >= 1
            &&& w[0] == (stepped(x0, i, sx) as u16, stepped(y0, j, sy) as u16)
            &&& w.last() == (x1 as u16, y1 as u16)
            &&& forall|k: int| 0 <= k < w.len() - 1 ==> adjacent(#[trigger] w[k], w[k + 1])
        }),
    decreases fuel,
{
    let x = stepped(x0, i, sx);
    let y = stepped(y0, j, sy);
    let w = bresenham_walk(x, y, x1, y1, sx, sy, dx, -dy, err, fuel);
    if x == x1 && y == y1 {
        assert(w =~= seq![(x as u16, y as u16)]);
    } else {
        let e2 = 2 * err;
        let xs = e2 >= -dy;
        let ys = e2 <= dx;
        if i == dx {
            assert(j < dy);
            assert(2 * err + dy < 0) by (nonlinear_arith)
                requires
                    err == (1 + j) * dx - (1 + i) * dy,
                    i == dx,
                    0 <= j < dy,
                    dx >= 0,
            ;
        }
        if j == dy {
            assert(i < dx);
            assert(2 * err - dx > 0) by (nonlinear_arith)
                requires
                    err == (1 + j) * dx - (1 + i) * dy,
                    j == dy,
                    0 <= i < dx,
                    dy >= 0,
            ;
        }
        let ni = if xs { i + 1 } else { i };
        let nj = if ys { j + 1 } else { j };
        let err1 = if xs { err - dy } else { err };
        let err2 = if ys { err1 + dx } else { err1 };
        assert(err2 == (1 + nj) * dx - (1 + ni) * dy) by (nonlinear_arith)
            requires
                err == (1 + j) * dx - (1 + i) * dy,
                err1 == if xs { err - dy } else { err },
                err2 == if ys { err1 + dx } else { err1 },
                ni == if xs { i + 1 } else { i },
                nj == if ys { j + 1 } else { j },
        ;
        let nx = if xs { x + sx } else { x };
        let ny = if ys { y + sy } else { y };
        assert(nx == stepped(x0, ni, sx));
        assert(ny == stepped(y0, nj, sy));
        lemma_walk_reaches_end(x0, y0, x1, y1, sx, sy, dx, dy, ni, nj, err2, (fuel - 1) as nat);
        let rest = bresenham_walk(nx, ny, x1, y1, sx, sy, dx, -dy, err2, (fuel - 1) as nat);
        assert(w == seq![(x as u16, y as u16)] + rest);
        assert forall|k: int| 0 <= k < w.len() - 1 implies adjacent(#[trigger] w[k], w[k + 1]) by {
            if k == 0 {
                assert(w[1] == rest[0]);
            } else {
                assert(w[k] == rest[k - 1] && w[k + 1] == rest[k]);
            }
        }
    }
}

/// The cells of a line start at its first end, finish at its other end, and each
/// touches the next, so a stroke interpolated along them leaves no gap.
pub proof fn law_line_connects_its_ends(from: (u16, u16), to: (u16, u16))
    ensures
        ({
            let w = line_spec(from, to);
            &&& w.len() >= 1
            &&& w[0] == from
            &&& w.last() == to
            &&& forall|k: int| 0 <= k < w.len() - 1 ==> adjacent(#[trigger] w[k], w[k + 1])
        }),
{
    let dx = distance(from.0 as int, to.0 as int);
    let dy = distance(from.1 as int, to.1 as int);
    let sx: int = if from.0 < to.0 { 1 } else { -1 };
    let sy: int = if from.1 < to.1 { 1 } else { -1 };
    assert(dx - dy == (1 + 0) * dx - (1 + 0) * dy) by (nonlinear_arith);
    lemma_walk_reaches_end(
        from.0 as int,
        from.1 as int,
        to.0 as int,
        to.1 as int,
        sx,
        sy,
        dx,
        dy,
        0,
        0,
        dx - dy,
        (dx + dy + 1) as nat,
    );
}

/// The integer cells on the line between two glyph cells (inclusive of both ends),
/// via Bresenham: used to fill the gaps between sampled pointer positions.
pub fn line_cells(from: (u16, u16), to: (u16, u16)) -> (cells: Vec<(u16, u16)>)
    ensures
        cells@ == line_spec(from, to),
{
    let x0 = from.0 as i64;
    let y0 = from.1 as i64;
    let x1 = to.0 as i64;
    let y1 = to.1 as i64;
    let dx_abs: i64 = if x0 <= x1 { x1 - x0 } else { x0 - x1 };
    let dy_abs: i64 = if y0 <= y1 { y1 - y0 } else { y0 - y1 };
    let dx = dx_abs;
    let dy = -dy_abs;
    let sx: i64 = if x0 < x1 { 1 } else { -1 };
    let sy: i64 = if y0 < y1 { 1 } else { -1 };
    let mut x = x0;
    let mut y = y0;
    let mut err = dx + dy;
    let ghost mut i: int = 0;
    let ghost mut j: int = 0;
    let ghost mut fuel: nat = (dx - dy + 1) as nat;
    let ghost full = line_spec(from, to);
    let mut cells: Vec<(u16, u16)> = Vec::new();
    assert(err == (1 + j) * dx_abs - (1 + i) * dy_abs) by (nonlinear_arith)
        requires
            err == dx_abs - dy_abs,
            i == 0,
            j == 0,
    ;
    assert(full == cells@ + bresenham_walk(x as int, y as int, x1 as int, y1 as int, sx as int, sy as int, dx as int, dy as int, err as int, fuel));
    loop
        invariant_except_break
            full == cells@ + bresenham_walk(x as int, y as int, x1 as int, y1 as int, sx as int, sy as int, dx as int, dy as int, err as int, fuel),
        invariant
            0 <= x0 <= 65535,
            0 <= y0 <= 65535,
            0 <= x1 <= 65535,
            0 <= y1 <= 65535,
            x0 == from.0,
            y0 == from.1,
            x1 == to.0,
            y1 == to.1,
            0 <= dx_abs <= 65535,
            0 <= dy_abs <= 65535,
            dx == dx_abs,
            dy == -dy_abs,
            dx_abs == distance(x0 as int, x1 as int),
            dy_abs == distance(y0 as int, y1 as int),
            sx == if x0 < x1 { 1i64 } else { -1i64 },
            sy == if y0 < y1 { 1i64 } else { -1i64 },
            0 <= i <= dx_abs,
            0 <= j <= dy_abs,
            x == if x0 < x1 { x0 + i } else { x0 - i },
            y == if y0 < y1 { y0 + j } else { y0 - j },
            err == (1 + j) * dx_abs - (1 + i) * dy_abs,
            fuel >= (dx_abs - i) + (dy_abs - j) + 1,
            full == line_spec(from, to),
        ensures
            cells@ == full,
        decreases (dx_abs - i) + (dy_abs - j),
    {
        assert(0 <= x <= 65535 && 0 <= y <= 65535);
        assert(-0x4_0000_0000i64 <= err <= 0x4_0000_0000i64) by (nonlinear_arith)
            requires
                err == (1 + j) * dx_abs - (1 + i) * dy_abs,
                0 <= i <= dx_abs <= 65535,
                0 <= j <= dy_abs <= 65535,
        ;
        let ghost walk_before = bresenham_walk(x as int, y as int, x1 as int, y1 as int, sx as int, sy as int, dx as int, dy as int, err as int, fuel);
        cells.push((x as u16, y as u16));
        if x == x1 && y == y1 {
            proof {
                assert(walk_before == seq![(x as u16, y as u16)]);
                assert(full =~= cells@);
            }
            break;
        }
        proof {
            assert(i == dx_abs && j == dy_abs ==> x == x1 && y == y1);
        }
        let e2 = 2 * err;
        proof {
            if i == dx_abs && j < dy_abs {
                assert(2 * err < -dy_abs) by (nonlinear_arith)
                    requires
                        err == (1 + j) * dx_abs - (1 + i) * dy_abs,
                        i == dx_abs,
                        0 <= j < dy_abs,
                        dx_abs >= 0,
                ;
            }
            if j == dy_abs && i < dx_abs {
                assert(2 * err > dx_abs) by (nonlinear_arith)
                    requires
                        err == (1 + j) * dx_abs - (1 + i) * dy_abs,
                        j == dy_abs,
                        0 <= i < dx_abs,
                        dy_abs >= 0,
                ;
            }
        }
        let ghost (oi, oj, oerr, ox, oy) = (i, j, err, x, y);
        if e2 >= dy {
            err = err + dy;
            x = x + sx;
            proof {
                i = i + 1;
            }
        }
        if e2 <= dx {
            err = err + dx;
            y = y + sy;
            proof {
                j = j + 1;
            }
        }
        proof {
            assert(err == (1 + j) * dx_abs - (1 + i) * dy_abs) by (nonlinear_arith)
                requires
                    oerr == (1 + oj) * dx_abs - (1 + oi) * dy_abs,
                    i == oi || i == oi + 1,
                    j == oj || j == oj + 1,
                    i == oi + 1 ==> j == oj + 1 ==> err == oerr - dy_abs + dx_abs,
                    i == oi + 1 ==> j == oj ==> err == oerr - dy_abs,
                    i == oi ==> j == oj + 1 ==> err == oerr + dx_abs,
                    i == oi ==> j == oj ==> err == oerr,
            ;
            assert(walk_before == seq![(ox as u16, oy as u16)] + bresenham_walk(
                x as int,
                y as int,
                x1 as int,
                y1 as int,
                sx as int,
                sy as int,
                dx as int,
                dy as int,
                err as int,
                (fuel - 1) as nat,
            ));
            fuel = (fuel - 1) as nat;
            assert(full =~= cells@ + bresenham_walk(x as int, y as int, x1 as int, y1 as int, sx as int, sy as int, dx as int, dy as int, err as int, fuel));
        }
    }
    cells
}

/// The key of a cell in the visited set: `x * 65536 + y`.
pub open spec fn cell_key(c: (u16, u16)) -> u32 {
    (c.0 as int * 65536 + c.1 as int) as u32
}

/// `visited` followed by the cells of `segment` not already visited, each once.
pub open spec fn append_new(visited: Seq<(u16, u16)>, segment: Seq<(u16, u16)>) -> Seq<(u16, u16)>
    decreases segment.len(),
{
    if segment.len() == 0 {
        visited
    } else {
        let before = append_new(visited, segment.drop_last());
        if before.contains(segment.last()) {
            before
        } else {
            before.push(segment.last())
        }
    }
}

/// No cell occurs twice.
pub open spec fn distinct_cells(s: Seq<(u16, u16)>) -> bool {
    forall|i: int, j: int| 0 <= i < j < s.len() ==> s[i] != s[j]
}

/// Extending a visit list keeps what was visited, in order, adds every cell of the
/// segment that was not yet there, and never repeats a cell.
pub proof fn law_append_new_visits_each_cell_once(visited: Seq<(u16, u16)>, segment: Seq<(u16, u16)>)
    ensures
        append_new(visited, segment).len() >= visited.len(),
        append_new(visited, segment).subrange(0, visited.len() as int) == visited,
        forall|c: (u16, u16)| #[trigger] append_new(visited, segment).contains(c) <==> (visited.contains(c) || segment.contains(c)),
        distinct_cells(visited) ==> distinct_cells(append_new(visited, segment)),
    decreases segment.len(),
{
    if segment.len() > 0 {
        let prefix = segment.drop_last();
        let before = append_new(visited, prefix);
        law_append_new_visits_each_cell_once(visited, prefix);
        let c = segment.last();
        let after = append_new(visited, segment);
        assert forall|d: (u16, u16)| #[trigger] after.contains(d) <==> (visited.contains(d) || segment.contains(d)) by {
            if segment.contains(d) && !prefix.contains(d) {
                let k = choose|k: int| 0 <= k < segment.len() && segment[k] == d;
                if k < segment.len() - 1 {
                    assert(prefix[k] == d);
                }
                assert(d == c);
            }
            if prefix.contains(d) {
                let k = choose|k: int| 0 <= k < prefix.len() && prefix[k] == d;
                assert(segment[k] == d);
            }
            if d == c {
                assert(segment[segment.len() - 1] == d);
            }
            if !before.contains(c) {
                if after.contains(d) {
                    let k = choose|k: int| 0 <= k < after.len() && after[k] == d;
                    if k < before.len() {
                        assert(before[k] == d);
                    }
                }
                if before.contains(d) {
                    let k = choose|k: int| 0 <= k < before.len() && before[k] == d;
                    assert(after[k] == d);
                }
                assert(after[before.len() as int] == c);
            }
        }
        if !before.contains(c) {
            assert(after.subrange(0, visited.len() as int) =~= before.subrange(0, visited.len() as int));
            if distinct_cells(visited) {
                assert forall|i: int, j: int| 0 <= i < j < after.len() implies after[i] != after[j] by {
                    if j == before.len() {
                        assert(after[i] == before[i]);
                        assert(before.contains(before[i]));
                    }
                }
            }
        }
    }
}

/// The cells a stroke passes through when it is sampled at `samples` in order: the
/// first sample, then the line from each sample to the next.
pub open spec fn stroke_path(samples: Seq<(u16, u16)>) -> Seq<(u16, u16)>
    decreases samples.len(),
{
    if samples.len() == 0 {
        Seq::empty()
    } else if samples.len() == 1 {
        seq![samples[0]]
    } else {
        stroke_path(samples.drop_last()) + line_spec(samples[samples.len() - 2], samples.last())
    }
}

/// The cells a stroke sampled at `samples` has visited: those of its path, each
/// once, in the order they were first reached.
pub open spec fn stroke_cells(samples: Seq<(u16, u16)>) -> Seq<(u16, u16)> {
    append_new(Seq::empty(), stroke_path(samples))
}

/// Adding two segments one after the other adds their concatenation.
proof fn lemma_append_new_concat(visited: Seq<(u16, u16)>, a: Seq<(u16, u16)>, b: Seq<(u16, u16)>)
    ensures
        append_new(append_new(visited, a), b) == append_new(visited, a + b),
    decreases b.len(),
{
    if b.len() == 0 {
        assert(a + b =~= a);
    } else {
        lemma_append_new_concat(visited, a, b.drop_last());
        assert((a + b).drop_last() =~= a + b.drop_last());
        assert((a + b).last() == b.last());
    }
}

/// A stroke follows its path sample by sample: extending a stroke that has visited
/// [`stroke_cells`]`(samples)` to `cell`, as [`Stroke::extend_to`] does (the new
/// cell alone at the first sample, else the line from the last sample to it), gives
/// the cells of the samples with `cell` appended.
pub proof fn law_extend_follows_the_path(samples: Seq<(u16, u16)>, cell: (u16, u16))
    ensures
        append_new(
            stroke_cells(samples),
            if samples.len() == 0 {
                seq![cell]
            } else {
                line_spec(samples.last(), cell)
            },
        ) == stroke_cells(samples.push(cell)),
{
    let all = samples.push(cell);
    assert(all.drop_last() =~= samples);
    if samples.len() == 0 {
        assert(stroke_path(samples) =~= Seq::<(u16, u16)>::empty());
        assert(stroke_path(all) =~= seq![cell]);
    } else {
        assert(all[all.len() - 2] == samples.last());
        lemma_append_new_concat(Seq::empty(), stroke_path(samples), line_spec(samples.last(), cell));
    }
}

/// Whatever the samples, a stroke visits each cell once, visits exactly the cells
/// of its path, and is empty only before its first sample.
pub proof fn law_stroke_visits_each_cell_once(samples: Seq<(u16, u16)>)
    ensures
        distinct_cells(stroke_cells(samples)),
        forall|c: (u16, u16)| #[trigger] stroke_cells(samples).contains(c) <==> stroke_path(samples).contains(c),
        stroke_cells(samples).len() == 0 <==> samples.len() == 0,
{
    let path = stroke_path(samples);
    law_append_new_visits_each_cell_once(Seq::empty(), path);
    assert(distinct_cells(Seq::<(u16, u16)>::empty()));
    if samples.len() > 0 {
        lemma_stroke_path_starts(samples);
        assert(path.contains(path[0]));
        assert(stroke_cells(samples).contains(path[0]));
    } else {
        assert(path =~= Seq::<(u16, u16)>::empty());
    }
}

proof fn lemma_extensions_prefix(states: Seq<Stroke>, samples: Seq<(u16, u16)>, k: int)
    requires
        states.len() == samples.len() + 1,
        states[0].visited() == Seq::<(u16, u16)>::empty(),
        states[0].last_sample() is None,
        forall|i: int| 0 <= i < samples.len() ==> Stroke::extends(#[trigger] states[i], samples[i], states[i + 1]),
        0 <= k <= samples.len(),
    ensures
        states[k].visited() == stroke_cells(samples.take(k)),
        states[k].paints_on() == states[0].paints_on(),
        states[k].last_sample() == (if k == 0 {
            None
        } else {
            Some(samples[k - 1])
        }),
    decreases k,
{
    if k == 0 {
        assert(stroke_path(samples.take(0)) =~= Seq::<(u16, u16)>::empty());
    } else {
        lemma_extensions_prefix(states, samples, k - 1);
        let before = samples.take(k - 1);
        assert(Stroke::extends(states[k - 1], samples[k - 1], states[k]));
        law_extend_follows_the_path(before, samples[k - 1]);
        assert(before.push(samples[k - 1]) =~= samples.take(k));
        if k > 1 {
            assert(before.last() == samples[k - 2]);
        }
    }
}

/// A whole drag: a stroke begun empty and extended to each sample in turn, as
/// [`Stroke::begin`] and [`Stroke::extend_to`] do, keeps its paint value, ends at
/// the last sample, and has visited, in first-visit order and each once, exactly
/// the cells of the first sample and of the lines between consecutive samples; it
/// is empty only if there was no sample.
pub proof fn law_extensions_visit_the_path(states: Seq<Stroke>, samples: Seq<(u16, u16)>)
    requires
        states.len() == samples.len() + 1,
        states[0].visited() == Seq::<(u16, u16)>::empty(),
        states[0].last_sample() is None,
        forall|i: int| 0 <= i < samples.len() ==> Stroke::extends(#[trigger] states[i], samples[i], states[i + 1]),
    ensures
        states.last().visited() == stroke_cells(samples),
        states.last().paints_on() == states[0].paints_on(),
        samples.len() > 0 ==> states.last().last_sample() == Some(samples.last()),
        distinct_cells(states.last().visited()),
        forall|c: (u16, u16)| #[trigger] states.last().visited().contains(c) <==> stroke_path(samples).contains(c),
        states.last().visited().len() == 0 <==> samples.len() == 0,
{
    lemma_extensions_prefix(states, samples, samples.len() as int);
    assert(samples.take(samples.len() as int) =~= samples);
    law_stroke_visits_each_cell_once(samples);
}

/// A sampled stroke's path starts with its first sample.
proof fn lemma_stroke_path_starts(samples: Seq<(u16, u16)>)
    requires
        samples.len() > 0,
    ensures
        stroke_path(samples).len() > 0,
        stroke_path(samples)[0] == samples[0],
    decreases samples.len(),
{
    if samples.len() > 1 {
        let prefix = samples.drop_last();
        lemma_stroke_path_starts(prefix);
        assert(prefix[0] == samples[0]);
    }
}

/// An in-progress editor stroke: the fixed paint value (set by the first pixel)
/// and the ordered, de-duplicated cells visited so far.
#[derive(Debug)]
pub struct Stroke {
    /// `true` paints pixels on; `false` erases. Fixed for the whole drag.
    pub paint_on: bool,
    cells: Vec<(u16, u16)>,
    seen: HashSet<u32>,
    last: Option<(u16, u16)>,
}

impl Stroke {
    /// The cells visited so far, in visit order.
    pub closed spec fn visited(self) -> Seq<(u16, u16)> {
        self.cells@
    }

    /// The last sampled cell, from which the next extension is interpolated.
    pub closed spec fn last_sample(self) -> Option<(u16, u16)> {
        self.last
    }

    /// Whether the stroke paints on (`false`: erases).
    pub closed spec fn paints_on(self) -> bool {
        self.paint_on
    }

    /// The visited set holds exactly the keys of the visited cells.
    pub closed spec fn well_formed(self) -> bool {
        forall|k: u32| self.seen@.contains(k) <==> exists|i: int| 0 <= i < self.cells@.len() && cell_key(#[trigger] self.cells@[i]) == k
    }

    /// `after` is `before` extended to `cell`: the paint value kept, `cell` the last
    /// sample, and the new cells of the segment from the previous sample (or `cell`
    /// alone at the first sample) appended in order.
    pub open spec fn extends(before: Stroke, cell: (u16, u16), after: Stroke) -> bool {
        &&& after.paints_on() == before.paints_on()
        &&& after.last_sample() == Some(cell)
        &&& after.visited() == append_new(
            before.visited(),
            match before.last_sample() {
                Some(prev) => line_spec(prev, cell),
                None => seq![cell],
            },
        )
    }

    /// Begins a stroke painting `paint_on` (the caller passes `!current_pixel` so a
    /// stroke that starts on an off pixel paints on, and vice versa).
    pub fn begin(paint_on: bool) -> (s: Self)
        ensures
            s.paints_on() == paint_on,
            s.well_formed(),
            s.visited() == Seq::<(u16, u16)>::empty(),
            s.last_sample() is None,
    {
        Stroke { paint_on, cells: Vec::new(), seen: HashSet::new(), last: None }
    }

    /// Extends the stroke to `cell`, interpolating from the previous sample so no
    /// cell between the two is skipped. Each cell is added at most once.
    pub fn extend_to(&mut self, cell: (u16, u16))
        requires
            old(self).well_formed(),
        ensures
            final(self).well_formed(),
            Stroke::extends(*old(self), cell, *final(self)),
    {
        let segment = match self.last {
            Some(prev) => line_cells(prev, cell),
            None => {
                let mut v: Vec<(u16, u16)> = Vec::new();
                v.push(cell);
                v
            },
        };
        let mut cells: Vec<(u16, u16)> = Vec::new();
        std::mem::swap(&mut cells, &mut self.cells);
        let mut seen: HashSet<u32> = HashSet::new();
        std::mem::swap(&mut seen, &mut self.seen);
        let ghost start = cells@;
        let mut k: usize = 0;
        while k < segment.len()
            invariant
                k <= segment@.len(),
                cells@ == append_new(start, segment@.take(k as int)),
                forall|key: u32| seen@.contains(key) <==> exists|i: int| 0 <= i < cells@.len() && cell_key(#[trigger] cells@[i]) == key,
            decreases segment@.len() - k,
        {
            let c = segment[k];
            let key: u32 = c.0 as u32 * 65536 + c.1 as u32;
            proof {
                assert(segment@.take(k + 1).drop_last() =~= segment@.take(k as int));
                assert forall|a: (u16, u16), b: (u16, u16)| cell_key(a) == cell_key(b) implies a == b by {
                    assert(a.0 as int * 65536 + a.1 as int == b.0 as int * 65536 + b.1 as int);
                }
            }
            let ghost old_cells = cells@;
            let fresh = seen.insert(key);
            if fresh {
                proof {
                    if cells@.contains(c) {
                        let i = choose|i: int| 0 <= i < cells@.len() && cells@[i] == c;
                        assert(cell_key(cells@[i]) == key);
                    }
                }
                cells.push(c);
            } else {
                proof {
                    let i = choose|i: int| 0 <= i < cells@.len() && cell_key(#[trigger] cells@[i]) == key;
                    assert(cells@[i] == c);
                }
            }
            proof {
                assert forall|key2: u32| seen@.contains(key2) implies exists|i: int|
                    0 <= i < cells@.len() && cell_key(#[trigger] cells@[i]) == key2 by {
                    if key2 == key {
                        if fresh {
                            assert(cell_key(cells@[cells@.len() - 1]) == key2);
                        }
                    } else {
                        let i = choose|i: int| 0 <= i < old_cells.len() && cell_key(#[trigger] old_cells[i]) == key2;
                        assert(cells@[i] == old_cells[i]);
                    }
                }
            }
            k = k + 1;
        }
        proof {
            assert(segment@.take(segment@.len() as int) =~= segment@);
        }
        self.cells = cells;
        self.seen = seen;
        self.last = Some(cell);
        proof {
            assert forall|key: u32| self.seen@.contains(key) <==> exists|i: int|
                0 <= i < self.cells@.len() && cell_key(#[trigger] self.cells@[i]) == key by {
                if self.seen@.contains(key) {
                    assert(seen@.contains(key));
                    let i = choose|i: int| 0 <= i < cells@.len() && cell_key(#[trigger] cells@[i]) == key;
                    assert(self.cells@[i] == cells@[i]);
                }
                if exists|i: int| 0 <= i < self.cells@.len() && cell_key(#[trigger] self.cells@[i]) == key {
                    let i = choose|i: int| 0 <= i < self.cells@.len() && cell_key(#[trigger] self.cells@[i]) == key;
                    assert(cell_key(cells@[i]) == key);
                }
            }
        }
    }

    /// The cells painted so far, in visit order.
    pub fn cells(&self) -> (c: &[(u16, u16)])
        ensures
            c@ == self.visited(),
    {
        self.cells.as_slice()
    }

    /// Whether no cell has been visited yet.
    pub fn is_empty(&self) -> (r: bool)
        ensures
            r == (self.visited().len() == 0),
    {
        self.cells.len() == 0
    }

    /// The pixel edits this stroke commits: every visited cell set to `paint_on`.
    pub fn edits(&self) -> (edits: Vec<PixelEdit>)
        ensures
            edits@.len() == self.visited().len(),
            forall|i: int|
                0 <= i < edits@.len() ==> #[trigger] edits@[i] == (PixelEdit {
                    x: self.visited()[i].0,
                    y: self.visited()[i].1,
                    value: self.paints_on(),
                }),
    {
        let mut edits: Vec<PixelEdit> = Vec::new();
        let mut i: usize = 0;
        while i < self.cells.len()
            invariant
                i <= self.cells@.len(),
                edits@.len() == i,
                forall|k: int|
                    0 <= k < i ==> #[trigger] edits@[k] == (PixelEdit {
                        x: self.cells@[k].0,
                        y: self.cells@[k].1,
                        value: self.paint_on,
                    }),
            decreases self.cells@.len() - i,
        {
            let (x, y) = self.cells[i];
            edits.push(PixelEdit { x, y, value: self.paint_on });
            i = i + 1;
        }
        edits
    }
}

} // verus!
