//! The scanline rasterizer: viewport projection from normalized
//! device coordinates to pixel coordinates, a vertical sort of the
//! three projected vertices, and a row-by-row span fill into an RGBA
//! pixel buffer.
//!
//! The fill covers the rows between the topmost and the middle sorted
//! vertex, interpolating a left and a right edge from the top vertex
//! towards the other two; this matches a triangle whose remaining two
//! vertices share a row (the base triangle keeps that shape at every
//! angle only approximately, so the fill is exact for flat-bottomed
//! or flat-topped triangles and a deliberate approximation otherwise).

use vstd::prelude::*;
use vstd::arithmetic::div_mod::{
    lemma_div_by_multiple, lemma_div_is_ordered, lemma_div_multiples_vanish_fancy,
    lemma_div_of0, lemma_div_pos_is_pos, lemma_fundamental_div_mod,
    lemma_mod_mod, lemma_mod_multiples_vanish, lemma_small_mod,
};
use crate::fixed::{FP, round_away, div_round, lemma_round_away_neg, lemma_round_away_monotone, lemma_round_away_bound};
use crate::geom::Triangle;

verus! {

/// The largest surface edge, in pixels, the rasterizer accepts.
pub const MAX_DIM: usize = 16384;

/// The fill color: opaque orange, one byte per RGBA channel.
pub const COLOR_R: u8 = 255;
pub const COLOR_G: u8 = 128;
pub const COLOR_B: u8 = 51;
pub const COLOR_A: u8 = 255;

/// The rasterizer's one error: a vertex left the normalized device
/// coordinate square, so its pixel footprint could leave the buffer.
#[derive(Clone, Copy, Debug, PartialEq, Eq, Structural)]
pub enum RasterError {
    OutOfRange,
}

/// The fill color's byte for channel `c` (0 = red .. 3 = alpha).
pub open spec fn color_at(c: int) -> u8 {
    if c == 0 {
        COLOR_R
    } else if c == 1 {
        COLOR_G
    } else if c == 2 {
        COLOR_B
    } else {
        COLOR_A
    }
}

/// The pixel column a normalized X coordinate projects to:
/// `width * (x + 1) / 2`, truncated.
pub open spec fn proj_px(x: int, w: int) -> int {
    (w * (x + FP)) / (2 * (FP as int))
}

/// The pixel row a normalized Y coordinate projects to:
/// `height - height * (y + 1) / 2`, truncated; the flip makes
/// normalized Y grow upward while rows grow downward.
pub open spec fn proj_py(y: int, h: int) -> int {
    h - (h * (y + FP)) / (2 * (FP as int))
}

/// Whether a triangle's X and Y coordinates all lie in the normalized
/// device square [-1, 1]; only such triangles have a footprint that
/// surely stays inside the buffer.
pub open spec fn in_ndc(t: Triangle) -> bool {
    &&& -FP <= t.v0.x <= FP && -FP <= t.v0.y <= FP
    &&& -FP <= t.v1.x <= FP && -FP <= t.v1.y <= FP
    &&& -FP <= t.v2.x <= FP && -FP <= t.v2.y <= FP
}

/// Projects one normalized point to pixel coordinates. The result
/// lies in [0, width] x [0, height]; the extremes -1 and 1 map to the
/// surface edges.
pub fn project_point(x: i64, y: i64, w: usize, h: usize) -> (p: (i64, i64))
    requires
        -FP <= x <= FP,
        -FP <= y <= FP,
        1 <= w <= MAX_DIM,
        1 <= h <= MAX_DIM,
    ensures
        p.0 == proj_px(x as int, w as int),
        p.1 == proj_py(y as int, h as int),
        0 <= p.0 <= w,
        0 <= p.1 <= h,
{
    proof {
        lemma_proj_in_range(x as int, w as int);
        lemma_proj_in_range(y as int, h as int);
    }
    let px: u64 = ((w as u64) * ((x + FP) as u64)) / ((2 * FP) as u64);
    let inner: u64 = ((h as u64) * ((y + FP) as u64)) / ((2 * FP) as u64);
    (px as i64, (h as i64) - (inner as i64))
}

/// The scaled coordinate `d * (v + 1) / 2` lies in [0, d] whenever
/// `v` lies in the normalized square.
proof fn lemma_proj_in_range(v: int, d: int)
    requires
        -FP <= v <= FP,
        0 < d <= MAX_DIM,
    ensures
        0 <= (d * (v + FP)) / (2 * (FP as int)) <= d,
        d * (v + FP) <= d * (2 * (FP as int)),
        0 <= d * (v + FP) <= 0x8000_0000,
{
    let tfp = 2 * (FP as int);
    assert(0 <= d * (v + FP) <= d * tfp && d * tfp <= 0x8000_0000) by (nonlinear_arith)
        requires
            0 < d <= MAX_DIM,
            tfp == 131072,
            0 <= v + FP <= tfp,
    ;
    lemma_div_pos_is_pos(d * (v + FP), tfp);
    lemma_div_is_ordered(d * (v + FP), d * tfp, tfp);
    assert((d * tfp) / tfp == d) by {
        lemma_div_by_multiple(d, tfp);
    }
}

/// Stable ascending sort of three projected points by their row: ties
/// keep their original order, as the renderer's vertical sort has it.
pub open spec fn sort3(p0: (int, int), p1: (int, int), p2: (int, int)) -> ((int, int), (int, int), (int, int)) {
    if p0.1 <= p1.1 {
        if p1.1 <= p2.1 {
            (p0, p1, p2)
        } else if p0.1 <= p2.1 {
            (p0, p2, p1)
        } else {
            (p2, p0, p1)
        }
    } else {
        if p0.1 <= p2.1 {
            (p1, p0, p2)
        } else if p1.1 <= p2.1 {
            (p1, p2, p0)
        } else {
            (p2, p1, p0)
        }
    }
}

/// The sorted triple is ascending by row, and each of its points is
/// one of the three inputs.
pub proof fn lemma_sort3_sorted(p0: (int, int), p1: (int, int), p2: (int, int))
    ensures
        sort3(p0, p1, p2).0.1 <= sort3(p0, p1, p2).1.1 <= sort3(p0, p1, p2).2.1,
        sort3(p0, p1, p2).0 == p0 || sort3(p0, p1, p2).0 == p1 || sort3(p0, p1, p2).0 == p2,
        sort3(p0, p1, p2).1 == p0 || sort3(p0, p1, p2).1 == p1 || sort3(p0, p1, p2).1 == p2,
        sort3(p0, p1, p2).2 == p0 || sort3(p0, p1, p2).2 == p1 || sort3(p0, p1, p2).2 == p2,
{
}

/// Sorts three projected pixel points ascending by row, stably.
pub fn sort3_points(p0: (i64, i64), p1: (i64, i64), p2: (i64, i64)) -> (s: ((i64, i64), (i64, i64), (i64, i64)))
    ensures
        (((s.0.0 as int, s.0.1 as int), (s.1.0 as int, s.1.1 as int), (s.2.0 as int, s.2.1 as int)))
            == sort3((p0.0 as int, p0.1 as int), (p1.0 as int, p1.1 as int), (p2.0 as int, p2.1 as int)),
{
    if p0.1 <= p1.1 {
        if p1.1 <= p2.1 {
            (p0, p1, p2)
        } else if p0.1 <= p2.1 {
            (p0, p2, p1)
        } else {
            (p2, p0, p1)
        }
    } else {
        if p0.1 <= p2.1 {
            (p1, p0, p2)
        } else if p1.1 <= p2.1 {
            (p1, p2, p0)
        } else {
            (p2, p1, p0)
        }
    }
}

/// The three projected, vertically sorted points of a triangle on a
/// surface of the given pixel size.
pub open spec fn sorted_proj(t: Triangle, w: int, h: int) -> ((int, int), (int, int), (int, int)) {
    sort3(
        (proj_px(t.v0.x as int, w), proj_py(t.v0.y as int, h)),
        (proj_px(t.v1.x as int, w), proj_py(t.v1.y as int, h)),
        (proj_px(t.v2.x as int, w), proj_py(t.v2.y as int, h)),
    )
}

/// The fill height: the row gap between the topmost and the middle
/// sorted vertex.
pub open spec fn fill_dy(s: ((int, int), (int, int), (int, int))) -> int {
    s.1.1 - s.0.1
}

/// The left edge's run per fill row, as a numerator over `fill_dy`.
pub open spec fn left_num(s: ((int, int), (int, int), (int, int))) -> int {
    (if s.1.0 <= s.2.0 { s.1.0 } else { s.2.0 }) - s.0.0
}

/// The right edge's run per fill row, as a numerator over `fill_dy`.
pub open spec fn right_num(s: ((int, int), (int, int), (int, int))) -> int {
    (if s.1.0 <= s.2.0 { s.2.0 } else { s.1.0 }) - s.0.0
}

/// The first filled column of fill row `i` (0 is the top vertex's
/// row): the top vertex's column plus the rounded left-edge run.
pub open spec fn row_start(s: ((int, int), (int, int), (int, int)), i: int) -> int {
    s.0.0 + round_away(i * left_num(s), fill_dy(s))
}

/// One past the last filled column of fill row `i`.
pub open spec fn row_stop(s: ((int, int), (int, int), (int, int)), i: int) -> int {
    s.0.0 + round_away(i * right_num(s), fill_dy(s))
}

/// Whether the pixel at (row, col) is inside the filled footprint of
/// the sorted projected triangle `s`.
pub open spec fn covered(s: ((int, int), (int, int), (int, int)), row: int, col: int) -> bool {
    &&& s.0.1 <= row < s.1.1
    &&& row_start(s, row - s.0.1) <= col < row_stop(s, row - s.0.1)
}

/// What one byte of the buffer holds after the fill: byte `k` belongs
/// to channel `k % 4` of the pixel at row `k / (4w)`, column
/// `(k % (4w)) / 4`; covered pixels take the fill color, all others
/// keep their old byte.
pub open spec fn raster_byte(s: ((int, int), (int, int), (int, int)), w: int, k: int, old: u8) -> u8 {
    if covered(s, k / (4 * w), (k % (4 * w)) / 4) {
        color_at(k % 4)
    } else {
        old
    }
}

/// The whole buffer after the fill.
pub open spec fn raster_seq(s: ((int, int), (int, int), (int, int)), w: int, b: Seq<u8>) -> Seq<u8> {
    Seq::new(b.len(), |k: int| raster_byte(s, w, k, b[k]))
}

/// A byte index built from row, column and channel decomposes back
/// into them.
proof fn lemma_byte_decompose(w: int, row: int, col: int, c: int, k: int)
    requires
        0 < w,
        0 <= row,
        0 <= col < w,
        0 <= c < 4,
        k == row * (4 * w) + 4 * col + c,
    ensures
        k / (4 * w) == row,
        (k % (4 * w)) / 4 == col,
        k % 4 == c,
{
    let fw = 4 * w;
    assert(0 <= 4 * col + c < fw);
    assert(k == fw * row + (4 * col + c)) by (nonlinear_arith)
        requires
            k == row * (4 * w) + 4 * col + c,
            fw == 4 * w,
    ;
    lemma_div_multiples_vanish_fancy(row, 4 * col + c, fw);
    lemma_mod_multiples_vanish(row, 4 * col + c, fw);
    lemma_small_mod((4 * col + c) as nat, fw as nat);
    assert(k % fw == 4 * col + c);
    lemma_div_multiples_vanish_fancy(col, c, 4);
    lemma_mod_mod(k, 4, w);
    lemma_mod_multiples_vanish(col, c, 4);
    lemma_small_mod(c as nat, 4nat);
}

/// Every byte index decomposes into a row, a column and a channel
/// that rebuild it.
proof fn lemma_byte_recompose(w: int, k: int)
    requires
        0 < w,
        0 <= k,
    ensures
        k == (k / (4 * w)) * (4 * w) + 4 * ((k % (4 * w)) / 4) + k % 4,
        0 <= k / (4 * w),
        0 <= (k % (4 * w)) / 4 < w,
        0 <= k % 4 < 4,
{
    let fw = 4 * w;
    lemma_fundamental_div_mod(k, fw);
    lemma_div_pos_is_pos(k, fw);
    vstd::arithmetic::div_mod::lemma_mod_bound(k, fw);
    let j = k % fw;
    lemma_fundamental_div_mod(j, 4);
    vstd::arithmetic::div_mod::lemma_mod_bound(j, 4);
    lemma_mod_mod(k, 4, w);
    assert(j % 4 == k % 4);
    lemma_div_pos_is_pos(j, 4);
    assert(j / 4 < w) by (nonlinear_arith)
        requires
            j < fw,
            fw == 4 * w,
            4 * (j / 4) + j % 4 == j,
            0 <= j % 4 < 4,
            0 <= j / 4,
    ;
    assert(k == (k / fw) * fw + 4 * (j / 4) + j % 4) by (nonlinear_arith)
        requires
            k == fw * (k / fw) + j,
            j == 4 * (j / 4) + j % 4,
    ;
}

/// On a fill row, one edge's rounded run stays between zero and the
/// full run to the edge's far vertex.
proof fn lemma_edge_offset_bound(n: int, d: int, i: int)
    requires
        0 < d,
        0 <= i < d,
    ensures
        n >= 0 ==> 0 <= round_away(i * n, d) <= n,
        n < 0 ==> n <= round_away(i * n, d) <= 0,
{
    if n >= 0 {
        assert(0 <= i * n <= n * d) by (nonlinear_arith)
            requires
                0 <= i < d,
                0 <= n,
        ;
        lemma_round_away_bound(i * n, d, n);
    } else {
        let m = -n;
        assert(0 <= i * m <= m * d) by (nonlinear_arith)
            requires
                0 <= i < d,
                0 <= m,
        ;
        lemma_round_away_bound(i * m, d, m);
        lemma_round_away_neg(i * m, d);
        assert(i * n == -(i * m)) by (nonlinear_arith)
            requires
                n == -m,
        ;
    }
}

/// Every fill row's span stays inside the surface: it starts at or
/// after column zero, ends at or before the right edge, and never
/// runs backwards.
pub proof fn lemma_span_in_bounds(s: ((int, int), (int, int), (int, int)), w: int, i: int)
    requires
        0 <= s.0.0 <= w,
        0 <= s.1.0 <= w,
        0 <= s.2.0 <= w,
        0 <= i < fill_dy(s),
    ensures
        0 <= row_start(s, i),
        row_start(s, i) <= row_stop(s, i),
        row_stop(s, i) <= w,
{
    let d = fill_dy(s);
    let ln = left_num(s);
    let rn = right_num(s);
    assert(i * ln <= i * rn) by (nonlinear_arith)
        requires
            0 <= i,
            ln <= rn,
    ;
    lemma_round_away_monotone(i * ln, i * rn, d);
    lemma_edge_offset_bound(ln, d, i);
    lemma_edge_offset_bound(rn, d, i);
}

/// Fills columns `start .. stop` of one pixel row with the fill
/// color, four bytes per pixel, and touches nothing else.
fn fill_row(buf: &mut Vec<u8>, width: usize, row: usize, start: usize, stop: usize)
    requires
        1 <= width <= MAX_DIM,
        start <= stop <= width,
        (row + 1) * (4 * width) <= old(buf)@.len(),
        old(buf)@.len() <= 0x4000_0000,
    ensures
        final(buf)@.len() == old(buf)@.len(),
        forall|k: int|
            0 <= k < final(buf)@.len() ==> final(buf)@[k] == (
            if row * (4 * width) + 4 * start <= k < row * (4 * width) + 4 * stop {
                color_at(k % 4)
            } else {
                old(buf)@[k]
            }),
{
    let ghost orig = buf@;
    proof {
        assert((row + 1) * (4 * width) == row * (4 * width) + 4 * width) by (nonlinear_arith);
    }
    let rowbase: usize = row * (4 * width);
    let mut col: usize = start;
    while col < stop
        invariant
            1 <= width <= MAX_DIM,
            start <= col <= stop <= width,
            rowbase == row * (4 * width),
            rowbase + 4 * width <= orig.len(),
            buf@.len() == orig.len(),
            orig.len() <= 0x4000_0000,
            forall|k: int|
                0 <= k < buf@.len() ==> buf@[k] == (
                if rowbase + 4 * start <= k < rowbase + 4 * col {
                    color_at(k % 4)
                } else {
                    orig[k]
                }),
        decreases stop - col,
    {
        let base: usize = rowbase + 4 * col;
        proof {
            lemma_byte_decompose(width as int, row as int, col as int, 0, base as int);
            lemma_byte_decompose(width as int, row as int, col as int, 1, base as int + 1);
            lemma_byte_decompose(width as int, row as int, col as int, 2, base as int + 2);
            lemma_byte_decompose(width as int, row as int, col as int, 3, base as int + 3);
        }
        buf.set(base, COLOR_R);
        buf.set(base + 1, COLOR_G);
        buf.set(base + 2, COLOR_B);
        buf.set(base + 3, COLOR_A);
        col = col + 1;
    }
}

/// One pass of `fill_row` extends the partial fill by exactly the
/// covered pixels of its row: relates the byte interval the row fill
/// touches to the coverage predicate of that row.
proof fn lemma_row_fill_step(
    s: ((int, int), (int, int), (int, int)),
    w: int,
    i: int,
    row: int,
    start: int,
    stop: int,
    b_old: Seq<u8>,
    b_mid: Seq<u8>,
    b_new: Seq<u8>,
)
    requires
        0 < w,
        b_mid.len() == b_old.len(),
        b_new.len() == b_old.len(),
        0 <= s.0.1,
        row == s.0.1 + i,
        0 <= i < fill_dy(s),
        start == row_start(s, i),
        stop == row_stop(s, i),
        0 <= start <= stop <= w,
        forall|k: int|
            0 <= k < b_old.len() ==> b_mid[k] == (
            if covered(s, k / (4 * w), (k % (4 * w)) / 4) && k / (4 * w) < s.0.1 + i {
                color_at(k % 4)
            } else {
                b_old[k]
            }),
        forall|k: int|
            0 <= k < b_old.len() ==> b_new[k] == (
            if row * (4 * w) + 4 * start <= k < row * (4 * w) + 4 * stop {
                color_at(k % 4)
            } else {
                b_mid[k]
            }),
    ensures
        forall|k: int|
            0 <= k < b_old.len() ==> b_new[k] == (
            if covered(s, k / (4 * w), (k % (4 * w)) / 4) && k / (4 * w) < s.0.1 + i + 1 {
                color_at(k % 4)
            } else {
                b_old[k]
            }),
{
    let rb = row * (4 * w);
    assert forall|k: int| 0 <= k < b_old.len() implies b_new[k] == (
        if covered(s, k / (4 * w), (k % (4 * w)) / 4) && k / (4 * w) < s.0.1 + i + 1 {
            color_at(k % 4)
        } else {
            b_old[k]
        }) by {
        lemma_byte_recompose(w, k);
        let row_k = k / (4 * w);
        let col_k = (k % (4 * w)) / 4;
        let c_k = k % 4;
        if rb + 4 * start <= k < rb + 4 * stop {
            let j = k - rb;
            assert(0 <= j < 4 * w);
            assert(k == (4 * w) * row + j) by (nonlinear_arith)
                requires
                    rb == row * (4 * w),
                    j == k - rb,
            ;
            lemma_div_multiples_vanish_fancy(row, j, 4 * w);
            lemma_mod_multiples_vanish(row, j, 4 * w);
            lemma_small_mod(j as nat, (4 * w) as nat);
            assert(row_k == row);
            assert(k % (4 * w) == j);
            assert((4 * start) / 4 == start) by {
                lemma_div_multiples_vanish_fancy(start, 0, 4);
            }
            lemma_div_is_ordered(4 * start, j, 4);
            lemma_div_is_ordered(j, 4 * stop - 1, 4);
            assert((4 * stop - 1) / 4 == stop - 1) by {
                lemma_div_multiples_vanish_fancy(stop - 1, 3, 4);
            }
            assert(start <= col_k < stop);
            assert(covered(s, row_k, col_k));
        } else {
            if covered(s, row_k, col_k) && row_k == s.0.1 + i {
                assert(row_start(s, i) <= col_k < row_stop(s, i));
                assert(k == row_k * (4 * w) + 4 * col_k + c_k);
                assert(rb + 4 * start <= k < rb + 4 * stop);
                assert(false);
            }
        }
    }
}

/// Rasterizes the triangle into the buffer: fills the rows between
/// the topmost and the middle projected vertex, each row's span
/// interpolated between the edges towards the two lower vertices;
/// every other byte of the buffer keeps its old value. A triangle
/// that leaves the normalized device square is refused whole and the
/// buffer is untouched.
pub fn rasterize(t: &Triangle, buf: &mut Vec<u8>, width: usize, height: usize) -> (res: Result<(), RasterError>)
    requires
        1 <= width <= MAX_DIM,
        1 <= height <= MAX_DIM,
        old(buf)@.len() == width * height * 4,
    ensures
        final(buf)@.len() == old(buf)@.len(),
        in_ndc(*t) ==> res == Ok::<(), RasterError>(())
            && final(buf)@ == raster_seq(sorted_proj(*t, width as int, height as int), width as int, old(buf)@),
        !in_ndc(*t) ==> res == Err::<(), RasterError>(RasterError::OutOfRange)
            && final(buf)@ == old(buf)@,
{
    let inside = t.v0.x >= -FP && t.v0.x <= FP && t.v0.y >= -FP && t.v0.y <= FP
        && t.v1.x >= -FP && t.v1.x <= FP && t.v1.y >= -FP && t.v1.y <= FP
        && t.v2.x >= -FP && t.v2.x <= FP && t.v2.y >= -FP && t.v2.y <= FP;
    if !inside {
        return Err(RasterError::OutOfRange);
    }
    let ghost orig = buf@;
    let ghost sp = sorted_proj(*t, width as int, height as int);

    let p0 = project_point(t.v0.x, t.v0.y, width, height);
    let p1 = project_point(t.v1.x, t.v1.y, width, height);
    let p2 = project_point(t.v2.x, t.v2.y, width, height);
    let (s0, s1, s2) = sort3_points(p0, p1, p2);
    proof {
        lemma_sort3_sorted(
            (p0.0 as int, p0.1 as int),
            (p1.0 as int, p1.1 as int),
            (p2.0 as int, p2.1 as int),
        );
        assert(sp == ((s0.0 as int, s0.1 as int), (s1.0 as int, s1.1 as int), (s2.0 as int, s2.1 as int)));
    }
    let dy: i64 = s1.1 - s0.1;
    if dy == 0 {
        proof {
            assert(buf@ =~= raster_seq(sp, width as int, orig));
        }
        return Ok(());
    }
    let lx: i64 = if s1.0 <= s2.0 { s1.0 } else { s2.0 };
    let rx: i64 = if s1.0 <= s2.0 { s2.0 } else { s1.0 };
    let ln: i64 = lx - s0.0;
    let rn: i64 = rx - s0.0;
    let mut i: i64 = 0;
    while i < dy
        invariant
            1 <= width <= MAX_DIM,
            1 <= height <= MAX_DIM,
            0 <= i <= dy,
            sp == ((s0.0 as int, s0.1 as int), (s1.0 as int, s1.1 as int), (s2.0 as int, s2.1 as int)),
            dy == fill_dy(sp),
            ln == left_num(sp),
            rn == right_num(sp),
            0 <= s0.0 <= width,
            0 <= s1.0 <= width,
            0 <= s2.0 <= width,
            0 <= s0.1,
            s0.1 <= s1.1,
            s1.1 <= height,
            buf@.len() == orig.len(),
            orig.len() == width * height * 4,
            forall|k: int|
                0 <= k < orig.len() ==> buf@[k] == (
                if covered(sp, k / (4 * width), (k % (4 * width)) / 4) && k / (4 * width) < s0.1 + i {
                    color_at(k % 4)
                } else {
                    orig[k]
                }),
        decreases dy - i,
    {
        proof {
            lemma_span_in_bounds(sp, width as int, i as int);
            crate::fixed::lemma_mul_abs_bound(i as int, ln as int, MAX_DIM as int, MAX_DIM as int);
            crate::fixed::lemma_mul_abs_bound(i as int, rn as int, MAX_DIM as int, MAX_DIM as int);
        }
        let start: i64 = s0.0 + div_round(i * ln, dy);
        let stop: i64 = s0.0 + div_round(i * rn, dy);
        let row: i64 = s0.1 + i;
        let ghost mid = buf@;
        proof {
            assert((row + 1) * (4 * width) <= width * height * 4) by (nonlinear_arith)
                requires
                    row + 1 <= height,
                    0 <= row,
                    0 < width,
            ;
            assert(width * height * 4 <= 0x4000_0000) by (nonlinear_arith)
                requires
                    0 < width <= MAX_DIM,
                    0 < height <= MAX_DIM,
            ;
        }
        fill_row(buf, width, row as usize, start as usize, stop as usize);
        proof {
            lemma_row_fill_step(
                sp,
                width as int,
                i as int,
                row as int,
                start as int,
                stop as int,
                orig,
                mid,
                buf@,
            );
        }
        i = i + 1;
    }
    proof {
        assert(buf@ =~= raster_seq(sp, width as int, orig));
    }
    Ok(())
}

/// A coordinate of one-half projects onto the midpoint of the
/// surface edge: `(d * 1) / 2` in fixed point is `d / 2`.
proof fn lemma_proj_halfway(d: int)
    requires
        0 < d,
    ensures
        (d * (FP as int)) / (2 * (FP as int)) == d / 2,
{
    let tfp = 2 * (FP as int);
    let q = d / 2;
    let r = d % 2;
    lemma_fundamental_div_mod(d, 2);
    vstd::arithmetic::div_mod::lemma_mod_bound(d, 2);
    assert(d * (FP as int) == tfp * q + r * (FP as int)) by (nonlinear_arith)
        requires
            d == 2 * q + r,
            tfp == 2 * (FP as int),
    ;
    lemma_div_multiples_vanish_fancy(q, r * (FP as int), tfp);
}

/// The viewport projection hits the surface corners exactly: the
/// normalized corner (-1, -1) projects to pixel (0, height), the
/// corner (1, 1) to (width, 0), and the center (0, 0) to the pixel
/// midpoint (width / 2, height - height / 2).
pub proof fn lemma_projection_corners(w: int, h: int)
    requires
        0 < w,
        0 < h,
    ensures
        proj_px(-(FP as int), w) == 0 && proj_py(-(FP as int), h) == h,
        proj_px(FP as int, w) == w && proj_py(FP as int, h) == 0,
        proj_px(0, w) == w / 2 && proj_py(0, h) == h - h / 2,
{
    let tfp = 2 * (FP as int);
    assert(w * (-(FP as int) + FP) == 0) by (nonlinear_arith);
    assert(h * (-(FP as int) + FP) == 0) by (nonlinear_arith);
    lemma_div_of0(tfp);
    assert((w * tfp) / tfp == w) by {
        lemma_div_by_multiple(w, tfp);
    }
    assert((h * tfp) / tfp == h) by {
        lemma_div_by_multiple(h, tfp);
    }
    assert(w * ((FP as int) + FP) == w * tfp);
    assert(h * ((FP as int) + FP) == h * tfp);
    lemma_proj_halfway(w);
    lemma_proj_halfway(h);
    assert(w * (0 + FP) == w * (FP as int));
    assert(h * (0 + FP) == h * (FP as int));
}

/// Rasterizing is idempotent: filling a buffer that already holds the
/// triangle's fill changes nothing, because covered pixels take the
/// same color again and all other bytes stay what they were.
pub proof fn lemma_rasterize_idempotent(s: ((int, int), (int, int), (int, int)), w: int, b: Seq<u8>)
    ensures
        raster_seq(s, w, raster_seq(s, w, b)) == raster_seq(s, w, b),
{
    let r1 = raster_seq(s, w, b);
    assert(raster_seq(s, w, r1) =~= r1);
}

/// Each span edge moves one way only from the top vertex's row to the
/// middle vertex's row: towards lower columns if its run is negative,
/// towards higher columns if it is positive — no oscillation of the
/// boundaries.
pub proof fn lemma_span_edges_monotone(s: ((int, int), (int, int), (int, int)), i: int, j: int)
    requires
        0 <= i <= j < fill_dy(s),
    ensures
        left_num(s) >= 0 ==> row_start(s, i) <= row_start(s, j),
        left_num(s) < 0 ==> row_start(s, j) <= row_start(s, i),
        right_num(s) >= 0 ==> row_stop(s, i) <= row_stop(s, j),
        right_num(s) < 0 ==> row_stop(s, j) <= row_stop(s, i),
{
    let d = fill_dy(s);
    let ln = left_num(s);
    let rn = right_num(s);
    if ln >= 0 {
        assert(i * ln <= j * ln) by (nonlinear_arith)
            requires
                0 <= i <= j,
                0 <= ln,
        ;
        lemma_round_away_monotone(i * ln, j * ln, d);
    } else {
        assert(j * ln <= i * ln) by (nonlinear_arith)
            requires
                0 <= i <= j,
                ln < 0,
        ;
        lemma_round_away_monotone(j * ln, i * ln, d);
    }
    if rn >= 0 {
        assert(i * rn <= j * rn) by (nonlinear_arith)
            requires
                0 <= i <= j,
                0 <= rn,
        ;
        lemma_round_away_monotone(i * rn, j * rn, d);
    } else {
        assert(j * rn <= i * rn) by (nonlinear_arith)
            requires
                0 <= i <= j,
                rn < 0,
        ;
        lemma_round_away_monotone(j * rn, i * rn, d);
    }
}

/// The fill is confined to the surface: every covered pixel of a
/// triangle whose projected vertices lie on the surface has its row
/// between the topmost and the middle vertex and its column within
/// the surface width.
pub proof fn lemma_covered_in_surface(
    s: ((int, int), (int, int), (int, int)),
    w: int,
    h: int,
    row: int,
    col: int,
)
    requires
        covered(s, row, col),
        0 <= s.0.0 <= w,
        0 <= s.1.0 <= w,
        0 <= s.2.0 <= w,
        0 <= s.0.1,
        s.0.1 <= s.1.1,
        s.1.1 <= h,
    ensures
        s.0.1 <= row < s.1.1,
        0 <= row < h,
        0 <= col < w,
{
    lemma_span_in_bounds(s, w, row - s.0.1);
}

/// For a triangle whose apex sits horizontally between its two lower
/// vertices (the left run non-positive, the right run non-negative),
/// the filled spans are nested: every filled row's span contains the
/// span of each row above it, so the footprint widens monotonically
/// from the apex row downward.
pub proof fn lemma_apex_spans_nested(s: ((int, int), (int, int), (int, int)), i: int, j: int)
    requires
        left_num(s) <= 0 <= right_num(s),
        0 <= i <= j < fill_dy(s),
    ensures
        row_start(s, j) <= row_start(s, i),
        row_start(s, i) <= row_stop(s, i),
        row_stop(s, i) <= row_stop(s, j),
{
    lemma_span_edges_monotone(s, i, j);
    let d = fill_dy(s);
    let ln = left_num(s);
    let rn = right_num(s);
    if ln == 0 {
        assert(i * ln == j * ln) by (nonlinear_arith)
            requires
                ln == 0,
        ;
    }
    if rn == 0 {
        assert(i * rn == j * rn) by (nonlinear_arith)
            requires
                rn == 0,
        ;
    }
    assert(i * ln <= i * rn) by (nonlinear_arith)
        requires
            0 <= i,
            ln <= rn,
    ;
    lemma_round_away_monotone(i * ln, i * rn, d);
}

} // verus!
