//! Scan conversion of screen-space triangles into horizontal spans, and the
//! flat-colour fill that writes them into an RGBA8 frame buffer.
use vstd::prelude::*;

use vstd::math::{max, min};

use crate::{color_position, frame_fits, pixel_base};

verus! {

/// The order of three vertices by ascending `y`; vertices of equal `y` keep
/// their original order.
pub open spec fn y_order(y0: int, y1: int, y2: int) -> [usize; 3] {
    if y0 <= y1 {
        if y1 <= y2 {
            [0, 1, 2]
        } else if y0 <= y2 {
            [0, 2, 1]
        } else {
            [2, 0, 1]
        }
    } else {
        if y0 <= y2 {
            [1, 0, 2]
        } else if y1 <= y2 {
            [1, 2, 0]
        } else {
            [2, 1, 0]
        }
    }
}

/// `p` lists each of the three indices once, sorts `ys` ascending, and keeps
/// equal values in index order.
pub open spec fn is_stable_y_sort(ys: [i32; 3], p: [usize; 3]) -> bool {
    &&& forall|i: int| 0 <= i < 3 ==> #[trigger] p[i] < 3
    &&& p[0] != p[1] && p[0] != p[2] && p[1] != p[2]
    &&& forall|i: int, j: int|
        0 <= i < j < 3 ==> (ys[p[i] as int] < ys[p[j] as int] || (ys[p[i] as int]
            == ys[p[j] as int] && p[i] < p[j]))
}

/// Orders the three vertices of a triangle by ascending `y`, keeping
/// vertices of equal `y` in their original order.
pub fn sort_by_y(ys: &[i32; 3]) -> (r: [usize; 3])
    ensures
        r == y_order(ys[0] as int, ys[1] as int, ys[2] as int),
        is_stable_y_sort(*ys, r),
{
    let (y0, y1, y2) = (ys[0], ys[1], ys[2]);
    if y0 <= y1 {
        if y1 <= y2 {
            [0, 1, 2]
        } else if y0 <= y2 {
            [0, 2, 1]
        } else {
            [2, 0, 1]
        }
    } else {
        if y0 <= y2 {
            [1, 0, 2]
        } else if y1 <= y2 {
            [1, 2, 0]
        } else {
            [2, 1, 0]
        }
    }
}

/// Integer quotient rounded toward zero.
pub open spec fn div_toward_zero(n: int, d: int) -> int {
    if n >= 0 {
        n / d
    } else {
        -((-n) / d)
    }
}

/// The `x` at which the edge from `(xa, ya)` to `(xb, yb)` crosses
/// scanline `y`: `xa + (y - ya) * (xb - xa) / (yb - ya)`, rounded toward zero.
pub open spec fn edge_x_spec(xa: int, ya: int, xb: int, yb: int, y: int) -> int {
    div_toward_zero(xa * (yb - ya) + (y - ya) * (xb - xa), yb - ya)
}

proof fn lemma_edge_x_between(xa: int, ya: int, xb: int, yb: int, y: int)
    requires
        ya < yb,
        ya <= y <= yb,
    ensures
        xa <= xb ==> xa <= edge_x_spec(xa, ya, xb, yb, y) <= xb,
        xb <= xa ==> xb <= edge_x_spec(xa, ya, xb, yb, y) <= xa,
{
    let d = yb - ya;
    let k = y - ya;
    let n = xa * d + k * (xb - xa);
    let lo = if xa <= xb { xa } else { xb };
    let hi = if xa <= xb { xb } else { xa };
    assert(lo * d <= n <= hi * d) by (nonlinear_arith)
        requires
            d > 0,
            0 <= k <= d,
            n == xa * d + k * (xb - xa),
            lo == (if xa <= xb { xa } else { xb }),
            hi == (if xa <= xb { xb } else { xa }),
    ;
    if n >= 0 {
        let q = n / d;
        vstd::arithmetic::div_mod::lemma_fundamental_div_mod(n, d);
        assert(lo <= q <= hi) by (nonlinear_arith)
            requires
                d > 0,
                lo * d <= n <= hi * d,
                q * d <= n < q * d + d,
        ;
    } else {
        let m = -n;
        let q = m / d;
        vstd::arithmetic::div_mod::lemma_fundamental_div_mod(m, d);
        assert(lo <= -q <= hi) by (nonlinear_arith)
            requires
                d > 0,
                lo * d <= n <= hi * d,
                m == -n,
                q * d <= m < q * d + d,
        ;
    }
}

/// The `x` at which the edge from `(xa, ya)` to `(xb, yb)` crosses scanline
/// `y`, by exact integer interpolation rounded toward zero.
pub fn edge_x(xa: i32, ya: i32, xb: i32, yb: i32, y: i32) -> (r: i32)
    requires
        ya < yb,
        ya <= y <= yb,
    ensures
        r == edge_x_spec(xa as int, ya as int, xb as int, yb as int, y as int),
        xa <= xb ==> xa <= r <= xb,
        xb <= xa ==> xb <= r <= xa,
{
    proof {
        lemma_edge_x_between(xa as int, ya as int, xb as int, yb as int, y as int);
    }
    let d: i128 = yb as i128 - ya as i128;
    let k: i128 = y as i128 - ya as i128;
    let dx: i128 = xb as i128 - xa as i128;
    assert(-0x1_0000_0000_0000_0000 <= k * dx <= 0x1_0000_0000_0000_0000) by (nonlinear_arith)
        requires
            0 <= k <= 0x1_0000_0000,
            -0x1_0000_0000 <= dx <= 0x1_0000_0000,
    ;
    assert(-0x1_0000_0000_0000_0000 <= (xa as i128) * d <= 0x1_0000_0000_0000_0000) by (
    nonlinear_arith)
        requires
            0 < d <= 0x1_0000_0000,
            -0x1_0000_0000 <= xa <= 0x1_0000_0000,
    ;
    let n: i128 = (xa as i128) * d + k * dx;
    let q: i128 = if n >= 0 {
        ((n as u128) / (d as u128)) as i128
    } else {
        -((((-n) as u128) / (d as u128)) as i128)
    };
    q as i32
}

/// One scanline of a triangle: pixels `start <= x < end` of row `y`.
#[derive(Clone, Copy, Debug, PartialEq, Eq, Structural)]
pub struct Span {
    pub y: i32,
    pub start: i32,
    pub end: i32,
    /// The short edge lies right of the long edge on this row, so `start`
    /// is on the long edge and `end` on the short one.
    pub swapped: bool,
    /// The row belongs to the half below the middle vertex, where the short
    /// edge runs from the middle vertex to the last one.
    pub second_half: bool,
}

/// The span of row `y` between edge `a` and edge `b`, ordered left to right.
pub open spec fn span_between(y: int, a: int, b: int, second_half: bool) -> Span {
    Span {
        y: y as i32,
        start: if a <= b { a as i32 } else { b as i32 },
        end: if a <= b { b as i32 } else { a as i32 },
        swapped: a > b,
        second_half,
    }
}

/// The spans of a triangle whose vertices are sorted by `y`: one for each row
/// from the first vertex to the middle one, between the short edge and the
/// long edge, then one for each row from the middle vertex to the last one.
/// A half of zero height has no spans, and the middle row appears in both
/// halves.
pub open spec fn triangle_spans_spec(xs: [i32; 3], ys: [i32; 3]) -> Seq<Span> {
    let (x0, x1, x2) = (xs[0] as int, xs[1] as int, xs[2] as int);
    let (y0, y1, y2) = (ys[0] as int, ys[1] as int, ys[2] as int);
    let first = if y0 < y1 {
        half_spans(x0, y0, x1, y1, x0, y0, x2, y2, false, (y1 - y0 + 1) as nat)
    } else {
        Seq::empty()
    };
    let second = if y1 < y2 {
        half_spans(x1, y1, x2, y2, x0, y0, x2, y2, true, (y2 - y1 + 1) as nat)
    } else {
        Seq::empty()
    };
    first + second
}

fn make_span(y: i32, a: i32, b: i32, second_half: bool) -> (r: Span)
    ensures
        r == span_between(y as int, a as int, b as int, second_half),
        r.start <= r.end,
{
    if a > b {
        Span { y, start: b, end: a, swapped: true, second_half }
    } else {
        Span { y, start: a, end: b, swapped: false, second_half }
    }
}

/// The spans of rows `ya` to `yb` between the edge `(xa, ya)`-`(xb, yb)` and
/// the long edge `(x0, y0)`-`(x2, y2)`.
pub open spec fn half_spans(
    xa: int,
    ya: int,
    xb: int,
    yb: int,
    x0: int,
    y0: int,
    x2: int,
    y2: int,
    second_half: bool,
    n: nat,
) -> Seq<Span> {
    Seq::new(
        n,
        |k: int|
            span_between(
                ya + k,
                edge_x_spec(xa, ya, xb, yb, ya + k),
                edge_x_spec(x0, y0, x2, y2, ya + k),
                second_half,
            ),
    )
}

/// Appends to `out` the spans of the rows from `ya` to `yb` between the edge
/// `(xa, ya)`-`(xb, yb)` and the long edge `(x0, y0)`-`(x2, y2)`.
fn push_half(
    out: &mut Vec<Span>,
    xa: i32,
    ya: i32,
    xb: i32,
    yb: i32,
    x0: i32,
    y0: i32,
    x2: i32,
    y2: i32,
    second_half: bool,
)
    requires
        ya < yb,
        y0 < y2,
        y0 <= ya,
        yb <= y2,
    ensures
        final(out)@ == old(out)@ + half_spans(
            xa as int,
            ya as int,
            xb as int,
            yb as int,
            x0 as int,
            y0 as int,
            x2 as int,
            y2 as int,
            second_half,
            (yb - ya + 1) as nat,
        ),
        forall|j: int|
            old(out)@.len() <= j < final(out)@.len() ==> #[trigger] final(out)@[j].start
                <= final(out)@[j].end,
{
    let ghost start = out@;
    let mut i: i64 = ya as i64;
    while i <= yb as i64
        invariant
            ya < yb,
            y0 < y2,
            y0 <= ya,
            yb <= y2,
            ya <= i <= yb + 1,
            out@ == start + half_spans(
                xa as int,
                ya as int,
                xb as int,
                yb as int,
                x0 as int,
                y0 as int,
                x2 as int,
                y2 as int,
                second_half,
                (i - ya) as nat,
            ),
            forall|j: int|
                start.len() <= j < out@.len() ==> #[trigger] out@[j].start <= out@[j].end,
        decreases yb + 1 - i,
    {
        let y = i as i32;
        let a = edge_x(xa, ya, xb, yb, y);
        let b = edge_x(x0, y0, x2, y2, y);
        let s = make_span(y, a, b, second_half);
        out.push(s);
        proof {
            assert(out@ =~= start + half_spans(
                xa as int,
                ya as int,
                xb as int,
                yb as int,
                x0 as int,
                y0 as int,
                x2 as int,
                y2 as int,
                second_half,
                (i + 1 - ya) as nat,
            ));
        }
        i = i + 1;
    }
}

/// The spans of a triangle whose vertices are sorted by ascending `y`.
pub fn triangle_spans(xs: &[i32; 3], ys: &[i32; 3]) -> (r: Vec<Span>)
    requires
        ys[0] <= ys[1] <= ys[2],
    ensures
        r@ == triangle_spans_spec(*xs, *ys),
        forall|i: int| 0 <= i < r@.len() ==> #[trigger] r@[i].start <= r@[i].end,
{
    let mut out: Vec<Span> = Vec::new();
    if ys[0] < ys[1] {
        push_half(&mut out, xs[0], ys[0], xs[1], ys[1], xs[0], ys[0], xs[2], ys[2], false);
    }
    let ghost first = out@;
    if ys[1] < ys[2] {
        push_half(&mut out, xs[1], ys[1], xs[2], ys[2], xs[0], ys[0], xs[2], ys[2], true);
    }
    proof {
        assert(out@ =~= triangle_spans_spec(*xs, *ys));
    }
    out
}

/// `v` held within `lo..=hi`.
pub open spec fn clamp(v: int, lo: int, hi: int) -> int {
    if v < lo {
        lo
    } else if v > hi {
        hi
    } else {
        v
    }
}

/// Whether byte `k` of the frame belongs to a pixel `start <= x < end` of
/// row `y` that lies on the `w` by `h` canvas.
pub open spec fn row_covers(w: int, h: int, y: int, start: int, end: int, k: int) -> bool {
    &&& 0 <= y < h
    &&& pixel_base(clamp(start, 0, w), y, w) <= k < pixel_base(clamp(end, 0, w), y, w)
}

/// The frame after pixels `start <= x < end` of row `y` are set to `rgba`.
pub open spec fn fill_row(
    frame: Seq<u8>,
    w: int,
    h: int,
    y: int,
    start: int,
    end: int,
    rgba: Seq<u8>,
) -> Seq<u8> {
    Seq::new(
        frame.len(),
        |k: int| if row_covers(w, h, y, start, end, k) { rgba[k % 4] } else { frame[k] },
    )
}

proof fn lemma_byte_of_pixel(m: int, k: int)
    requires
        4 * m <= k < 4 * m + 4,
    ensures
        k % 4 == k - 4 * m,
{
    vstd::arithmetic::div_mod::lemma_mod_multiples_vanish(m, k - 4 * m, 4);
    vstd::arithmetic::div_mod::lemma_small_mod((k - 4 * m) as nat, 4);
}

/// Sets the pixels of row `y` from the smaller of `ax` and `bx` up to, not
/// including, the larger one to `rgba`; pixels off the canvas are skipped.
pub fn fill_span(
    frame: &mut [u8],
    canvas_width: i32,
    canvas_height: i32,
    y: i32,
    ax: i32,
    bx: i32,
    rgba: &[u8],
)
    requires
        rgba@.len() == 4,
        frame_fits(old(frame)@.len() as int, canvas_width as int, canvas_height as int),
    ensures
        final(frame)@ == fill_row(
            old(frame)@,
            canvas_width as int,
            canvas_height as int,
            y as int,
            if ax <= bx { ax as int } else { bx as int },
            if ax <= bx { bx as int } else { ax as int },
            rgba@,
        ),
{
    let (lo, hi) = if ax > bx { (bx, ax) } else { (ax, bx) };
    let ghost before = frame@;
    let ghost (w, h) = (canvas_width as int, canvas_height as int);
    if y < 0 || y >= canvas_height {
        assert(frame@ =~= fill_row(before, w, h, y as int, lo as int, hi as int, rgba@));
        return;
    }
    let first = if lo < 0 { 0 } else if lo > canvas_width { canvas_width } else { lo };
    let last = if hi < 0 { 0 } else if hi > canvas_width { canvas_width } else { hi };
    let mut x = first;
    while x < last
        invariant
            rgba@.len() == 4,
            frame_fits(before.len() as int, w, h),
            w == canvas_width,
            h == canvas_height,
            0 <= y < h,
            first == clamp(lo as int, 0, w),
            last == clamp(hi as int, 0, w),
            first <= x <= last,
            frame@.len() == before.len(),
            forall|k: int|
                0 <= k < frame@.len() ==> #[trigger] frame@[k] == if pixel_base(
                    first as int,
                    y as int,
                    w,
                ) <= k < pixel_base(x as int, y as int, w) {
                    rgba@[k % 4]
                } else {
                    before[k]
                },
        decreases last - x,
    {
        color_position(x, y, canvas_width, canvas_height, frame, rgba);
        proof {
            assert forall|k: int| 0 <= k < frame@.len() implies #[trigger] frame@[k] == if pixel_base(
                first as int,
                y as int,
                w,
            ) <= k < pixel_base(x + 1, y as int, w) {
                rgba@[k % 4]
            } else {
                before[k]
            } by {
                let b = pixel_base(x as int, y as int, w);
                if b <= k < b + 4 {
                    lemma_byte_of_pixel(y * w + x, k);
                }
            }
        }
        x = x + 1;
    }
    proof {
        assert(frame@ =~= fill_row(before, w, h, y as int, lo as int, hi as int, rgba@));
    }
}

/// Whether byte `k` of the frame lies in one of `spans` on the canvas.
pub open spec fn spans_cover(w: int, h: int, spans: Seq<Span>, k: int) -> bool {
    exists|i: int|
        0 <= i < spans.len() && #[trigger] row_covers(
            w,
            h,
            spans[i].y as int,
            min(spans[i].start as int, spans[i].end as int),
            max(spans[i].start as int, spans[i].end as int),
            k,
        )
}

/// The frame after every pixel of `spans` on the canvas is set to `rgba`.
pub open spec fn fill_spans(frame: Seq<u8>, w: int, h: int, spans: Seq<Span>, rgba: Seq<u8>) -> Seq<
    u8,
> {
    Seq::new(
        frame.len(),
        |k: int| if spans_cover(w, h, spans, k) { rgba[k % 4] } else { frame[k] },
    )
}

/// The vertex coordinates reordered by ascending `y`, equal `y` in the
/// original order.
pub open spec fn sorted_by_y(xs: [i32; 3], ys: [i32; 3]) -> ([i32; 3], [i32; 3]) {
    let p = y_order(ys[0] as int, ys[1] as int, ys[2] as int);
    (
        [xs[p[0] as int], xs[p[1] as int], xs[p[2] as int]],
        [ys[p[0] as int], ys[p[1] as int], ys[p[2] as int]],
    )
}

/// The spans of the triangle with vertices `(xs[i], ys[i])`, in any order.
pub open spec fn spans_of_triangle(xs: [i32; 3], ys: [i32; 3]) -> Seq<Span> {
    let (sx, sy) = sorted_by_y(xs, ys);
    triangle_spans_spec(sx, sy)
}

/// Fills the triangle with vertices `(xs[i], ys[i])` with the flat colour
/// `rgba`, row by row from its spans; pixels off the canvas are skipped.
pub fn fill_triangle(
    frame: &mut [u8],
    canvas_width: i32,
    canvas_height: i32,
    xs: &[i32; 3],
    ys: &[i32; 3],
    rgba: &[u8],
)
    requires
        rgba@.len() == 4,
        frame_fits(old(frame)@.len() as int, canvas_width as int, canvas_height as int),
    ensures
        final(frame)@ == fill_spans(
            old(frame)@,
            canvas_width as int,
            canvas_height as int,
            spans_of_triangle(*xs, *ys),
            rgba@,
        ),
{
    let p = sort_by_y(ys);
    let sx: [i32; 3] = [xs[p[0]], xs[p[1]], xs[p[2]]];
    let sy: [i32; 3] = [ys[p[0]], ys[p[1]], ys[p[2]]];
    let spans = triangle_spans(&sx, &sy);
    let ghost before = frame@;
    let ghost (w, h) = (canvas_width as int, canvas_height as int);
    let mut i: usize = 0;
    while i < spans.len()
        invariant
            rgba@.len() == 4,
            frame_fits(before.len() as int, w, h),
            w == canvas_width,
            h == canvas_height,
            0 <= i <= spans@.len(),
            frame@ == fill_spans(before, w, h, spans@.take(i as int), rgba@),
        decreases spans@.len() - i,
    {
        let s = spans[i];
        fill_span(frame, canvas_width, canvas_height, s.y, s.start, s.end, rgba);
        proof {
            let done = spans@.take(i as int);
            let next = spans@.take(i + 1);
            assert forall|k: int| 0 <= k < frame@.len() implies #[trigger] frame@[k] == fill_spans(
                before,
                w,
                h,
                next,
                rgba@,
            )[k] by {
                let here = row_covers(
                    w,
                    h,
                    s.y as int,
                    min(s.start as int, s.end as int),
                    max(s.start as int, s.end as int),
                    k,
                );
                if here {
                    assert(next[i as int] == s);
                    assert(spans_cover(w, h, next, k));
                } else if spans_cover(w, h, done, k) {
                    let j = choose|j: int|
                        0 <= j < done.len() && #[trigger] row_covers(
                            w,
                            h,
                            done[j].y as int,
                            min(done[j].start as int, done[j].end as int),
                            max(done[j].start as int, done[j].end as int),
                            k,
                        );
                    assert(next[j] == done[j]);
                    assert(spans_cover(w, h, next, k));
                } else {
                    assert forall|j: int| 0 <= j < next.len() implies !#[trigger] row_covers(
                        w,
                        h,
                        next[j].y as int,
                        min(next[j].start as int, next[j].end as int),
                        max(next[j].start as int, next[j].end as int),
                        k,
                    ) by {
                        if j < i {
                            assert(next[j] == done[j]);
                        }
                    }
                }
            }
            assert(frame@ =~= fill_spans(before, w, h, next, rgba@));
        }
        i = i + 1;
    }
    proof {
        assert(spans@.take(spans@.len() as int) =~= spans@);
    }
}

/// Writing a span changes only bytes of pixels `min(ax, bx) <= x < max(ax, bx)`
/// of its own row, and only to the span's colour.
pub proof fn lemma_span_writes_within(
    frame: Seq<u8>,
    w: int,
    h: int,
    y: int,
    ax: int,
    bx: int,
    rgba: Seq<u8>,
    k: int,
)
    requires
        0 <= w,
        0 <= k < frame.len(),
        fill_row(frame, w, h, y, min(ax, bx), max(ax, bx), rgba)[k] != frame[k],
    ensures
        min(ax, bx) <= max(ax, bx),
        0 <= y < h,
        exists|x: int|
            min(ax, bx) <= x < max(ax, bx) && 0 <= x < w && #[trigger] pixel_base(x, y, w) <= k
                < pixel_base(x, y, w) + 4,
        fill_row(frame, w, h, y, min(ax, bx), max(ax, bx), rgba)[k] == rgba[k % 4],
{
    let lo = clamp(min(ax, bx), 0, w);
    let hi = clamp(max(ax, bx), 0, w);
    assert(row_covers(w, h, y, min(ax, bx), max(ax, bx), k));
    let x = (k - 4 * (y * w)) / 4;
    vstd::arithmetic::div_mod::lemma_fundamental_div_mod(k - 4 * (y * w), 4);
    assert(4 * (y * w + lo) <= k < 4 * (y * w + hi));
    assert(lo <= x < hi);
    assert(pixel_base(x, y, w) <= k < pixel_base(x, y, w) + 4);
}

/// The texel index for `coord` on an axis of `size` texels: coordinates past
/// the last texel are held at it, never wrapped.
pub fn texel_index(coord: u32, size: u32) -> (r: u32)
    requires
        size > 0,
    ensures
        r == min(coord as int, size - 1),
{
    if coord >= size {
        size - 1
    } else {
        coord
    }
}

} // verus!
