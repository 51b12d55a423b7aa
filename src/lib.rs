//! Integer core of a software triangle renderer: frame-buffer addressing,
//! scan conversion of screen-space triangles, the case table of single-plane
//! triangle clipping, and face triangulation for loaded meshes.
use vstd::prelude::*;

pub mod clip;
pub mod mesh;
pub mod raster;

verus! {

/// Whether pixel `(x, y)` lies on a `w` by `h` canvas.
pub open spec fn in_canvas(x: int, y: int, w: int, h: int) -> bool {
    0 <= x < w && 0 <= y < h
}

/// Offset of the first byte of pixel `(x, y)` in a row-major RGBA8 buffer.
pub open spec fn pixel_base(x: int, y: int, w: int) -> int {
    4 * (y * w + x)
}

/// A frame buffer large enough for a `w` by `h` RGBA8 canvas whose byte
/// offsets fit in `i32`.
pub open spec fn frame_fits(len: int, w: int, h: int) -> bool {
    0 <= w && 0 <= h && 4 * (w * h) <= len && 4 * (w * h) <= i32::MAX
}

/// The buffer after writing `rgba` at pixel `(x, y)`; pixels off the canvas
/// leave it as it is.
pub open spec fn put_pixel(frame: Seq<u8>, w: int, h: int, x: int, y: int, rgba: Seq<u8>) -> Seq<
    u8,
> {
    if in_canvas(x, y, w, h) {
        let b = pixel_base(x, y, w);
        Seq::new(frame.len(), |k: int| if b <= k < b + 4 { rgba[k - b] } else { frame[k] })
    } else {
        frame
    }
}

proof fn lemma_pixel_in_frame(x: int, y: int, w: int, h: int)
    requires
        in_canvas(x, y, w, h),
    ensures
        0 <= pixel_base(x, y, w),
        pixel_base(x, y, w) + 4 <= 4 * (w * h),
{
    assert(0 <= y * w) by (nonlinear_arith)
        requires
            0 <= y,
            0 <= w,
    ;
    assert(y * w + x + 1 <= w * h) by (nonlinear_arith)
        requires
            0 <= x < w,
            0 <= y < h,
    ;
}

/// Byte offset of the first byte of pixel `(x, y)` on a canvas `canvas_width`
/// pixels wide.
pub fn get_starting_pixel_index(x: i32, y: i32, canvas_width: i32) -> (r: usize)
    requires
        0 <= x,
        0 <= y,
        0 <= canvas_width,
        4 * (y * canvas_width + x) <= i32::MAX,
    ensures
        r == pixel_base(x as int, y as int, canvas_width as int),
{
    assert(0 <= y * canvas_width) by (nonlinear_arith)
        requires
            0 <= y,
            0 <= canvas_width,
    ;
    (((y * canvas_width) + x) * 4) as usize
}

/// Writes the four bytes of `rgba` at pixel `(x, y)`; a pixel outside the
/// canvas is skipped.
pub fn color_position(
    x: i32,
    y: i32,
    canvas_width: i32,
    canvas_height: i32,
    frame: &mut [u8],
    rgba: &[u8],
)
    requires
        rgba@.len() == 4,
        frame_fits(old(frame)@.len() as int, canvas_width as int, canvas_height as int),
    ensures
        final(frame)@ == put_pixel(
            old(frame)@,
            canvas_width as int,
            canvas_height as int,
            x as int,
            y as int,
            rgba@,
        ),
{
    if (x < 0) || (y < 0) || (x >= canvas_width) || (y >= canvas_height) {
        return;
    }
    proof {
        lemma_pixel_in_frame(x as int, y as int, canvas_width as int, canvas_height as int);
    }
    let index = get_starting_pixel_index(x, y, canvas_width);
    let ghost before = frame@;
    let n = frame.len();
    let mut i: usize = 0;
    while i < 4
        invariant
            0 <= i <= 4,
            rgba@.len() == 4,
            index + 4 <= n,
            n == before.len(),
            frame@.len() == before.len(),
            forall|k: int|
                0 <= k < frame@.len() ==> #[trigger] frame@[k] == if index <= k < index + i {
                    rgba@[k - index]
                } else {
                    before[k]
                },
        decreases 4 - i,
    {
        frame[index + i] = rgba[i];
        i = i + 1;
    }
    assert(frame@ =~= put_pixel(
        before,
        canvas_width as int,
        canvas_height as int,
        x as int,
        y as int,
        rgba@,
    ));
}

/// Sets every whole pixel of `frame` to `rgba`; trailing bytes that do not
/// make up a pixel are left as they are.
pub fn clear_frame(frame: &mut [u8], rgba: &[u8])
    requires
        rgba@.len() == 4,
    ensures
        final(frame)@.len() == old(frame)@.len(),
        forall|k: int|
            0 <= k < old(frame)@.len() ==> #[trigger] final(frame)@[k] == if k < 4 * (old(
                frame,
            )@.len() / 4) {
                rgba@[k % 4]
            } else {
                old(frame)@[k]
            },
{
    let ghost before = frame@;
    let n = frame.len();
    let pixels = n / 4;
    let mut i: usize = 0;
    while i < pixels
        invariant
            rgba@.len() == 4,
            n == before.len(),
            pixels == n / 4,
            0 <= i <= pixels,
            frame@.len() == n,
            forall|k: int|
                0 <= k < n ==> #[trigger] frame@[k] == if k < 4 * i {
                    rgba@[k % 4]
                } else {
                    before[k]
                },
        decreases pixels - i,
    {
        let mut j: usize = 0;
        while j < 4
            invariant
                rgba@.len() == 4,
                n == before.len(),
                pixels == n / 4,
                0 <= i < pixels,
                0 <= j <= 4,
                frame@.len() == n,
                forall|k: int|
                    0 <= k < n ==> #[trigger] frame@[k] == if k < 4 * i + j {
                        rgba@[k % 4]
                    } else {
                        before[k]
                    },
            decreases 4 - j,
        {
            proof {
                vstd::arithmetic::div_mod::lemma_fundamental_div_mod(n as int, 4);
                vstd::arithmetic::div_mod::lemma_mod_multiples_vanish(i as int, j as int, 4);
                vstd::arithmetic::div_mod::lemma_small_mod(j as nat, 4);
            }
            frame[4 * i + j] = rgba[j];
            j = j + 1;
        }
        i = i + 1;
    }
}

} // verus!
