use vstd::prelude::*;
use vstd::arithmetic::div_mod::lemma_fundamental_div_mod_converse;

verus! {

/// The pixel of a row-major raster of the given width at column `x`, row `y`.
pub open spec fn pixel_at(s: Seq<u8>, width: int, x: int, y: int) -> u8 {
    s[y * width + x]
}

/// One pixel after binarization at the fixed midpoint threshold.
pub open spec fn bin_px(v: u8) -> u8 {
    if v < 128 {
        0u8
    } else {
        255u8
    }
}

/// A whole raster after binarization.
pub open spec fn bin_of(s: Seq<u8>) -> Seq<u8> {
    Seq::new(s.len(), |i: int| bin_px(s[i]))
}

/// Whether `(x, y)` lies in the rectangle of size `w` x `h` at `(x0, y0)`.
pub open spec fn in_rect(x: int, y: int, x0: int, y0: int, w: int, h: int) -> bool {
    x0 <= x < x0 + w && y0 <= y < y0 + h
}

/// Sum of the `h` pixels of column `x` starting at row `y0`.
pub open spec fn col_sum(s: Seq<u8>, width: int, x: int, y0: int, h: int) -> int
    decreases h,
{
    if h <= 0 {
        0
    } else {
        col_sum(s, width, x, y0, h - 1) + pixel_at(s, width, x, y0 + h - 1)
    }
}

/// Sum of the pixels of the `w` x `h` rectangle at `(x0, y0)`.
pub open spec fn rect_sum(s: Seq<u8>, width: int, x0: int, y0: int, w: int, h: int) -> int
    decreases w,
{
    if w <= 0 {
        0
    } else {
        rect_sum(s, width, x0, y0, w - 1, h) + col_sum(s, width, x0 + w - 1, y0, h)
    }
}

/// A raster index built from in-range coordinates is itself in range.
pub proof fn lemma_idx_bound(x: int, y: int, w: int, h: int)
    by (nonlinear_arith)
    requires
        0 <= x < w,
        0 <= y < h,
    ensures
        0 <= y * w + x < w * h,
{
}

/// Distinct in-range coordinates give distinct raster indices.
pub proof fn lemma_idx_inj(x1: int, y1: int, x2: int, y2: int, w: int)
    by (nonlinear_arith)
    requires
        0 <= x1 < w,
        0 <= x2 < w,
        y1 * w + x1 == y2 * w + x2,
    ensures
        x1 == x2 && y1 == y2,
{
}

/// Coordinates laid out with stride `d` recover their quotient and remainder.
pub proof fn lemma_div_mod_mul(q: int, rem: int, d: int)
    requires
        0 <= rem < d,
        0 <= q,
    ensures
        (q * d + rem) / d == q,
        (q * d + rem) % d == rem,
{
    lemma_fundamental_div_mod_converse(q * d + rem, d, q, rem);
}

/// Two rasters that agree on a column have the same column sum.
pub proof fn lemma_col_sum_congruent(
    s1: Seq<u8>,
    s2: Seq<u8>,
    width: int,
    x: int,
    y0: int,
    h: int,
)
    requires
        forall|y: int| y0 <= y < y0 + h ==> pixel_at(s1, width, x, y) == pixel_at(s2, width, x, y),
    ensures
        col_sum(s1, width, x, y0, h) == col_sum(s2, width, x, y0, h),
    decreases h,
{
    if h > 0 {
        lemma_col_sum_congruent(s1, s2, width, x, y0, h - 1);
    }
}

/// Two rasters that agree on a rectangle have the same rectangle sum.
pub proof fn lemma_rect_sum_congruent(
    s1: Seq<u8>,
    s2: Seq<u8>,
    width: int,
    x0: int,
    y0: int,
    w: int,
    h: int,
)
    requires
        forall|x: int, y: int|
            in_rect(x, y, x0, y0, w, h) ==> pixel_at(s1, width, x, y) == pixel_at(
                s2,
                width,
                x,
                y,
            ),
    ensures
        rect_sum(s1, width, x0, y0, w, h) == rect_sum(s2, width, x0, y0, w, h),
    decreases w,
{
    if w > 0 {
        lemma_rect_sum_congruent(s1, s2, width, x0, y0, w - 1, h);
        lemma_col_sum_congruent(s1, s2, width, x0 + w - 1, y0, h);
    }
}

/// Binarize every pixel in place at the fixed midpoint threshold: values
/// below 128 become 0, all others become 255.
pub fn binarize(pixels: &mut Vec<u8>)
    ensures
        final(pixels)@ == bin_of(old(pixels)@),
{
    let n = pixels.len();
    let mut i: usize = 0;
    while i < n
        invariant
            pixels@.len() == n,
            old(pixels)@.len() == n,
            i <= n,
            forall|j: int| 0 <= j < i ==> pixels@[j] == bin_px(old(pixels)@[j]),
            forall|j: int| i <= j < n ==> pixels@[j] == old(pixels)@[j],
        decreases n - i,
    {
        let v = pixels[i];
        pixels[i] = if v < 128 {
            0
        } else {
            255
        };
        i += 1;
    }
    proof {
        assert(pixels@ =~= bin_of(old(pixels)@));
    }
}

/// Sum the pixel values of one domino cell: the 8 x 24 rectangle at
/// `(x0, y0)` of a raster of the given dimensions.
pub fn cell_sum(pixels: &Vec<u8>, width: u32, height: u32, x0: u32, y0: u32) -> (s: u32)
    requires
        pixels@.len() == width as int * height as int,
        x0 + 8 <= width,
        y0 + 24 <= height,
    ensures
        s == rect_sum(pixels@, width as int, x0 as int, y0 as int, 8, 24),
        s <= 48960,
{
    let n = pixels.len();
    let mut sum: u32 = 0;
    let mut x: u32 = 0;
    while x < 8
        invariant
            n == pixels@.len(),
            pixels@.len() == width as int * height as int,
            x0 + 8 <= width,
            y0 + 24 <= height,
            x <= 8,
            sum == rect_sum(pixels@, width as int, x0 as int, y0 as int, x as int, 24),
            sum <= 6120 * x,
        decreases 8 - x,
    {
        let mut y: u32 = 0;
        proof {
            assert(col_sum(pixels@, width as int, x0 + x, y0 as int, 0) == 0);
        }
        while y < 24
            invariant
                n == pixels@.len(),
                pixels@.len() == width as int * height as int,
                x0 + 8 <= width,
                y0 + 24 <= height,
                x < 8,
                y <= 24,
                sum == rect_sum(pixels@, width as int, x0 as int, y0 as int, x as int, 24)
                    + col_sum(pixels@, width as int, x0 + x, y0 as int, y as int),
                sum <= 6120 * x + 255 * y,
            decreases 24 - y,
        {
            proof {
                lemma_idx_bound(x0 + x, y0 + y, width as int, height as int);
            }
            let idx: usize = (((y0 + y) as usize) * (width as usize)) + ((x0 + x) as usize);
            let p = pixels[idx];
            proof {
                assert(p == pixel_at(pixels@, width as int, x0 + x, y0 + y));
            }
            sum = sum + (p as u32);
            y += 1;
        }
        x += 1;
    }
    sum
}

/// Paint the `w` x `h` rectangle at `(x0, y0)` with the single value `val`,
/// leaving every pixel outside the rectangle unchanged.
pub fn paint_rect(
    pixels: &mut Vec<u8>,
    width: u32,
    height: u32,
    x0: u32,
    y0: u32,
    w: u32,
    h: u32,
    val: u8,
)
    requires
        old(pixels)@.len() == width as int * height as int,
        x0 + w <= width,
        y0 + h <= height,
    ensures
        final(pixels)@.len() == old(pixels)@.len(),
        forall|x: int, y: int|
            0 <= x < width && 0 <= y < height ==> #[trigger] pixel_at(
                final(pixels)@,
                width as int,
                x,
                y,
            ) == (if in_rect(x, y, x0 as int, y0 as int, w as int, h as int) {
                val
            } else {
                pixel_at(old(pixels)@, width as int, x, y)
            }),
{
    let n = pixels.len();
    let mut y: u32 = 0;
    while y < h
        invariant
            n == pixels@.len(),
            pixels@.len() == width as int * height as int,
            x0 + w <= width,
            y0 + h <= height,
            y <= h,
            forall|xx: int, yy: int|
                0 <= xx < width && 0 <= yy < height ==> #[trigger] pixel_at(
                    pixels@,
                    width as int,
                    xx,
                    yy,
                ) == (if in_rect(xx, yy, x0 as int, y0 as int, w as int, y as int) {
                    val
                } else {
                    pixel_at(old(pixels)@, width as int, xx, yy)
                }),
        decreases h - y,
    {
        let mut x: u32 = 0;
        while x < w
            invariant
                n == pixels@.len(),
                pixels@.len() == width as int * height as int,
                x0 + w <= width,
                y0 + h <= height,
                y < h,
                x <= w,
                forall|xx: int, yy: int|
                    0 <= xx < width && 0 <= yy < height ==> #[trigger] pixel_at(
                        pixels@,
                        width as int,
                        xx,
                        yy,
                    ) == (if in_rect(xx, yy, x0 as int, y0 as int, w as int, y as int) || (yy == y0
                        + y && x0 <= xx < x0 + x) {
                        val
                    } else {
                        pixel_at(old(pixels)@, width as int, xx, yy)
                    }),
            decreases w - x,
        {
            proof {
                lemma_idx_bound(x0 + x, y0 + y, width as int, height as int);
            }
            let idx: usize = (((y0 + y) as usize) * (width as usize)) + ((x0 + x) as usize);
            let ghost prev = pixels@;
            pixels[idx] = val;
            proof {
                assert forall|xx: int, yy: int| 0 <= xx < width && 0 <= yy < height implies
                    #[trigger] pixel_at(pixels@, width as int, xx, yy) == (if in_rect(
                        xx,
                        yy,
                        x0 as int,
                        y0 as int,
                        w as int,
                        y as int,
                    ) || (yy == y0 + y && x0 <= xx < x0 + x + 1) {
                        val
                    } else {
                        pixel_at(old(pixels)@, width as int, xx, yy)
                    }) by {
                    lemma_idx_bound(xx, yy, width as int, height as int);
                    if yy * width as int + xx == idx as int {
                        lemma_idx_inj(xx, yy, x0 + x, y0 + y, width as int);
                    } else {
                        assert(pixel_at(pixels@, width as int, xx, yy) == pixel_at(
                            prev,
                            width as int,
                            xx,
                            yy,
                        ));
                    }
                }
            }
            x += 1;
        }
        y += 1;
    }
}

} // verus!
