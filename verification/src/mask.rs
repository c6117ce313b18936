use vstd::prelude::*;
use crate::bitmap::Bitmap;

verus! {

/// The largest bitmap side the mask accepts; keeps every intermediate
/// product inside 64 bits.
pub const MAX_SIDE: usize = 1048576;

/// The square of an integer.
pub open spec fn sq(n: int) -> int {
    n * n
}

/// Four times the squared distance from the center of a bitmap of side `s`
/// to the pixel at column `x`, row `y`. Doubling the coordinates keeps the
/// half-pixel center exact in integers.
pub open spec fn dist4(s: int, x: int, y: int) -> int {
    sq(s - 2 * x) + sq(s - 2 * y)
}

/// `r` is the integer square root of `n`.
pub open spec fn is_isqrt(n: int, r: int) -> bool {
    0 <= r && r * r <= n && n < (r + 1) * (r + 1)
}

/// The integer square root of `n`: the largest `r` with `r * r <= n`.
pub open spec fn isqrt(n: int) -> int {
    choose|r: int| is_isqrt(n, r)
}

/// The fade factor near the circle's edge, in units of 1/2048: the distance
/// from the pixel to the edge of the circle, measured in pixels, where the
/// square root is taken with ten binary digits of fixed-point precision.
pub open spec fn fade_scale(s: int, d4: int) -> int {
    1024 * s - isqrt(1048576 * d4)
}

/// One channel of a boundary pixel after the anti-aliasing fade: the channel
/// scaled by the fade factor, truncated.
pub open spec fn fade_channel(c: u8, s: int, d4: int) -> u8 {
    ((c * fade_scale(s, d4)) / 2048) as u8
}

/// One byte of the masked pixel buffer. `j` indexes the flat buffer; the
/// pixel index is `j / 4`, its coordinates come from the side `s`.
pub open spec fn masked_byte(s: int, pixels: Seq<u8>, j: int) -> u8 {
    let i = j / 4;
    let x = i % s;
    let y = i / s;
    let d4 = dist4(s, x, y);
    if d4 > sq(s) {
        0u8
    } else if d4 >= sq(s - 2) {
        fade_channel(pixels[j], s, d4)
    } else {
        pixels[j]
    }
}

/// The whole pixel buffer after the circular mask: pixels outside the
/// inscribed circle become fully transparent, pixels within one pixel of the
/// edge fade, interior pixels stay as they are.
pub open spec fn masked_pixels(s: int, pixels: Seq<u8>) -> Seq<u8> {
    Seq::new(pixels.len(), |j: int| masked_byte(s, pixels, j))
}

/// Builds an integer square root as a witness, counting up.
proof fn lemma_isqrt_witness(n: int) -> (r: int)
    requires
        n >= 0,
    ensures
        is_isqrt(n, r),
    decreases n,
{
    if n == 0 {
        assert(is_isqrt(0, 0));
        0
    } else {
        let p = lemma_isqrt_witness(n - 1);
        if (p + 1) * (p + 1) <= n {
            assert(((p + 1) + 1) * ((p + 1) + 1) > n) by (nonlinear_arith)
                requires
                    (p + 1) * (p + 1) <= n,
                    n - 1 < (p + 1) * (p + 1),
                    p >= 0,
            {}
            assert(is_isqrt(n, p + 1));
            p + 1
        } else {
            assert(is_isqrt(n, p));
            p
        }
    }
}

/// The integer square root exists and is unique, so `isqrt` satisfies its
/// defining property.
pub proof fn lemma_isqrt(n: int)
    requires
        n >= 0,
    ensures
        is_isqrt(n, isqrt(n)),
{
    let w = lemma_isqrt_witness(n);
    assert(is_isqrt(n, w));
}

/// Any two integer square roots of the same number are equal.
pub proof fn lemma_isqrt_unique(n: int, r: int)
    requires
        is_isqrt(n, r),
    ensures
        r == isqrt(n),
{
    lemma_isqrt(n);
    let q = isqrt(n);
    assert(r == q) by (nonlinear_arith)
        requires
            0 <= r && r * r <= n && n < (r + 1) * (r + 1),
            0 <= q && q * q <= n && n < (q + 1) * (q + 1),
    {}
}

/// The integer square root of a perfect square.
pub proof fn lemma_isqrt_square(k: int)
    requires
        k >= 0,
    ensures
        isqrt(k * k) == k,
{
    assert(k * k < (k + 1) * (k + 1)) by (nonlinear_arith)
        requires
            k >= 0,
    {}
    lemma_isqrt_unique(k * k, k);
}

/// Square roots respect order.
pub proof fn lemma_isqrt_monotone(a: int, b: int)
    requires
        0 <= a <= b,
    ensures
        isqrt(a) <= isqrt(b),
{
    lemma_isqrt(a);
    lemma_isqrt(b);
    let ra = isqrt(a);
    let rb = isqrt(b);
    assert(ra <= rb) by (nonlinear_arith)
        requires
            0 <= ra && ra * ra <= a && a < (ra + 1) * (ra + 1),
            0 <= rb && rb * rb <= b && b < (rb + 1) * (rb + 1),
            a <= b,
    {}
}

/// The largest integer square root of a 64-bit value, found by binary search.
pub fn isqrt64(n: u64) -> (r: u64)
    ensures
        r == isqrt(n as int),
        is_isqrt(n as int, r as int),
{
    let mut lo: u64 = 0;
    let mut hi: u64 = 4294967296;
    assert((4294967296int) * (4294967296int) > n as int);
    while lo + 1 < hi
        invariant
            lo < hi <= 4294967296,
            (lo as int) * (lo as int) <= n as int,
            (hi as int) * (hi as int) > n as int,
        decreases hi - lo,
    {
        let mid = lo + (hi - lo) / 2;
        proof {
            assert((mid as int) * (mid as int) <= (4294967296int) * (4294967296int))
                by (nonlinear_arith)
                requires
                    0 <= mid as int <= 4294967296int,
            {}
        }
        let square = (mid as u128) * (mid as u128);
        if square <= n as u128 {
            lo = mid;
        } else {
            hi = mid;
        }
    }
    proof {
        lemma_isqrt_unique(n as int, lo as int);
    }
    lo
}

/// On a one-pixel-wide bitmap every pixel misses the circle: with `s == 1`
/// the vertical offset is odd, so the squared distance is at least 2.
proof fn lemma_side_one_all_outside(y: int)
    ensures
        dist4(1, 0, y) > 1,
{
    let b = 1 - 2 * y;
    assert(b != 0);
    assert(b * b >= 1) by (nonlinear_arith)
        requires
            b >= 1 || b <= -1,
    {}
    assert(dist4(1, 0, y) == sq(1) + sq(b));
    assert(sq(1) == 1);
    assert(sq(b) == b * b);
}

/// In the fade band the fade factor lies between 0 and 2048, so a faded
/// channel never exceeds the original channel.
pub proof fn lemma_fade_scale_bounds(s: int, d4: int)
    requires
        s >= 2,
        sq(s - 2) <= d4 <= sq(s),
    ensures
        0 <= fade_scale(s, d4) <= 2048,
{
    let q = isqrt(1048576 * d4);
    assert(1048576 * sq(s - 2) == (1024 * (s - 2)) * (1024 * (s - 2))) by (nonlinear_arith) {}
    assert(1048576 * sq(s) == (1024 * s) * (1024 * s)) by (nonlinear_arith) {}
    assert(1048576 * sq(s - 2) <= 1048576 * d4 <= 1048576 * sq(s)) by (nonlinear_arith)
        requires
            sq(s - 2) <= d4 <= sq(s),
    {}
    lemma_isqrt_monotone(1048576 * sq(s - 2), 1048576 * d4);
    lemma_isqrt_monotone(1048576 * d4, 1048576 * sq(s));
    lemma_isqrt_square(1024 * (s - 2));
    lemma_isqrt_square(1024 * s);
}

/// A faded channel stays within the byte range.
pub proof fn lemma_fade_channel_le(c: u8, s: int, d4: int)
    requires
        s >= 2,
        sq(s - 2) <= d4 <= sq(s),
    ensures
        0 <= (c * fade_scale(s, d4)) / 2048 <= c,
        fade_channel(c, s, d4) == (c * fade_scale(s, d4)) / 2048,
{
    lemma_fade_scale_bounds(s, d4);
    let f = fade_scale(s, d4);
    assert(0 <= c * f <= c * 2048) by (nonlinear_arith)
        requires
            0 <= f <= 2048,
            c >= 0,
    {}
    assert(0 <= (c * f) / 2048 <= c) by (nonlinear_arith)
        requires
            0 <= c * f <= c * 2048,
    {}
}

/// Applies the circular mask in place. The circle is inscribed in the
/// bitmap's width, matching the row length used to locate each pixel. Every
/// pixel outside the circle becomes fully transparent; pixels within one
/// pixel of the edge have all four channels scaled by the distance to the
/// edge; interior pixels are untouched. The dimensions never change.
///
/// The fade factor is computed in fixed-point integer arithmetic with ten
/// fractional bits, not in floating point: a faded channel can differ by one
/// step from what single-precision arithmetic would give in the band, so
/// outputs are not bit-for-bit comparable with a floating-point masker
/// there. Whether a pixel is outside, fading or interior agrees exactly with
/// the single-precision predicate for sides up to 4096, where the squared
/// distances are exact in that format.
pub fn round_image(image: &mut Bitmap)
    requires
        old(image)@.wf(),
        old(image)@.width <= MAX_SIDE,
        old(image)@.height <= MAX_SIDE,
    ensures
        final(image)@.width == old(image)@.width,
        final(image)@.height == old(image)@.height,
        final(image)@.pixels == masked_pixels(old(image)@.width as int, old(image)@.pixels),
        final(image)@.wf(),
{
    let s = image.width;
    let len = image.pixels.len();
    let count = len / 4;
    let ghost orig = image.pixels@;
    let ghost h = old(image)@.height as int;
    proof {
        assert(len == 4 * (s as int) * h);
        assert(count == (s as int) * h && 4 * count == len) by (nonlinear_arith)
            requires
                len == 4 * (s as int) * h,
                count == len as int / 4,
                s >= 0,
                h >= 0,
        {}
    }
    let mut p: usize = 0;
    while p < count
        invariant
            image.width == old(image).width,
            image.height == old(image).height,
            s == old(image)@.width,
            s <= MAX_SIDE,
            h == old(image)@.height as int,
            h <= MAX_SIDE,
            len == orig.len(),
            orig == old(image)@.pixels,
            4 * count == len,
            count == (s as int) * h,
            p <= count,
            image.pixels@.len() == len,
            forall|j: int| 4 * p <= j < len ==> image.pixels@[j] == orig[j],
            forall|j: int| 0 <= j < 4 * p ==> image.pixels@[j] == masked_byte(s as int, orig, j),
        decreases count - p,
    {
        proof {
            assert(s >= 1 && h >= 1) by (nonlinear_arith)
                requires
                    count == (s as int) * h,
                    p < count,
                    s >= 0,
                    h >= 0,
            {}
        }
        let x = p % s;
        let y = p / s;
        proof {
            assert(y < h) by (nonlinear_arith)
                requires
                    p < count,
                    count == (s as int) * h,
                    s >= 1,
                    y == p as int / s as int,
            {}
        }
        let dx: i64 = (s as i64) - 2 * (x as i64);
        let dy: i64 = (s as i64) - 2 * (y as i64);
        proof {
            assert(0 <= dx * dx <= 1099511627776int && 0 <= dy * dy <= 4398046511104int)
                by (nonlinear_arith)
                requires
                    -1048576 <= dx as int <= 1048576,
                    -2097152 <= dy as int <= 2097152,
            {}
        }
        let d4: u64 = (dx * dx + dy * dy) as u64;
        proof {
            assert((s as int) * (s as int) <= 1099511627776int) by (nonlinear_arith)
                requires
                    0 <= s as int <= 1048576,
            {}
        }
        let s2: u64 = (s as u64) * (s as u64);
        proof {
            assert(d4 == dist4(s as int, x as int, y as int));
            assert(s2 == sq(s as int));
        }
        let base = 4 * p;
        proof {
            assert(4 * (p as int) + 3 < len);
        }
        if d4 > s2 {
            image.pixels.set(base, 0);
            image.pixels.set(base + 1, 0);
            image.pixels.set(base + 2, 0);
            image.pixels.set(base + 3, 0);
        } else {
            proof {
                if s == 1 {
                    assert(x == 0);
                    lemma_side_one_all_outside(y as int);
                    assert(d4 == dist4(1, 0, y as int));
                    assert((s as int) * (s as int) == 1) by (nonlinear_arith)
                        requires
                            s as int == 1,
                    {}
                    assert(d4 <= 1);
                    assert(false);
                }
                assert(s >= 2);
                assert(((s - 2) as int) * ((s - 2) as int) <= 1099511627776int)
                    by (nonlinear_arith)
                    requires
                        0 <= (s - 2) as int <= 1048576,
                {}
            }
            let edge: u64 = (s as u64) - 2;
            let t: u64 = edge * edge;
            proof {
                assert(t == sq(s as int - 2));
            }
            if d4 >= t {
                let q = isqrt64(1048576 * d4);
                proof {
                    lemma_fade_scale_bounds(s as int, d4 as int);
                    assert(1048576 * (d4 as int) == (1048576 * d4) as int);
                    assert(q as int == isqrt(1048576 * (d4 as int)));
                }
                let scale: u64 = 1024 * (s as u64) - q;
                let c0 = image.pixels[base];
                let c1 = image.pixels[base + 1];
                let c2 = image.pixels[base + 2];
                let c3 = image.pixels[base + 3];
                proof {
                    assert(scale as int == fade_scale(s as int, d4 as int));
                    lemma_fade_channel_le(c0, s as int, d4 as int);
                    lemma_fade_channel_le(c1, s as int, d4 as int);
                    lemma_fade_channel_le(c2, s as int, d4 as int);
                    lemma_fade_channel_le(c3, s as int, d4 as int);
                }
                image.pixels.set(base, ((c0 as u64 * scale) / 2048) as u8);
                image.pixels.set(base + 1, ((c1 as u64 * scale) / 2048) as u8);
                image.pixels.set(base + 2, ((c2 as u64 * scale) / 2048) as u8);
                image.pixels.set(base + 3, ((c3 as u64 * scale) / 2048) as u8);
            }
        }
        proof {
            assert forall|j: int| 0 <= j < 4 * (p + 1) implies image.pixels@[j] == masked_byte(
                s as int,
                orig,
                j,
            ) by {
                if 4 * p <= j {
                    assert(j / 4 == p as int);
                    assert((p as int) % (s as int) == x as int);
                    assert((p as int) / (s as int) == y as int);
                    assert(masked_byte(s as int, orig, j) == image.pixels@[j]);
                }
            }
        }
        p = p + 1;
    }
    proof {
        assert(image.pixels@ =~= masked_pixels(s as int, orig));
        assert(4 * (image@.width as int) * (image@.height as int) == len) by (nonlinear_arith)
            requires
                len == 4 * (s as int) * h,
                image@.width as int == s as int,
                image@.height as int == h,
        {}
    }
}

/// The mask never changes the buffer's size: no cropping happens during
/// masking.
pub proof fn lemma_mask_preserves_len(s: int, pixels: Seq<u8>)
    ensures
        masked_pixels(s, pixels).len() == pixels.len(),
{
}

/// On a square bitmap of side at least 4, the pixel at the center is left
/// unmodified by the mask: all four of its bytes keep their original values.
pub proof fn lemma_mask_center_unmodified(s: int, pixels: Seq<u8>, t: int)
    requires
        4 <= s,
        pixels.len() == 4 * s * s,
        0 <= t < 4,
    ensures
        masked_pixels(s, pixels)[4 * ((s / 2) * s + s / 2) + t] == pixels[4 * ((s / 2) * s + s
            / 2) + t],
{
    let c = s / 2;
    let i = c * s + c;
    let j = 4 * i + t;
    assert(0 <= c < s);
    vstd::arithmetic::div_mod::lemma_fundamental_div_mod_converse(i, s, c, c);
    vstd::arithmetic::div_mod::lemma_fundamental_div_mod_converse(j, 4, i, t);
    assert(0 <= j && j < 4 * s * s) by (nonlinear_arith)
        requires
            0 <= c < s,
            i == c * s + c,
            j == 4 * i + t,
            0 <= t < 4,
            s >= 1,
    {}
    let a = s - 2 * c;
    assert(0 <= a <= 1);
    assert(dist4(s, c, c) == a * a + a * a);
    assert(a * a + a * a <= 2) by (nonlinear_arith)
        requires
            0 <= a <= 1,
    {}
    assert(sq(s) >= 16 && sq(s - 2) >= 4) by (nonlinear_arith)
        requires
            s >= 4,
    {}
    assert(masked_byte(s, pixels, j) == pixels[j]);
}

/// On a square bitmap of side at least 7, every corner pixel becomes fully
/// transparent: all four of its bytes are zero after the mask. (On smaller
/// bitmaps the corner opposite the origin can still touch the circle.)
pub proof fn lemma_mask_corners_transparent(s: int, pixels: Seq<u8>, x: int, y: int, t: int)
    requires
        7 <= s,
        pixels.len() == 4 * s * s,
        x == 0 || x == s - 1,
        y == 0 || y == s - 1,
        0 <= t < 4,
    ensures
        masked_pixels(s, pixels)[4 * (y * s + x) + t] == 0,
{
    let i = y * s + x;
    let j = 4 * i + t;
    vstd::arithmetic::div_mod::lemma_fundamental_div_mod_converse(i, s, y, x);
    vstd::arithmetic::div_mod::lemma_fundamental_div_mod_converse(j, 4, i, t);
    assert(0 <= j && j < 4 * s * s) by (nonlinear_arith)
        requires
            0 <= x < s,
            0 <= y < s,
            i == y * s + x,
            j == 4 * i + t,
            0 <= t < 4,
            s >= 1,
    {}
    let a = s - 2 * x;
    let b = s - 2 * y;
    assert(a == s || a == 2 - s);
    assert(b == s || b == 2 - s);
    assert(a * a == s * s || a * a == (s - 2) * (s - 2)) by (nonlinear_arith)
        requires
            a == s || a == 2 - s,
    {}
    assert(b * b == s * s || b * b == (s - 2) * (s - 2)) by (nonlinear_arith)
        requires
            b == s || b == 2 - s,
    {}
    assert((s - 2) * (s - 2) + (s - 2) * (s - 2) > s * s && s * s + (s - 2) * (s - 2) > s * s
        && s * s + s * s > s * s) by (nonlinear_arith)
        requires
            s >= 7,
    {}
    assert(dist4(s, x, y) > sq(s));
    assert(masked_byte(s, pixels, j) == 0);
}

} // verus!
