use vstd::prelude::*;
use vstd::string::StrSliceExecFns;
use crate::bitmap::{Bitmap, BitmapModel};
use crate::error::DecodeError;
use crate::mask::{masked_pixels, MAX_SIDE};
use crate::raster::{decode_raster, process_pfp_bitmap, raster_decodes, raster_result};

verus! {

/// Relies on `egui_extras::image::load_svg_bytes_with_size` with a square
/// size hint: it parses the markup and renders it to an RGBA8 buffer of four
/// bytes per pixel. Nothing more is assumed of it: the markup can reference
/// images by path, which the default parser options resolve against the
/// local filesystem, so the rendered bitmap — its dimensions included — may
/// depend on the environment, not on the arguments alone.
#[verifier::external_body]
fn rasterize_svg(bytes: &Vec<u8>, size: u32) -> (r: Result<Bitmap, String>)
    requires
        1 <= size,
    ensures
        r matches Ok(b) ==> b@.wf(),
{
    let img = egui_extras::image::load_svg_bytes_with_size(
        bytes,
        Some(egui::SizeHint::Size(size, size)),
    )?;
    let pixels: Vec<u8> = img.pixels.iter().flat_map(|c| c.to_array()).collect();
    Ok(Bitmap { width: img.size[0], height: img.size[1], pixels })
}

/// `p` is a prefix of `s`.
pub open spec fn starts_with(s: Seq<char>, p: Seq<char>) -> bool {
    p.len() <= s.len() && s.subrange(0, p.len() as int) == p
}

/// Whether the string starts with the given prefix, character by character.
pub fn str_starts_with(s: &str, prefix: &str) -> (r: bool)
    ensures
        r == starts_with(s@, prefix@),
{
    let n = prefix.unicode_len();
    if s.unicode_len() < n {
        proof {
            assert(!starts_with(s@, prefix@));
        }
        return false;
    }
    let mut i: usize = 0;
    while i < n
        invariant
            n == prefix@.len(),
            n <= s@.len(),
            i <= n,
            forall|k: int| 0 <= k < i ==> s@[k] == prefix@[k],
        decreases n - i,
    {
        if s.get_char(i) != prefix.get_char(i) {
            proof {
                assert(s@.subrange(0, n as int)[i as int] != prefix@[i as int]);
            }
            return false;
        }
        i = i + 1;
    }
    proof {
        assert(s@.subrange(0, n as int) =~= prefix@);
    }
    true
}

/// The declared content type of a payload, the empty string standing in when
/// none was declared.
pub open spec fn ct_chars(ct: Option<String>) -> Seq<char> {
    match ct {
        Some(s) => s@,
        None => Seq::empty(),
    }
}

/// The content type names an SVG vector image.
pub open spec fn is_svg_type(ct: Seq<char>) -> bool {
    starts_with(ct, "image/svg"@)
}

/// The content type names a raster image.
pub open spec fn is_raster_type(ct: Seq<char>) -> bool {
    starts_with(ct, "image/"@) && !is_svg_type(ct)
}

/// A bitmap laid centered on a transparent square canvas of side `size`: the
/// canvas pixel at `(cx, cy)` shows the bitmap pixel at `(cx - x0, cy - y0)`
/// where `(x0, y0)` centers the bitmap (rounding the margins down), and every
/// pixel outside that window is fully transparent.
pub open spec fn centered_pixels(m: BitmapModel, size: nat) -> Seq<u8>
    recommends
        m.wf(),
        m.width <= size,
        m.height <= size,
{
    Seq::new(
        4 * size * size,
        |j: int|
            {
                let p = j / 4;
                let cx = p % (size as int);
                let cy = p / (size as int);
                let x0 = (size - m.width) / 2;
                let y0 = (size - m.height) / 2;
                if x0 <= cx < x0 + m.width && y0 <= cy < y0 + m.height {
                    m.pixels[4 * ((cy - y0) * m.width + (cx - x0)) + (j % 4)]
                } else {
                    0u8
                }
            },
    )
}

/// What the vector path makes of a rasterized bitmap: centered on a
/// transparent canvas of side `size`, then circularly masked. The result is
/// always exactly `size` by `size`.
pub open spec fn vector_processed(m: BitmapModel, size: nat) -> BitmapModel {
    BitmapModel {
        width: size,
        height: size,
        pixels: masked_pixels(size as int, centered_pixels(m, size)),
    }
}

/// The bitmap is the vector path's processing of some well-formed rasterized
/// image that fits within the target size. The rasterizer's output is not a
/// function of the payload alone, so no more than this can be promised of it.
pub open spec fn is_vector_result(b: BitmapModel, size: nat) -> bool {
    exists|m: BitmapModel|
        m.wf() && 1 <= m.width <= size && 1 <= m.height <= size && b == #[trigger] vector_processed(
            m,
            size,
        )
}

/// Copies a bitmap onto the center of a transparent square canvas.
pub fn center_on_canvas(src: &Bitmap, size: u32) -> (r: Bitmap)
    requires
        src@.wf(),
        src@.width <= size as nat,
        src@.height <= size as nat,
        1 <= size,
        4 * (size as int) * (size as int) <= usize::MAX as int,
    ensures
        r@ == (BitmapModel {
            width: size as nat,
            height: size as nat,
            pixels: centered_pixels(src@, size as nat),
        }),
        r@.wf(),
{
    let s = size as usize;
    let w = src.width;
    let h = src.height;
    let x0 = (s - w) / 2;
    let y0 = (s - h) / 2;
    let ghost target = centered_pixels(src@, size as nat);
    proof {
        assert((s as int) * (s as int) <= usize::MAX as int && 4 * ((s as int) * (s as int)) == 4
            * (s as int) * (s as int)) by (nonlinear_arith)
            requires
                4 * (s as int) * (s as int) <= usize::MAX as int,
                s >= 0,
        {}
        assert(target.len() == 4 * (s as int) * (s as int));
    }
    let count = s * s;
    let mut out: Vec<u8> = Vec::new();
    let mut p: usize = 0;
    while p < count
        invariant
            src@.wf(),
            w == src@.width,
            h == src@.height,
            w <= s,
            h <= s,
            1 <= s,
            x0 == (s - w) as int / 2,
            y0 == (s - h) as int / 2,
            count == (s as int) * (s as int),
            4 * count <= usize::MAX,
            target == centered_pixels(src@, s as nat),
            target.len() == 4 * count,
            p <= count,
            out@.len() == 4 * p,
            forall|j: int| 0 <= j < 4 * p ==> out@[j] == target[j],
        decreases count - p,
    {
        let cx = p % s;
        let cy = p / s;
        proof {
            assert(cy < s) by (nonlinear_arith)
                requires
                    p < count,
                    count == (s as int) * (s as int),
                    s >= 1,
                    cy == p as int / s as int,
            {}
        }
        if cx >= x0 && cx < x0 + w && cy >= y0 && cy < y0 + h {
            proof {
                assert((cy - y0) * (w as int) + (cx - x0) < (h as int) * (w as int) && 0 <= (cy
                    - y0) * (w as int) + (cx - x0)) by (nonlinear_arith)
                    requires
                        0 <= cx - x0 < w,
                        0 <= cy - y0 < h,
                        w >= 1,
                {}
                assert(4 * ((cy - y0) * (w as int) + (cx - x0)) + 3 < 4 * (w as int) * (h as int)
                    && 4 * (w as int) * (h as int) <= 4 * (s as int) * (s as int))
                    by (nonlinear_arith)
                    requires
                        0 <= (cy - y0) * (w as int) + (cx - x0),
                        (cy - y0) * (w as int) + (cx - x0) < (h as int) * (w as int),
                        0 <= w <= s,
                        0 <= h <= s,
                {}
                assert(4 * (s as int) * (s as int) <= usize::MAX as int);
            }
            let sbase = 4 * ((cy - y0) * w + (cx - x0));
            out.push(src.pixels[sbase]);
            out.push(src.pixels[sbase + 1]);
            out.push(src.pixels[sbase + 2]);
            out.push(src.pixels[sbase + 3]);
        } else {
            out.push(0);
            out.push(0);
            out.push(0);
            out.push(0);
        }
        proof {
            assert forall|j: int| 4 * p <= j < 4 * (p + 1) implies out@[j] == target[j] by {
                assert(j / 4 == p as int);
                assert(j % 4 == j - 4 * p);
                assert((p as int) % (s as int) == cx as int);
                assert((p as int) / (s as int) == cy as int);
            }
        }
        p = p + 1;
    }
    proof {
        assert(out@ =~= target);
        assert(out@.len() == 4 * (s as int) * (s as int));
    }
    Bitmap { width: s, height: s, pixels: out }
}

/// Decodes a payload into a processed avatar bitmap, dispatching on the
/// declared content type. An `image/svg` type takes the vector path:
/// rasterize within the square size hint, center on a transparent canvas of
/// side `size`, then mask. Any other `image/` type takes the raster path:
/// decode to RGBA8, center-crop square, scale to `size`, mask; that path
/// succeeds exactly when the bytes decode to an image with two positive
/// dimensions. Every other content type is rejected as unsupported, carrying
/// the declared type; a missing content type counts as the empty string.
/// Every bitmap returned is exactly `size` by `size` and has been through
/// the circular mask: no unmasked or non-square bitmap ever leaves this
/// function.
pub fn parse_img_response(content_type: Option<String>, bytes: &Vec<u8>, size: u32) -> (r: Result<
    Bitmap,
    DecodeError,
>)
    requires
        1 <= size,
        size as int <= MAX_SIDE as int,
        4 * (size as int) * (size as int) <= usize::MAX as int,
    ensures
        !is_svg_type(ct_chars(content_type)) && !is_raster_type(ct_chars(content_type)) ==> (
        r matches Err(e) && e matches DecodeError::UnsupportedContentType(m) && m@ == ct_chars(
            content_type,
        )),
        is_svg_type(ct_chars(content_type)) ==> match r {
            Ok(b) => b@.width == size as nat && b@.height == size as nat && b@.wf()
                && is_vector_result(b@, size as nat),
            Err(e) => e is Vector,
        },
        is_raster_type(ct_chars(content_type)) ==> {
            &&& (r is Ok) == raster_decodes(bytes@)
            &&& match r {
                Ok(b) => b@ == raster_result(bytes@, size as nat) && b@.width == size as nat
                    && b@.height == size as nat && b@.wf(),
                Err(e) => e is Raster,
            }
        },
{
    let ct: String = match content_type {
        Some(s) => s,
        None => String::new(),
    };
    if str_starts_with(ct.as_str(), "image/svg") {
        match rasterize_svg(bytes, size) {
            Ok(b) => {
                let bw = b.width;
                let bh = b.height;
                if bw < 1 || bw > size as usize || bh < 1 || bh > size as usize {
                    return Err(
                        DecodeError::Vector("rasterized dimensions are out of range".to_owned()),
                    );
                }
                let mut canvas = center_on_canvas(&b, size);
                crate::mask::round_image(&mut canvas);
                proof {
                    assert(canvas@ == vector_processed(b@, size as nat));
                    assert(is_vector_result(canvas@, size as nat));
                }
                Ok(canvas)
            },
            Err(e) => Err(DecodeError::Vector(e)),
        }
    } else if str_starts_with(ct.as_str(), "image/") {
        match decode_raster(bytes) {
            Ok(img) => {
                if img.width == 0 || img.height == 0 {
                    return Err(DecodeError::Raster("image has a zero dimension".to_owned()));
                }
                Ok(process_pfp_bitmap(size, img))
            },
            Err(e) => Err(DecodeError::Raster(e)),
        }
    } else {
        Err(DecodeError::UnsupportedContentType(ct))
    }
}

} // verus!
