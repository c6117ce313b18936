use vstd::prelude::*;
use crate::bitmap::{Bitmap, BitmapModel};
use crate::mask::{masked_pixels, MAX_SIDE};
use crate::mask::round_image;

verus! {

/// What decoding a byte sequence as a raster image yields once reduced to
/// RGBA8: `None` when the bytes are not a recognizable image, otherwise the
/// dimensions and the flat four-bytes-per-pixel buffer. Decoding is a pure
/// function of the bytes.
pub uninterp spec fn decoded_image(bytes: Seq<u8>) -> Option<BitmapModel>;

/// What the `image` crate's Catmull-Rom resampling produces from an RGBA8
/// buffer of the given dimensions; a pure function of its arguments.
pub uninterp spec fn resized_rgba(pixels: Seq<u8>, w: nat, h: nat, nw: nat, nh: nat) -> Seq<u8>;

/// The subrectangle of width `w` and height `h` at `(x, y)` of a flat RGBA8
/// buffer whose rows are `src_w` pixels wide.
pub open spec fn crop_rect(pixels: Seq<u8>, src_w: nat, x: nat, y: nat, w: nat, h: nat) -> Seq<
    u8,
> {
    Seq::new(
        4 * w * h,
        |j: int|
            {
                let p = j / 4;
                let px = p % (w as int);
                let py = p / (w as int);
                pixels[4 * ((y + py) * src_w + (x + px)) + (j % 4)]
            },
    )
}

/// The square center crop: the longer dimension loses half the excess on
/// each side, rounding the offset down, so the crop sits half a pixel toward
/// the left or top when the excess is odd.
pub open spec fn square_crop(m: BitmapModel) -> BitmapModel {
    if m.width > m.height {
        BitmapModel {
            width: m.height,
            height: m.height,
            pixels: crop_rect(
                m.pixels,
                m.width,
                (((m.width - m.height) as nat) / 2) as nat,
                0,
                m.height,
                m.height,
            ),
        }
    } else if m.height > m.width {
        BitmapModel {
            width: m.width,
            height: m.width,
            pixels: crop_rect(
                m.pixels,
                m.width,
                0,
                (((m.height - m.width) as nat) / 2) as nat,
                m.width,
                m.width,
            ),
        }
    } else {
        m
    }
}

/// A square bitmap scaled to the target side: left untouched when it already
/// has that side (no resampling happens then), otherwise resampled.
pub open spec fn resized_square(m: BitmapModel, size: nat) -> BitmapModel {
    if m.width == size && m.height == size {
        m
    } else {
        BitmapModel {
            width: size,
            height: size,
            pixels: resized_rgba(m.pixels, m.width, m.height, size, size),
        }
    }
}

/// The full raster pipeline on a decoded image: square center crop, scale to
/// the target side, then the circular mask.
pub open spec fn processed_model(m: BitmapModel, size: nat) -> BitmapModel {
    let rs = resized_square(square_crop(m), size);
    BitmapModel {
        width: rs.width,
        height: rs.height,
        pixels: masked_pixels(rs.width as int, rs.pixels),
    }
}

/// The bytes decode to an image with at least one pixel in each dimension,
/// so the raster pipeline owes a bitmap for them.
pub open spec fn raster_decodes(bytes: Seq<u8>) -> bool {
    decoded_image(bytes) matches Some(m) && 1 <= m.width && 1 <= m.height
}

/// What the raster path must return for bytes that decode: the decoded
/// image, center-cropped square, scaled to `size`, and circularly masked.
pub open spec fn raster_result(bytes: Seq<u8>, size: nat) -> BitmapModel
    recommends
        raster_decodes(bytes),
{
    processed_model(decoded_image(bytes).get_Some_0(), size)
}

/// Relies on `image::load_from_memory` followed by
/// `DynamicImage::into_rgba8`: the format is guessed from the bytes and
/// decoded, then every pixel is converted to four RGBA bytes in row-major
/// order; both steps are functions of the bytes alone, success included, and
/// the dimensions are `u32`.
#[verifier::external_body]
pub(crate) fn decode_raster(bytes: &Vec<u8>) -> (r: Result<Bitmap, String>)
    ensures
        (r is Ok) == (decoded_image(bytes@) is Some),
        r matches Ok(b) ==> Some(b@) == decoded_image(bytes@) && b@.wf() && b@.width <= u32::MAX
            && b@.height <= u32::MAX,
{
    let img = image::load_from_memory(bytes).map_err(|e| e.to_string())?;
    let buf = img.into_rgba8();
    let width = buf.width() as usize;
    let height = buf.height() as usize;
    Ok(Bitmap { width, height, pixels: buf.into_raw() })
}

/// Relies on `DynamicImage::resize` with the Catmull-Rom filter, applied to
/// an RGBA8 image rebuilt from the buffer: it returns its input unchanged
/// when the target equals the current dimensions, preserves the aspect ratio
/// (so a square image scaled to a square target lands exactly on the
/// target), and resamples the RGBA8 samples deterministically from the
/// buffer and the dimensions alone.
#[verifier::external_body]
pub(crate) fn resize_rgba8(src: &Bitmap, nw: u32, nh: u32) -> (r: Bitmap)
    requires
        src@.wf(),
        1 <= src@.width <= u32::MAX,
        1 <= src@.height <= u32::MAX,
        1 <= nw,
        1 <= nh,
    ensures
        r@.pixels == resized_rgba(src@.pixels, src@.width, src@.height, nw as nat, nh as nat),
        r@.wf(),
        src@.width == nw && src@.height == nh ==> r@ == src@,
        src@.width == src@.height && nw == nh ==> r@.width == nw as nat && r@.height
            == nh as nat,
{
    let buf = image::RgbaImage::from_raw(src.width as u32, src.height as u32, src.pixels.clone())
        .expect("the buffer length matches the dimensions");
    let out = image::DynamicImage::ImageRgba8(buf)
        .resize(nw, nh, image::imageops::FilterType::CatmullRom)
        .into_rgba8();
    let width = out.width() as usize;
    let height = out.height() as usize;
    Bitmap { width, height, pixels: out.into_raw() }
}

/// Copies the subrectangle of width `w` and height `h` at `(x, y)` out of a
/// bitmap.
pub fn crop_bitmap(src: &Bitmap, x: usize, y: usize, w: usize, h: usize) -> (r: Bitmap)
    requires
        src@.wf(),
        x + w <= src@.width,
        y + h <= src@.height,
    ensures
        r@ == (BitmapModel {
            width: w as nat,
            height: h as nat,
            pixels: crop_rect(src@.pixels, src@.width, x as nat, y as nat, w as nat, h as nat),
        }),
        r@.wf(),
{
    let sw = src.width;
    let sh = src.height;
    let srclen = src.pixels.len();
    let ghost target = crop_rect(src@.pixels, src@.width, x as nat, y as nat, w as nat, h as nat);
    proof {
        assert(srclen == 4 * (sw as int) * (sh as int));
        assert(target.len() == 4 * (w as int) * (h as int));
        assert(4 * (w as int) * (h as int) <= 4 * (sw as int) * (sh as int) && (w as int) * (
        h as int) <= 4 * (w as int) * (h as int)) by (nonlinear_arith)
            requires
                0 <= w <= sw,
                0 <= h <= sh,
        {}
    }
    let count = w * h;
    proof {
        assert((w as int) * (h as int) <= (sw as int) * (sh as int) && 4 * ((w as int) * (
        h as int)) == 4 * (w as int) * (h as int) && 4 * ((sw as int) * (sh as int)) == 4 * (
        sw as int) * (sh as int)) by (nonlinear_arith)
            requires
                0 <= w <= sw,
                0 <= h <= sh,
        {}
    }
    let mut out: Vec<u8> = Vec::new();
    let mut p: usize = 0;
    while p < count
        invariant
            src@.wf(),
            sw == src@.width,
            sh == src@.height,
            srclen == src.pixels@.len(),
            srclen == 4 * (sw as int) * (sh as int),
            x + w <= sw,
            y + h <= sh,
            count == (w as int) * (h as int),
            4 * count <= srclen,
            target == crop_rect(
                src@.pixels,
                src@.width,
                x as nat,
                y as nat,
                w as nat,
                h as nat,
            ),
            target.len() == 4 * count,
            p <= count,
            out@.len() == 4 * p,
            forall|j: int| 0 <= j < 4 * p ==> out@[j] == target[j],
        decreases count - p,
    {
        proof {
            assert(w >= 1 && h >= 1) by (nonlinear_arith)
                requires
                    count == (w as int) * (h as int),
                    p < count,
                    w >= 0,
                    h >= 0,
            {}
        }
        let px = p % w;
        let py = p / w;
        proof {
            assert(py < h) by (nonlinear_arith)
                requires
                    p < count,
                    count == (w as int) * (h as int),
                    w >= 1,
                    py == p as int / w as int,
            {}
            assert((y + py) * (sw as int) + (x + px) < (sh as int) * (sw as int)
                && 0 <= (y + py) * (sw as int) + (x + px)) by (nonlinear_arith)
                requires
                    0 <= x,
                    0 <= y,
                    x + px < x + w <= sw,
                    y + py < y + h <= sh,
                    0 <= px,
                    0 <= py,
                    sw >= 1,
            {}
            assert(4 * ((y + py) * (sw as int) + (x + px)) + 3 < srclen) by (nonlinear_arith)
                requires
                    0 <= (y + py) * (sw as int) + (x + px),
                    (y + py) * (sw as int) + (x + px) < (sh as int) * (sw as int),
                    srclen == 4 * (sw as int) * (sh as int),
            {}
        }
        let sbase = 4 * ((y + py) * sw + (x + px));
        out.push(src.pixels[sbase]);
        out.push(src.pixels[sbase + 1]);
        out.push(src.pixels[sbase + 2]);
        out.push(src.pixels[sbase + 3]);
        proof {
            assert forall|j: int| 4 * p <= j < 4 * (p + 1) implies out@[j] == target[j] by {
                assert(j / 4 == p as int);
                assert(j % 4 == j - 4 * p);
                assert((p as int) % (w as int) == px as int);
                assert((p as int) / (w as int) == py as int);
                assert(target[j] == src@.pixels[4 * ((y + py) * (sw as int) + (x + px)) + (j - 4
                    * p)]);
            }
        }
        p = p + 1;
    }
    proof {
        assert(out@ =~= target);
        assert(4 * (w as int) * (h as int) == 4 * count);
    }
    Bitmap { width: w, height: h, pixels: out }
}

/// Normalizes a decoded raster image into a masked avatar: center-crops the
/// longer dimension to a square, scales the square to `size` (leaving it
/// untouched when it already is `size`), and applies the circular mask. The
/// result is always `size` by `size`. The image is RGBA8 throughout: sources
/// with a deeper native format have been reduced to eight bits per channel
/// at decode time, before cropping and scaling.
pub fn process_pfp_bitmap(size: u32, img: Bitmap) -> (r: Bitmap)
    requires
        1 <= size,
        size as int <= MAX_SIDE as int,
        img@.wf(),
        1 <= img@.width <= u32::MAX,
        1 <= img@.height <= u32::MAX,
    ensures
        r@ == processed_model(img@, size as nat),
        r@.width == size as nat,
        r@.height == size as nat,
        r@.wf(),
{
    let ghost m = img@;
    let w = img.width;
    let h = img.height;
    let cropped = if w > h {
        let excess = w - h;
        crop_bitmap(&img, excess / 2, 0, h, h)
    } else if h > w {
        let excess = h - w;
        crop_bitmap(&img, 0, excess / 2, w, w)
    } else {
        img
    };
    proof {
        assert(cropped@ == square_crop(m));
        assert(cropped@.width == cropped@.height);
        assert(1 <= cropped@.width <= u32::MAX);
    }
    let mut bmp = resize_rgba8(&cropped, size, size);
    proof {
        assert(bmp@ == resized_square(square_crop(m), size as nat));
    }
    round_image(&mut bmp);
    proof {
        assert(bmp@ == processed_model(m, size as nat));
    }
    bmp
}

/// A raster image that is already square at the target side goes through the
/// pipeline without any resampling: the result differs from the input only
/// by the circular mask.
pub proof fn lemma_no_resample_at_target(m: BitmapModel, size: nat)
    requires
        m.width == size,
        m.height == size,
    ensures
        processed_model(m, size) == (BitmapModel {
            width: size,
            height: size,
            pixels: masked_pixels(size as int, m.pixels),
        }),
{
    assert(square_crop(m) == m);
    assert(resized_square(m, size) == m);
}

} // verus!
