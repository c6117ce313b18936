use vstd::prelude::*;

verus! {

/// A decoded pixel buffer: `width * height` pixels in row-major order, four
/// bytes per pixel (red, green, blue, alpha, non-premultiplied).
#[derive(Clone, Debug)]
pub struct Bitmap {
    pub width: usize,
    pub height: usize,
    pub pixels: Vec<u8>,
}

/// The mathematical shape of a bitmap: dimensions and the flat pixel bytes.
pub ghost struct BitmapModel {
    pub width: nat,
    pub height: nat,
    pub pixels: Seq<u8>,
}

impl BitmapModel {
    /// The pixel buffer holds exactly four bytes per pixel.
    pub open spec fn wf(self) -> bool {
        self.pixels.len() == 4 * self.width * self.height
    }

    /// The bitmap is square.
    pub open spec fn is_square(self) -> bool {
        self.width == self.height
    }
}

impl View for Bitmap {
    type V = BitmapModel;

    open spec fn view(&self) -> BitmapModel {
        BitmapModel { width: self.width as nat, height: self.height as nat, pixels: self.pixels@ }
    }
}

impl Bitmap {
    /// Builds a bitmap from its dimensions and flat pixel bytes.
    pub fn new(width: usize, height: usize, pixels: Vec<u8>) -> (r: Bitmap)
        requires
            pixels@.len() == 4 * width * height,
        ensures
            r@ == (BitmapModel { width: width as nat, height: height as nat, pixels: pixels@ }),
            r@.wf(),
    {
        Bitmap { width, height, pixels }
    }

    /// Width in pixels.
    pub fn width(&self) -> (r: usize)
        ensures
            r == self@.width,
    {
        self.width
    }

    /// Height in pixels.
    pub fn height(&self) -> (r: usize)
        ensures
            r == self@.height,
    {
        self.height
    }
}

} // verus!
