use vstd::prelude::*;

use crate::color::Color;

verus! {

/// A decoded image held as interleaved 8-bit RGB bytes, row by row from
/// the top, looked up by nearest pixel.
pub struct ImageTexture {
    image: Vec<u8>,
    // (width, height)
    dimensions: (u32, u32),
    bytes_per_scanline: u32,
    bytes_per_pixel: u32,
}

/// Index of the first byte of the pixel at column `i` and row `j` of a
/// `width` by `height` RGB image, after clamping both into the image.
pub open spec fn texel_index(width: nat, height: nat, i: nat, j: nat) -> nat {
    let ci: nat = if i < width { i } else { (width - 1) as nat };
    let cj: nat = if j < height { j } else { (height - 1) as nat };
    cj * (3 * width) + ci * 3
}

impl ImageTexture {
    pub closed spec fn pixels(&self) -> Seq<u8> {
        self.image@
    }

    pub closed spec fn width(&self) -> nat {
        self.dimensions.0 as nat
    }

    pub closed spec fn height(&self) -> nat {
        self.dimensions.1 as nat
    }

    /// Both sides are positive, the bytes hold exactly the image's pixels,
    /// and every byte index fits in a `u32`.
    pub closed spec fn wf(&self) -> bool {
        &&& self.dimensions.0 > 0
        &&& self.dimensions.1 > 0
        &&& self.bytes_per_pixel == 3
        &&& self.bytes_per_scanline == 3 * self.dimensions.0
        &&& self.image.len() == self.dimensions.1 * self.bytes_per_scanline
        &&& self.dimensions.1 * self.bytes_per_scanline <= u32::MAX
    }

    /// A texture over `width` by `height` interleaved RGB bytes; `None`
    /// when a side is zero, when the bytes are not exactly three per pixel,
    /// or when the image has more bytes than a `u32` can count.
    pub fn from_rgb8(image: Vec<u8>, width: u32, height: u32) -> (r: Option<ImageTexture>)
        ensures
            r.is_some() <==> (width > 0 && height > 0 && 3 * width * height <= u32::MAX
                && image.len() == 3 * width * height),
            r.is_some() ==> {
                let t = r.unwrap();
                &&& t.wf()
                &&& t.pixels() == image@
                &&& t.width() == width
                &&& t.height() == height
            },
    {
        if width == 0 || height == 0 {
            return None;
        }
        assert((width as u64) * (height as u64) <= 0xffff_ffffu64 * 0xffff_ffffu64)
            by (nonlinear_arith)
            requires width <= 0xffff_ffffu64, height <= 0xffff_ffffu64;
        let area = width as u64 * height as u64;
        if area > (u32::MAX / 3) as u64 {
            assert(3 * width * height > u32::MAX) by (nonlinear_arith)
                requires area == width * height, area > 0x5555_5555;
            return None;
        }
        let size = 3u64 * area;
        assert(size == 3 * width * height) by (nonlinear_arith)
            requires area == width * height, size == 3 * area;
        if size > u32::MAX as u64 || image.len() as u64 != size {
            return None;
        }
        assert(3 * width <= 3 * width * height) by (nonlinear_arith)
            requires height >= 1;
        let bytes_per_pixel: u32 = 3;
        let bytes_per_scanline = bytes_per_pixel * width;
        assert(height * bytes_per_scanline == 3 * width * height) by (nonlinear_arith)
            requires bytes_per_scanline == 3 * width;
        Some(ImageTexture { image, dimensions: (width, height), bytes_per_scanline, bytes_per_pixel })
    }

    /// Width and height in pixels.
    pub fn dimensions(&self) -> (r: (u32, u32))
        ensures
            r.0 == self.width(),
            r.1 == self.height(),
    {
        self.dimensions
    }

    /// The color at column `i` and row `j`, both clamped into the image.
    pub fn texel(&self, i: u32, j: u32) -> (r: Color)
        requires
            self.wf(),
        ensures
            texel_index(self.width(), self.height(), i as nat, j as nat) + 2 < self.pixels().len(),
            ({
                let p = texel_index(self.width(), self.height(), i as nat, j as nat) as int;
                r == Color(self.pixels()[p], self.pixels()[p + 1], self.pixels()[p + 2])
            }),
    {
        let (width, height) = self.dimensions;
        let i = if i > width - 1 { width - 1 } else { i };
        let j = if j > height - 1 { height - 1 } else { j };
        proof {
            assert(j * (3 * width) + i * 3 + 3 <= height * (3 * width)) by (nonlinear_arith)
                requires j < height, i < width;
        }
        let pixel = (j * self.bytes_per_scanline + i * self.bytes_per_pixel) as usize;
        Color(self.image[pixel], self.image[pixel + 1], self.image[pixel + 2])
    }
}

impl Clone for ImageTexture {
    fn clone(&self) -> (r: Self)
        ensures
            r.wf() == self.wf(),
            r.pixels() == self.pixels(),
            r.width() == self.width(),
            r.height() == self.height(),
    {
        ImageTexture {
            image: self.image.clone(),
            dimensions: self.dimensions,
            bytes_per_scanline: self.bytes_per_scanline,
            bytes_per_pixel: self.bytes_per_pixel,
        }
    }
}

} // verus!
