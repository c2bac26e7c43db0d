//! Raw RGB rasters and the fixed 8x8 tiling.

use vstd::prelude::*;
use vstd::pervasive::VecAdditionalExecFns;

verus! {

/// One raster pixel: 8-bit red, green and blue channels.
#[derive(Clone, Copy, Debug, PartialEq, Eq, Structural)]
pub struct Rgb {
    pub r: u8,
    pub g: u8,
    pub b: u8,
}

/// A raw RGB raster, pixels stored row-major.
pub struct Raster {
    pub width: u32,
    pub height: u32,
    pub pixels: Vec<Rgb>,
}

impl Raster {
    /// Well-formed: dimensions fit the format's signed 16-bit fields and the
    /// pixel vector covers the raster exactly.
    pub open spec fn wf(&self) -> bool {
        &&& self.width <= 32767
        &&& self.height <= 32767
        &&& self.pixels@.len() == self.width * self.height
    }

    /// The pixel at raster coordinates `(x, y)`.
    pub open spec fn pix(&self, x: int, y: int) -> Rgb
        recommends
            0 <= x < self.width,
            0 <= y < self.height,
    {
        self.pixels@[y * self.width + x]
    }

    /// A black raster of the given dimensions.
    pub fn new(width: u32, height: u32) -> (r: Raster)
        requires
            width <= 32767,
            height <= 32767,
        ensures
            r.wf(),
            r.width == width,
            r.height == height,
            forall|x: int, y: int|
                0 <= x < width && 0 <= y < height ==> r.pix(x, y) == (Rgb {
                    r: 0u8,
                    g: 0u8,
                    b: 0u8,
                }),
    {
        proof {
            assert(width * height <= 32767 * 32767) by (nonlinear_arith)
                requires
                    width <= 32767,
                    height <= 32767,
            ;
        }
        let len: usize = (width as usize) * (height as usize);
        let mut pixels: Vec<Rgb> = Vec::new();
        let mut i: usize = 0;
        while i < len
            invariant
                i <= len,
                pixels@.len() == i,
                forall|k: int| 0 <= k < i ==> #[trigger] pixels@[k] == (Rgb {
                    r: 0u8,
                    g: 0u8,
                    b: 0u8,
                }),
            decreases len - i,
        {
            pixels.push(Rgb { r: 0, g: 0, b: 0 });
            i = i + 1;
        }
        let out = Raster { width, height, pixels };
        proof {
            assert forall|x: int, y: int| 0 <= x < width && 0 <= y < height implies out.pix(x, y)
                == (Rgb { r: 0u8, g: 0u8, b: 0u8 }) by {
                assert(0 <= y * width + x < width * height) by (nonlinear_arith)
                    requires
                        0 <= x < width,
                        0 <= y < height,
                ;
            }
        }
        out
    }

    /// The pixel at `(x, y)`.
    pub fn get_pixel(&self, x: u32, y: u32) -> (p: Rgb)
        requires
            self.wf(),
            x < self.width,
            y < self.height,
        ensures
            p == self.pix(x as int, y as int),
    {
        proof {
            assert(0 <= y * self.width + x < self.width * self.height && y * self.width + x
                < 0x4000_0000) by (nonlinear_arith)
                requires
                    x < self.width,
                    y < self.height,
                    self.width <= 32767,
                    self.height <= 32767,
            ;
        }
        let idx: usize = (y as usize) * (self.width as usize) + (x as usize);
        self.pixels[idx]
    }

    /// Writes the pixel at `(x, y)` if that coordinate lies inside the
    /// declared raster; a coordinate at or beyond the declared width or
    /// height is discarded and the raster is left untouched.
    pub fn put_pixel_clipped(&mut self, x: u32, y: u32, p: Rgb)
        requires
            old(self).wf(),
        ensures
            final(self).wf(),
            final(self).width == old(self).width,
            final(self).height == old(self).height,
            x < old(self).width && y < old(self).height ==> final(self).pixels@ == old(
                self,
            ).pixels@.update(y * old(self).width + x, p),
            !(x < old(self).width && y < old(self).height) ==> *final(self) == *old(self),
    {
        if x < self.width && y < self.height {
            proof {
                assert(0 <= y * self.width + x < self.width * self.height && y * self.width + x
                    < 0x4000_0000) by (nonlinear_arith)
                    requires
                        x < self.width,
                        y < self.height,
                        self.width <= 32767,
                        self.height <= 32767,
                ;
            }
            let idx: usize = (y as usize) * (self.width as usize) + (x as usize);
            self.pixels.set(idx, p);
        }
    }
}

/// Distinct in-bounds raster coordinates have distinct row-major indices.
pub proof fn lemma_pixel_index_injective(w: int, x1: int, y1: int, x2: int, y2: int)
    requires
        0 <= x1 < w,
        0 <= x2 < w,
        0 <= y1,
        0 <= y2,
        y1 * w + x1 == y2 * w + x2,
    ensures
        x1 == x2 && y1 == y2,
{
    assert(x1 == x2 && y1 == y2) by (nonlinear_arith)
        requires
            0 <= x1 < w,
            0 <= x2 < w,
            0 <= y1,
            0 <= y2,
            y1 * w + x1 == y2 * w + x2,
    ;
}

/// Copies the 8x8 tile whose top-left corner is `(x0, y0)` out of a raster,
/// as rows of pixels.
#[verifier::loop_isolation(false)]
pub fn get_block(img: &Raster, x0: u32, y0: u32) -> (r: Vec<Vec<Rgb>>)
    requires
        img.wf(),
        x0 + 8 <= img.width,
        y0 + 8 <= img.height,
    ensures
        r@.len() == 8,
        forall|by: int| 0 <= by < 8 ==> (#[trigger] r@[by])@.len() == 8,
        forall|by: int, bx: int|
            0 <= by < 8 && 0 <= bx < 8 ==> #[trigger] r@[by]@[bx] == img.pix(x0 + bx, y0 + by),
    {
    let mut rows: Vec<Vec<Rgb>> = Vec::new();
    let mut by: usize = 0;
    while by < 8
        invariant
            by <= 8,
            rows@.len() == by,
            forall|r2: int| 0 <= r2 < by ==> (#[trigger] rows@[r2])@.len() == 8,
            forall|r2: int, c2: int|
                0 <= r2 < by && 0 <= c2 < 8 ==> #[trigger] rows@[r2]@[c2] == img.pix(
                    x0 + c2,
                    y0 + r2,
                ),
        decreases 8 - by,
    {
        let mut row: Vec<Rgb> = Vec::new();
        let mut bx: usize = 0;
        while bx < 8
            invariant
                bx <= 8,
                by < 8,
                row@.len() == bx,
                forall|c2: int|
                    0 <= c2 < bx ==> #[trigger] row@[c2] == img.pix(x0 + c2, y0 + by),
            decreases 8 - bx,
        {
            row.push(img.get_pixel(x0 + bx as u32, y0 + by as u32));
            bx = bx + 1;
        }
        rows.push(row);
        by = by + 1;
    }
    rows
}

/// Grows a raster on the right and bottom to the next multiples of 8,
/// filling the new pixels with black and keeping every original pixel.
#[verifier::loop_isolation(false)]
pub fn pad_image_to_multiple_of_8(img: &Raster) -> (r: Raster)
    requires
        img.wf(),
        img.width <= 32760,
        img.height <= 32760,
    ensures
        r.wf(),
        r.width % 8 == 0,
        r.height % 8 == 0,
        img.width <= r.width < img.width + 8,
        img.height <= r.height < img.height + 8,
        forall|x: int, y: int|
            0 <= x < r.width && 0 <= y < r.height ==> #[trigger] r.pix(x, y) == (if x < img.width
                && y < img.height {
                img.pix(x, y)
            } else {
                Rgb { r: 0u8, g: 0u8, b: 0u8 }
            }),
{
    let pad_right = (8 - (img.width % 8)) % 8;
    let pad_bottom = (8 - (img.height % 8)) % 8;
    let new_w = img.width + pad_right;
    let new_h = img.height + pad_bottom;
    let mut out = Raster::new(new_w, new_h);
    let mut y: u32 = 0;
    while y < img.height
        invariant
            y <= img.height,
            out.wf(),
            out.width == new_w,
            out.height == new_h,
            forall|xx: int, yy: int|
                0 <= xx < new_w && 0 <= yy < new_h ==> #[trigger] out.pix(xx, yy) == (if xx
                    < img.width && yy < y {
                    img.pix(xx, yy)
                } else {
                    Rgb { r: 0u8, g: 0u8, b: 0u8 }
                }),
        decreases img.height - y,
    {
        let mut x: u32 = 0;
        while x < img.width
            invariant
                x <= img.width,
                y < img.height,
                out.wf(),
                out.width == new_w,
                out.height == new_h,
                forall|xx: int, yy: int|
                    0 <= xx < new_w && 0 <= yy < new_h ==> #[trigger] out.pix(xx, yy) == (if (xx
                        < img.width && yy < y) || (xx < x && yy == y) {
                        img.pix(xx, yy)
                    } else {
                        Rgb { r: 0u8, g: 0u8, b: 0u8 }
                    }),
            decreases img.width - x,
        {
            let ghost out0 = out;
            let p = img.get_pixel(x, y);
            out.put_pixel_clipped(x, y, p);
            proof {
                assert forall|xx: int, yy: int| 0 <= xx < new_w && 0 <= yy < new_h implies
                    #[trigger] out.pix(xx, yy) == (if (xx < img.width && yy < y) || (xx < x + 1
                    && yy == y) {
                    img.pix(xx, yy)
                } else {
                    Rgb { r: 0u8, g: 0u8, b: 0u8 }
                }) by {
                    assert(0 <= yy * new_w + xx < new_w * new_h) by (nonlinear_arith)
                        requires
                            0 <= xx < new_w,
                            0 <= yy < new_h,
                    ;
                    assert(0 <= y * new_w + x < new_w * new_h) by (nonlinear_arith)
                        requires
                            0 <= x < new_w,
                            0 <= y < new_h,
                    ;
                    if yy * new_w + xx == y * new_w + x {
                        lemma_pixel_index_injective(
                            new_w as int,
                            xx,
                            yy,
                            x as int,
                            y as int,
                        );
                    } else {
                        assert(out.pix(xx, yy) == out0.pix(xx, yy));
                        if xx == x && yy == y {
                            assert(false);
                        }
                    }
                }
            }
            x = x + 1;
        }
        y = y + 1;
    }
    out
}

} // verus!
