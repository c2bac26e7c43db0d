//! End-to-end encode/decode scenarios. The continuous (floating-point)
//! stages of the codec — color transform, per-block statistics,
//! normalization/quantization and bilinear reconstruction — live outside the
//! library; these tests drive them around the library's integer core.

use image_compress::binfmt::{buf2img, img2buf, Block, Img};
use image_compress::codec::{make_block, place_block, ChannelStats};
use image_compress::delta::delta_decode_block;
use image_compress::raster::{get_block, pad_image_to_multiple_of_8, Raster, Rgb};
use image_compress::sample::{unpack_sample, Sample};

fn rgb_to_yuv(p: Rgb) -> [f32; 3] {
    let (r, g, b) = (p.r as f32, p.g as f32, p.b as f32);
    [
        0.299 * r + 0.587 * g + 0.114 * b,
        -0.169 * r - 0.331 * g + 0.5 * b + 128.0,
        0.5 * r - 0.419 * g - 0.081 * b + 128.0,
    ]
}

fn yuv_to_rgb([y, u, v]: [f32; 3]) -> Rgb {
    let r = y + 1.402 * (v - 128.0);
    let g = y - 0.344 * (u - 128.0) - 0.714 * (v - 128.0);
    let b = y + 1.772 * (u - 128.0);
    Rgb {
        r: r.clamp(0.0, 255.0) as u8,
        g: g.clamp(0.0, 255.0) as u8,
        b: b.clamp(0.0, 255.0) as u8,
    }
}

fn interpolate(tl: f32, tr: f32, bl: f32, br: f32, u: f32, v: f32) -> f32 {
    let top = tl * (1.0 - u) + tr * u;
    let bottom = bl * (1.0 - u) + br * u;
    top * (1.0 - v) + bottom * v
}

fn channel_stats(block: &[Vec<[f32; 3]>], channel: usize) -> (f32, f32, f32) {
    let mut min = f32::INFINITY;
    let mut max = f32::NEG_INFINITY;
    for row in block {
        for px in row {
            min = min.min(px[channel]);
            max = max.max(px[channel]);
        }
    }
    max = max.min(255.0);
    (min, max, max - min)
}

/// The continuous encoder stage for one 8x8 tile: statistics, flags and the
/// quantized samples; the library assembles the block from them.
fn encode_tile(raster: &Raster, x0: u32, y0: u32, level: u32) -> Block {
    let block_rgb = get_block(raster, x0, y0);
    let block_yuv: Vec<Vec<[f32; 3]>> = block_rgb
        .iter()
        .map(|row| row.iter().map(|&p| rgb_to_yuv(p)).collect())
        .collect();
    let (miny, maxy, rangey) = channel_stats(&block_yuv, 0);
    let (minu, maxu, rangeu) = channel_stats(&block_yuv, 1);
    let (minv, maxv, rangev) = channel_stats(&block_yuv, 2);
    let iy = rangey < level as f32 / 2.0;
    let iu = rangeu < level as f32;
    let iv = rangev < level as f32;
    let quantize = |[y, u, v]: [f32; 3]| -> Sample {
        let ny = if iy { 0.0 } else { (y - miny) / rangey };
        let nu = if iu { 0.0 } else { (u - minu) / rangeu };
        let nv = if iv { 0.0 } else { (v - minv) / rangev };
        Sample {
            y: (ny * 15.9).floor() as u8,
            u: (nu * 3.9).floor() as u8,
            v: (nv * 3.9).floor() as u8,
        }
    };
    let qgrid: Vec<Vec<Sample>> = block_yuv
        .iter()
        .map(|row| row.iter().map(|&p| quantize(p)).collect())
        .collect();
    let qcorners: Vec<Sample> = [
        block_yuv[0][0],
        block_yuv[0][7],
        block_yuv[7][0],
        block_yuv[7][7],
    ]
    .iter()
    .map(|&p| quantize(p))
    .collect();
    make_block(
        ChannelStats { min: miny as u8, max: maxy as u8, interpolate: iy },
        ChannelStats { min: minu as u8, max: maxu as u8, interpolate: iu },
        ChannelStats { min: minv as u8, max: maxv as u8, interpolate: iv },
        &qgrid,
        &qcorners,
    )
}

fn encode_raster(raster: &Raster, level: u32) -> Img {
    let padded = pad_image_to_multiple_of_8(raster);
    let mut blocks = Vec::new();
    let mut y0: u32 = 0;
    while y0 < padded.height {
        let mut x0: u32 = 0;
        while x0 < padded.width {
            blocks.push(encode_tile(&padded, x0, y0, level));
            x0 += 8;
        }
        y0 += 8;
    }
    Img { width: padded.width as i16, height: padded.height as i16, blocks }
}

/// The continuous decoder stage: linear range-mapping or bilinear corner
/// reconstruction per channel, then the inverse color transform; clipped
/// writes drop every pixel beyond the declared dimensions.
fn decode_img(img: &Img) -> Raster {
    let w = img.width.max(0) as u32;
    let h = img.height.max(0) as u32;
    let mut out = Raster::new(w, h);
    if img.width < 1 {
        return out;
    }
    for (i, block) in img.blocks.iter().enumerate() {
        let corners: Vec<[f32; 3]> = block
            .corners
            .iter()
            .map(|&val| {
                let s = unpack_sample(val);
                [
                    (s.y as f32 / 15.0) * (block.blockmaxy - block.blockminy) as f32
                        + block.blockminy as f32,
                    (s.u as f32 / 3.0) * (block.blockmaxu - block.blockminu) as f32
                        + block.blockminu as f32,
                    (s.v as f32 / 3.0) * (block.blockmaxv - block.blockminv) as f32
                        + block.blockminv as f32,
                ]
            })
            .collect();
        let samples = delta_decode_block(&block.nblock4bn);
        let mut pix64: Vec<Rgb> = Vec::with_capacity(64);
        for by in 0..8usize {
            for bx in 0..8usize {
                let s = samples[by][bx];
                let u = bx as f32 / 7.0;
                let v = by as f32 / 7.0;
                let cy = if block.interpolatey {
                    interpolate(corners[0][0], corners[1][0], corners[2][0], corners[3][0], u, v)
                } else {
                    (s.y as f32 / 15.0) * (block.blockmaxy - block.blockminy) as f32
                        + block.blockminy as f32
                };
                let cu = if block.interpolateu {
                    interpolate(corners[0][1], corners[1][1], corners[2][1], corners[3][1], u, v)
                } else {
                    (s.u as f32 / 3.0) * (block.blockmaxu - block.blockminu) as f32
                        + block.blockminu as f32
                };
                let cv = if block.interpolatev {
                    interpolate(corners[0][2], corners[1][2], corners[2][2], corners[3][2], u, v)
                } else {
                    (s.v as f32 / 3.0) * (block.blockmaxv - block.blockminv) as f32
                        + block.blockminv as f32
                };
                pix64.push(yuv_to_rgb([cy, cu, cv]));
            }
        }
        place_block(&mut out, i, img.width, &pix64);
    }
    out
}

fn solid_raster(width: u32, height: u32, p: Rgb) -> Raster {
    let mut r = Raster::new(width, height);
    for y in 0..height {
        for x in 0..width {
            r.put_pixel_clipped(x, y, p);
        }
    }
    r
}

#[test]
fn solid_color_block_roundtrips_within_quantization_error() {
    let src = solid_raster(8, 8, Rgb { r: 100, g: 150, b: 200 });
    let img = encode_raster(&src, 16);
    assert_eq!(img.blocks.len(), 1);
    // A solid block has zero range on every channel, so every channel is
    // reconstructed by corner interpolation.
    assert!(img.blocks[0].interpolatey);
    assert!(img.blocks[0].interpolateu);
    assert!(img.blocks[0].interpolatev);
    let back = decode_img(&buf2img(&img2buf(&img)).expect("own stream decodes"));
    assert_eq!(back.width, 8);
    assert_eq!(back.height, 8);
    for y in 0..8 {
        for x in 0..8 {
            let p = back.get_pixel(x, y);
            assert!((p.r as i32 - 100).abs() <= 3, "r at ({x},{y}) was {}", p.r);
            assert!((p.g as i32 - 150).abs() <= 3, "g at ({x},{y}) was {}", p.g);
            assert!((p.b as i32 - 200).abs() <= 3, "b at ({x},{y}) was {}", p.b);
        }
    }
}

#[test]
fn padding_rounds_up_and_keeps_pixels() {
    let mut src = Raster::new(10, 10);
    for y in 0..10 {
        for x in 0..10 {
            src.put_pixel_clipped(x, y, Rgb { r: (10 * x + y) as u8, g: 7, b: 9 });
        }
    }
    let padded = pad_image_to_multiple_of_8(&src);
    assert_eq!(padded.width, 16);
    assert_eq!(padded.height, 16);
    for y in 0..16 {
        for x in 0..16 {
            let expect = if x < 10 && y < 10 {
                Rgb { r: (10 * x + y) as u8, g: 7, b: 9 }
            } else {
                Rgb { r: 0, g: 0, b: 0 }
            };
            assert_eq!(padded.get_pixel(x, y), expect);
        }
    }
    // Already-aligned dimensions stay as they are.
    let aligned = pad_image_to_multiple_of_8(&Raster::new(16, 8));
    assert_eq!((aligned.width, aligned.height), (16, 8));
}

#[test]
fn declared_dimensions_clip_decoded_raster() {
    // Encode a 10x10 image (padded to 16x16, four blocks), then declare the
    // original 10x10 dimensions in the header: the decoded raster is exactly
    // 10x10 and the padding pixels never surface.
    let src = solid_raster(10, 10, Rgb { r: 60, g: 60, b: 60 });
    let padded_img = encode_raster(&src, 16);
    assert_eq!(padded_img.width, 16);
    assert_eq!(padded_img.blocks.len(), 4);
    let declared = Img { width: 10, height: 10, blocks: padded_img.blocks };
    let back = decode_img(&buf2img(&img2buf(&declared)).expect("decodes"));
    assert_eq!(back.width, 10);
    assert_eq!(back.height, 10);
    assert_eq!(back.pixels.len(), 100);
    for y in 0..10 {
        for x in 0..10 {
            let p = back.get_pixel(x, y);
            assert!((p.r as i32 - 60).abs() <= 3);
        }
    }
}

#[test]
fn clipped_write_leaves_raster_untouched() {
    let mut r = solid_raster(4, 3, Rgb { r: 1, g: 2, b: 3 });
    let before = r.pixels.clone();
    r.put_pixel_clipped(4, 0, Rgb { r: 9, g: 9, b: 9 });
    r.put_pixel_clipped(0, 3, Rgb { r: 9, g: 9, b: 9 });
    r.put_pixel_clipped(100, 100, Rgb { r: 9, g: 9, b: 9 });
    assert_eq!(r.pixels, before);
    r.put_pixel_clipped(3, 2, Rgb { r: 9, g: 9, b: 9 });
    assert_eq!(r.get_pixel(3, 2), Rgb { r: 9, g: 9, b: 9 });
    assert_eq!(r.get_pixel(2, 2), Rgb { r: 1, g: 2, b: 3 });
}

#[test]
fn gradient_block_uses_delta_grid() {
    // A strong horizontal gradient keeps the Y range above the threshold, so
    // Y comes from the delta-coded grid and reconstruction tracks the ramp.
    let mut src = Raster::new(8, 8);
    for y in 0..8 {
        for x in 0..8 {
            let g = (x * 30) as u8;
            src.put_pixel_clipped(x, y, Rgb { r: g, g, b: g });
        }
    }
    let img = encode_raster(&src, 16);
    assert!(!img.blocks[0].interpolatey);
    let back = decode_img(&buf2img(&img2buf(&img)).expect("decodes"));
    for y in 0..8 {
        let left = back.get_pixel(0, y).g as i32;
        let right = back.get_pixel(7, y).g as i32;
        assert!(right - left > 150, "gradient collapsed: {left}..{right}");
    }
}
