//! Block assembly and block placement.
//!
//! The encoder quantizes each 8x8 tile per channel (that stage works on the
//! raster's continuous channel values and stays with the caller); from the
//! quantized samples, `make_block` delta-codes the grid, packs the corner
//! samples, and assembles the block record that the format layer
//! serializes. On decode, `block_position` places each block in the output
//! raster from its index alone.

use vstd::prelude::*;

use crate::binfmt::Block;
use crate::delta::{byte_grid_wf, delta_encode_block, flat_byte, qgrid_wf, spec_encode_byte};
use crate::raster::{lemma_pixel_index_injective, Raster, Rgb};
use crate::sample::{pack_sample, spec_pack, Sample};

verus! {

/// Per-channel block statistics: the channel's min and max over the tile,
/// and whether the channel is reconstructed by corner interpolation.
#[derive(Clone, Copy, Debug, PartialEq, Eq, Structural)]
pub struct ChannelStats {
    pub min: u8,
    pub max: u8,
    pub interpolate: bool,
}

/// Assembles one block record from per-channel statistics, the quantized
/// 8x8 sample grid, and the four quantized corner samples (in top-left,
/// top-right, bottom-left, bottom-right order): the grid is delta-coded and
/// packed, the corners are packed as they are.
#[verifier::loop_isolation(false)]
pub fn make_block(
    y: ChannelStats,
    u: ChannelStats,
    v: ChannelStats,
    qgrid: &Vec<Vec<Sample>>,
    qcorners: &Vec<Sample>,
) -> (b: Block)
    requires
        qgrid_wf(qgrid@),
        qcorners@.len() == 4,
        forall|j: int| 0 <= j < 4 ==> (#[trigger] qcorners@[j]).in_range(),
    ensures
        b.wf(),
        b.blockmaxy == y.max && b.blockminy == y.min,
        b.blockmaxu == u.max && b.blockminu == u.min,
        b.blockmaxv == v.max && b.blockminv == v.min,
        b.interpolatey == y.interpolate,
        b.interpolateu == u.interpolate,
        b.interpolatev == v.interpolate,
        forall|j: int| 0 <= j < 4 ==> #[trigger] b.corners@[j] == spec_pack(
            qcorners@[j].y,
            qcorners@[j].u,
            qcorners@[j].v,
        ),
        byte_grid_wf(b.nblock4bn@),
        forall|i: int| 0 <= i < 64 ==> #[trigger] flat_byte(b.nblock4bn@, i) == spec_encode_byte(
            qgrid@,
            i,
        ),
{
    let nblock4bn = delta_encode_block(qgrid);
    let mut corners: Vec<u8> = Vec::new();
    let mut j: usize = 0;
    while j < 4
        invariant
            j <= 4,
            corners@.len() == j,
            forall|k: int| 0 <= k < j ==> #[trigger] corners@[k] == spec_pack(
                qcorners@[k].y,
                qcorners@[k].u,
                qcorners@[k].v,
            ),
        decreases 4 - j,
    {
        corners.push(pack_sample(&qcorners[j]));
        j = j + 1;
    }
    Block {
        blockmaxy: y.max,
        blockminy: y.min,
        blockmaxu: u.max,
        blockminu: u.min,
        blockmaxv: v.max,
        blockminv: v.min,
        interpolatey: y.interpolate,
        interpolateu: u.interpolate,
        interpolatev: v.interpolate,
        corners,
        nblock4bn,
    }
}

/// Blocks per raster row: the declared width in 8-pixel columns, with a
/// partial trailing column counting as one more.
pub open spec fn blocks_per_row(width: i16) -> int
    recommends
        width >= 1,
{
    (width + 7) / 8
}

/// The raster x coordinate of the top-left pixel of block `i`.
pub open spec fn block_x(i: int, width: i16) -> int {
    (i % blocks_per_row(width)) * 8
}

/// The raster y coordinate of the top-left pixel of block `i`.
pub open spec fn block_y(i: int, width: i16) -> int {
    (i / blocks_per_row(width)) * 8
}

/// Where block `index` of a decoded image lands in the raster: blocks walk
/// left to right in steps of 8 pixels, wrapping to the next row of tiles
/// once the declared width is covered.
pub fn block_position(index: usize, width: i16) -> (pos: (u64, u64))
    requires
        width >= 1,
        index <= 0x7fff_ffff,
    ensures
        pos.0 == block_x(index as int, width),
        pos.1 == block_y(index as int, width),
{
    let bpr: u64 = ((width as u64) + 7) / 8;
    let x = ((index as u64) % bpr) * 8;
    let y = ((index as u64) / bpr) * 8;
    (x, y)
}

/// Writes one block's 64 reconstructed pixels (row-major) into the output
/// raster at the block's position. Every pixel whose raster coordinate
/// falls outside the declared width or height is dropped, not written.
#[verifier::loop_isolation(false)]
pub fn place_block(out: &mut Raster, index: usize, width: i16, pixels: &Vec<Rgb>)
    requires
        old(out).wf(),
        width >= 1,
        index <= 0x7fff_ffff,
        pixels@.len() == 64,
    ensures
        final(out).wf(),
        final(out).width == old(out).width,
        final(out).height == old(out).height,
        forall|x: int, y: int|
            0 <= x < old(out).width && 0 <= y < old(out).height ==> #[trigger] final(out).pix(
                x,
                y,
            ) == (if block_x(index as int, width) <= x < block_x(index as int, width) + 8
                && block_y(index as int, width) <= y < block_y(index as int, width) + 8 {
                pixels@[8 * (y - block_y(index as int, width)) + (x - block_x(
                    index as int,
                    width,
                ))]
            } else {
                old(out).pix(x, y)
            }),
{
    let ghost orig = *out;
    let ghost x0 = block_x(index as int, width);
    let ghost y0 = block_y(index as int, width);
    let (bx0, by0) = block_position(index, width);
    let w = out.width;
    let h = out.height;
    let mut by: usize = 0;
    while by < 8
        invariant
            by <= 8,
            out.wf(),
            out.width == orig.width,
            out.height == orig.height,
            forall|x: int, y: int|
                0 <= x < orig.width && 0 <= y < orig.height ==> #[trigger] out.pix(x, y) == (if x0
                    <= x < x0 + 8 && y0 <= y < y0 + by {
                    pixels@[8 * (y - y0) + (x - x0)]
                } else {
                    orig.pix(x, y)
                }),
        decreases 8 - by,
    {
        let mut bx: usize = 0;
        while bx < 8
            invariant
                bx <= 8,
                by < 8,
                out.wf(),
                out.width == orig.width,
                out.height == orig.height,
                forall|x: int, y: int|
                    0 <= x < orig.width && 0 <= y < orig.height ==> #[trigger] out.pix(x, y) == (
                    if (x0 <= x < x0 + 8 && y0 <= y < y0 + by) || (y == y0 + by && x0 <= x < x0
                        + bx) {
                        pixels@[8 * (y - y0) + (x - x0)]
                    } else {
                        orig.pix(x, y)
                    }),
            decreases 8 - bx,
        {
            let ghost out0 = *out;
            let px = bx0 + bx as u64;
            let py = by0 + by as u64;
            let written = px < w as u64 && py < h as u64;
            if written {
                out.put_pixel_clipped(px as u32, py as u32, pixels[8 * by + bx]);
            }
            proof {
                assert forall|x: int, y: int|
                    0 <= x < orig.width && 0 <= y < orig.height implies #[trigger] out.pix(x, y)
                    == (if (x0 <= x < x0 + 8 && y0 <= y < y0 + by) || (y == y0 + by && x0 <= x
                        < x0 + bx + 1) {
                        pixels@[8 * (y - y0) + (x - x0)]
                    } else {
                        orig.pix(x, y)
                    }) by {
                    let wd = orig.width as int;
                    assert(0 <= y * wd + x < wd * orig.height) by (nonlinear_arith)
                        requires
                            0 <= x < wd,
                            0 <= y < orig.height,
                    ;
                    if written {
                        let wx = px as int;
                        let wy = py as int;
                        assert(0 <= wy * wd + wx < wd * orig.height) by (nonlinear_arith)
                            requires
                                0 <= wx < wd,
                                0 <= wy < orig.height,
                        ;
                        if y * wd + x == wy * wd + wx {
                            lemma_pixel_index_injective(wd, x, y, wx, wy);
                            assert(x == x0 + bx && y == y0 + by);
                            assert(8 * (y - y0) + (x - x0) == 8 * by + bx);
                        } else {
                            assert(out.pix(x, y) == out0.pix(x, y));
                            if x == x0 + bx && y == y0 + by {
                                assert(false);
                            }
                        }
                    } else {
                        assert(out.pix(x, y) == out0.pix(x, y));
                        if x == x0 + bx && y == y0 + by {
                            assert(false);
                        }
                    }
                }
            }
            bx = bx + 1;
        }
        by = by + 1;
    }
}

} // verus!
