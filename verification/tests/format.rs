//! Tests of the binary format layer, the delta coder and the small helpers.

use image_compress::binfmt::{buf2img, img2buf, Block, FormatError, Img, BLOCK_BYTES, FOOTER_LEN, HEADER_LEN};
use image_compress::codec::{block_position, make_block, ChannelStats};
use image_compress::delta::{delta_decode_block, delta_encode_block, pixdelta, pixdelta_decode};
use image_compress::progress::ProgressBar;
use image_compress::sample::{pack_sample, unpack_sample, Sample};

fn sample_grid(f: impl Fn(usize, usize) -> (u8, u8, u8)) -> Vec<Vec<Sample>> {
    (0..8)
        .map(|r| {
            (0..8)
                .map(|c| {
                    let (y, u, v) = f(r, c);
                    Sample { y, u, v }
                })
                .collect()
        })
        .collect()
}

fn demo_block(seed: u8) -> Block {
    let qgrid = sample_grid(|r, c| (((r * 8 + c) as u8 + seed) % 16, (c as u8) % 4, (r as u8) % 4));
    let qcorners = vec![
        Sample { y: 0, u: 0, v: 0 },
        Sample { y: 15, u: 3, v: 3 },
        Sample { y: 7, u: 1, v: 2 },
        Sample { y: 3, u: 2, v: 1 },
    ];
    make_block(
        ChannelStats { min: 10u8.wrapping_add(seed), max: 200, interpolate: seed % 2 == 0 },
        ChannelStats { min: 90, max: 130, interpolate: seed % 3 == 0 },
        ChannelStats { min: 100, max: 161, interpolate: true },
        &qgrid,
        &qcorners,
    )
}

fn demo_img(width: i16, height: i16, nblocks: usize) -> Img {
    Img {
        width,
        height,
        blocks: (0..nblocks).map(|i| demo_block(i as u8)).collect(),
    }
}

fn assert_img_eq(a: &Img, b: &Img) {
    assert_eq!(a.width, b.width);
    assert_eq!(a.height, b.height);
    assert_eq!(a.blocks.len(), b.blocks.len());
    for (x, y) in a.blocks.iter().zip(b.blocks.iter()) {
        assert_eq!(x.blockmaxy, y.blockmaxy);
        assert_eq!(x.blockminy, y.blockminy);
        assert_eq!(x.blockmaxu, y.blockmaxu);
        assert_eq!(x.blockminu, y.blockminu);
        assert_eq!(x.blockmaxv, y.blockmaxv);
        assert_eq!(x.blockminv, y.blockminv);
        assert_eq!(x.interpolatey, y.interpolatey);
        assert_eq!(x.interpolateu, y.interpolateu);
        assert_eq!(x.interpolatev, y.interpolatev);
        assert_eq!(x.corners, y.corners);
        assert_eq!(x.nblock4bn, y.nblock4bn);
    }
}

#[test]
fn format_roundtrip_single_block() {
    let img = demo_img(8, 8, 1);
    let buf = img2buf(&img);
    assert_eq!(buf.len(), HEADER_LEN + 8 + BLOCK_BYTES + FOOTER_LEN);
    let back = buf2img(&buf).expect("own stream decodes");
    assert_img_eq(&img, &back);
}

#[test]
fn format_roundtrip_many_blocks() {
    let img = demo_img(32, 16, 8);
    let back = buf2img(&img2buf(&img)).expect("own stream decodes");
    assert_img_eq(&img, &back);
}

#[test]
fn format_roundtrip_empty_image() {
    let img = demo_img(0, 0, 0);
    let buf = img2buf(&img);
    assert_eq!(buf.len(), HEADER_LEN + 8 + FOOTER_LEN);
    let back = buf2img(&buf).expect("own stream decodes");
    assert_img_eq(&img, &back);
}

#[test]
fn format_layout_is_columnar() {
    let img = demo_img(16, 8, 2);
    let buf = img2buf(&img);
    // Width and height, big-endian.
    assert_eq!(buf[HEADER_LEN], 0);
    assert_eq!(buf[HEADER_LEN + 1], 16);
    assert_eq!(buf[HEADER_LEN + 2], 0);
    assert_eq!(buf[HEADER_LEN + 3], 8);
    // Block count, big-endian 32-bit.
    assert_eq!(&buf[HEADER_LEN + 4..HEADER_LEN + 8], &[0, 0, 0, 2]);
    // Fixed fields of block 0: maxy, miny, maxu, minu, maxv, minv, flags.
    let b0 = &img.blocks[0];
    let fb = HEADER_LEN + 8;
    assert_eq!(buf[fb], b0.blockmaxy);
    assert_eq!(buf[fb + 1], b0.blockminy);
    assert_eq!(buf[fb + 5], b0.blockminv);
    assert_eq!(buf[fb + 6], 4 + 2 + 1); // all three flags set for seed 0
    // Corners of block 1 follow all fixed fields.
    let cb = fb + 7 * 2;
    assert_eq!(buf[cb + 4], img.blocks[1].corners[0]);
    // Grid of block 1 follows all corners.
    let gb = fb + 11 * 2;
    assert_eq!(buf[gb + 64], img.blocks[1].nblock4bn[0][0]);
    assert_eq!(buf[gb + 64 + 63], img.blocks[1].nblock4bn[7][7]);
}

#[test]
fn negative_width_survives_roundtrip() {
    let img = demo_img(-160, 312, 0);
    let back = buf2img(&img2buf(&img)).expect("decodes");
    assert_eq!(back.width, -160);
    assert_eq!(back.height, 312);
}

#[test]
fn trailing_bytes_are_ignored() {
    let img = demo_img(8, 8, 1);
    let mut buf = img2buf(&img);
    buf.push(42);
    buf.push(7);
    let back = buf2img(&buf).expect("decodes with trailing junk");
    assert_img_eq(&img, &back);
}

#[test]
fn error_truncated_short_header() {
    let buf: Vec<u8> = vec![1, 2, 3];
    assert_eq!(buf2img(&buf), Err(FormatError::Truncated));
}

#[test]
fn error_bad_header() {
    let mut buf = img2buf(&demo_img(8, 8, 1));
    buf[0] ^= 0xff;
    assert_eq!(buf2img(&buf), Err(FormatError::BadHeader));
}

#[test]
fn error_truncated_after_header() {
    let buf = img2buf(&demo_img(8, 8, 1));
    let cut: Vec<u8> = buf[..HEADER_LEN + 3].to_vec();
    assert_eq!(buf2img(&cut), Err(FormatError::Truncated));
}

#[test]
fn error_negative_block_count() {
    let mut buf = img2buf(&demo_img(8, 8, 1));
    buf[HEADER_LEN + 4] = 0x80;
    assert_eq!(buf2img(&buf), Err(FormatError::BadBlockCount));
}

#[test]
fn error_truncated_body() {
    let buf = img2buf(&demo_img(8, 8, 1));
    let cut: Vec<u8> = buf[..buf.len() - 1].to_vec();
    assert_eq!(buf2img(&cut), Err(FormatError::Truncated));
}

#[test]
fn error_bad_footer() {
    let mut buf = img2buf(&demo_img(8, 8, 1));
    let last = buf.len() - 1;
    buf[last] ^= 0xff;
    assert_eq!(buf2img(&buf), Err(FormatError::BadFooter));
}

#[test]
fn pixdelta_wraps_backward_steps() {
    assert_eq!(pixdelta(0, 5, 16), 5);
    assert_eq!(pixdelta(5, 3, 16), 14);
    assert_eq!(pixdelta(3, 3, 4), 0);
    assert_eq!(pixdelta(3, 0, 4), 1);
}

#[test]
fn pixdelta_decode_inverts_pixdelta() {
    for m in [4u8, 16] {
        for prev in 0..m {
            for now in 0..m {
                let d = pixdelta(prev, now, m);
                assert!(d < m);
                assert_eq!(pixdelta_decode(prev, d, m), now);
            }
        }
    }
}

#[test]
fn delta_block_roundtrip() {
    let qgrid = sample_grid(|r, c| (((r * 5 + c * 3) % 16) as u8, (r % 4) as u8, ((c * 3) % 4) as u8));
    let enc = delta_encode_block(&qgrid);
    assert_eq!(enc.len(), 8);
    // First sample has predictor 0 per channel.
    let s0 = qgrid[0][0];
    assert_eq!(enc[0][0], (s0.y * 4 + s0.u) * 4 + s0.v);
    let dec = delta_decode_block(&enc);
    for r in 0..8 {
        for c in 0..8 {
            assert_eq!(dec[r][c], qgrid[r][c]);
        }
    }
}

#[test]
fn pack_and_unpack_sample() {
    assert_eq!(pack_sample(&Sample { y: 15, u: 3, v: 3 }), 255);
    assert_eq!(pack_sample(&Sample { y: 0, u: 0, v: 0 }), 0);
    assert_eq!(pack_sample(&Sample { y: 9, u: 2, v: 1 }), 9 * 16 + 2 * 4 + 1);
    for b in [0u8, 1, 63, 64, 127, 128, 200, 255] {
        let s = unpack_sample(b);
        assert!(s.y < 16 && s.u < 4 && s.v < 4);
        assert_eq!(pack_sample(&s), b);
    }
}

#[test]
fn block_position_wraps_by_declared_width() {
    // Width 16: two blocks per row.
    assert_eq!(block_position(0, 16), (0u64, 0u64));
    assert_eq!(block_position(1, 16), (8u64, 0u64));
    assert_eq!(block_position(2, 16), (0u64, 8u64));
    // Width 10: a partial trailing column still holds a block.
    assert_eq!(block_position(0, 10), (0u64, 0u64));
    assert_eq!(block_position(1, 10), (8u64, 0u64));
    assert_eq!(block_position(2, 10), (0u64, 8u64));
    assert_eq!(block_position(3, 10), (8u64, 8u64));
    // Width 8: one block per row.
    assert_eq!(block_position(1, 8), (0u64, 8u64));
}

#[test]
fn progress_bar_counts() {
    let mut pb = ProgressBar::new(3, "encoding...");
    assert_eq!(pb.progress, 0);
    assert_eq!(pb.max, 3);
    assert_eq!(pb.title, "encoding...");
    pb.increment();
    pb.increment();
    assert_eq!(pb.progress, 2);
}
