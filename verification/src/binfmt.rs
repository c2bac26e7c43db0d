//! The binary format layer.
//!
//! A codec stream is a strict, columnar byte layout: a fixed ASCII magic
//! header; width and height as big-endian signed 16-bit values; the block
//! count as a big-endian signed 32-bit value; then, for every block in
//! order, its six min/max bytes and one packed interpolation byte; then
//! every block's four corner bytes; then every block's 8x8 packed delta
//! grid in row-major order; and a fixed ASCII magic footer.

use vstd::prelude::*;
use vstd::arithmetic::div_mod::{
    lemma_fundamental_div_mod, lemma_mod_breakdown, lemma_small_mod,
};

verus! {

/// One 8x8 tile: per-channel min/max statistics, per-channel interpolation
/// flags, four packed corner samples, and the 8x8 packed delta-coded grid.
#[derive(Debug, PartialEq, Eq)]
pub struct Block {
    pub blockmaxy: u8,
    pub blockminy: u8,
    pub blockmaxu: u8,
    pub blockminu: u8,
    pub blockmaxv: u8,
    pub blockminv: u8,
    pub interpolatey: bool,
    pub interpolateu: bool,
    pub interpolatev: bool,
    pub corners: Vec<u8>,
    pub nblock4bn: Vec<Vec<u8>>,
}

impl Block {
    /// Structural well-formedness: four corner bytes and an 8x8 grid.
    pub open spec fn wf(&self) -> bool {
        &&& self.corners@.len() == 4
        &&& self.nblock4bn@.len() == 8
        &&& forall|r: int| 0 <= r < 8 ==> (#[trigger] self.nblock4bn@[r])@.len() == 8
    }
}

/// A complete coded image: declared raster dimensions and the blocks that
/// tile the (padded) raster in row-major order.
#[derive(Debug, PartialEq, Eq)]
pub struct Img {
    pub width: i16,
    pub height: i16,
    pub blocks: Vec<Block>,
}

impl Img {
    /// What the format layer needs of an image: a block count that fits the
    /// signed 32-bit count field, and structurally well-formed blocks.
    pub open spec fn serializable(&self) -> bool {
        &&& self.blocks@.len() <= 0x7fff_ffff
        &&& forall|i: int| 0 <= i < self.blocks@.len() ==> (#[trigger] self.blocks@[i]).wf()
    }
}

/// Why a byte stream was rejected by the decoder.
#[derive(Clone, Copy, Debug, PartialEq, Eq, Structural)]
pub enum FormatError {
    /// The stream ends before the layout says it may.
    Truncated,
    /// The magic header bytes do not match.
    BadHeader,
    /// The magic footer bytes do not match.
    BadFooter,
    /// The block count field is negative.
    BadBlockCount,
}

/// Length in bytes of the fixed magic header.
pub const HEADER_LEN: usize = 129;

/// Length in bytes of the fixed magic footer.
pub const FOOTER_LEN: usize = 77;

/// Bytes each block contributes: 7 fixed fields + 4 corners + 64 grid bytes.
pub const BLOCK_BYTES: usize = 75;

/// The magic header bytes: an ASCII banner naming the format and embedding
/// its version token. Decoding fails unless the stream starts with exactly
/// these bytes.
pub open spec fn header_seq() -> Seq<u8> {
    seq![
        116u8, 104, 105, 115, 32, 105, 115, 32, 98, 105, 110, 97,
        114, 121, 32, 105, 109, 97, 103, 101, 32, 111, 102, 32,
        104, 116, 116, 112, 115, 58, 47, 47, 103, 105, 116, 104,
        117, 98, 46, 99, 111, 109, 47, 98, 115, 97, 104, 100,
        47, 105, 109, 97, 103, 101, 45, 99, 111, 109, 112, 114,
        101, 115, 115, 32, 102, 111, 114, 109, 97, 116, 46, 10,
        118, 101, 114, 115, 105, 111, 110, 58, 50, 51, 48, 54,
        48, 54, 101, 101, 57, 97, 54, 100, 48, 98, 52, 53,
        98, 55, 49, 49, 54, 55, 102, 56, 102, 97, 97, 48,
        49, 101, 100, 49, 54, 57, 99, 100, 57, 54, 98, 98,
        10, 10, 10, 10, 10, 10, 10, 10, 10,
    ]
}

/// The magic footer bytes: an ASCII trailer. Decoding fails unless they
/// follow the last grid byte exactly.
pub open spec fn footer_seq() -> Seq<u8> {
    seq![
        10u8, 10, 10, 116, 104, 105, 115, 32, 105, 115, 32, 98,
        105, 110, 97, 114, 121, 32, 102, 111, 114, 109, 97, 116,
        46, 32, 114, 101, 97, 100, 32, 104, 101, 97, 100, 32,
        117, 115, 105, 110, 103, 32, 104, 101, 97, 100, 32, 99,
        111, 109, 109, 97, 110, 100, 32, 102, 111, 114, 32, 109,
        111, 114, 101, 32, 105, 110, 102, 111, 114, 109, 97, 116,
        105, 111, 110, 46, 10,
    ]
}

/// The magic header byte at position `i`.
#[verifier::rlimit(100)]
pub fn header_byte_at(i: usize) -> (b: u8)
    requires
        i < HEADER_LEN,
    ensures
        b == header_seq()[i as int],
{
    if i == 0 { 116 } else if i == 1 { 104 } else if i == 2 { 105 } else if i == 3 { 115 } else
    if i == 4 { 32 } else if i == 5 { 105 } else if i == 6 { 115 } else if i == 7 { 32 } else if
    i == 8 { 98 } else if i == 9 { 105 } else if i == 10 { 110 } else if i == 11 { 97 } else if
    i == 12 { 114 } else if i == 13 { 121 } else if i == 14 { 32 } else if i == 15 { 105 } else
    if i == 16 { 109 } else if i == 17 { 97 } else if i == 18 { 103 } else if i == 19 { 101 }
    else if i == 20 { 32 } else if i == 21 { 111 } else if i == 22 { 102 } else if i == 23 { 32
    } else if i == 24 { 104 } else if i == 25 { 116 } else if i == 26 { 116 } else if i == 27 {
    112 } else if i == 28 { 115 } else if i == 29 { 58 } else if i == 30 { 47 } else if i == 31
    { 47 } else if i == 32 { 103 } else if i == 33 { 105 } else if i == 34 { 116 } else if i ==
    35 { 104 } else if i == 36 { 117 } else if i == 37 { 98 } else if i == 38 { 46 } else if i
    == 39 { 99 } else if i == 40 { 111 } else if i == 41 { 109 } else if i == 42 { 47 } else if
    i == 43 { 98 } else if i == 44 { 115 } else if i == 45 { 97 } else if i == 46 { 104 } else
    if i == 47 { 100 } else if i == 48 { 47 } else if i == 49 { 105 } else if i == 50 { 109 }
    else if i == 51 { 97 } else if i == 52 { 103 } else if i == 53 { 101 } else if i == 54 { 45
    } else if i == 55 { 99 } else if i == 56 { 111 } else if i == 57 { 109 } else if i == 58 {
    112 } else if i == 59 { 114 } else if i == 60 { 101 } else if i == 61 { 115 } else if i ==
    62 { 115 } else if i == 63 { 32 } else if i == 64 { 102 } else if i == 65 { 111 } else if i
    == 66 { 114 } else if i == 67 { 109 } else if i == 68 { 97 } else if i == 69 { 116 } else if
    i == 70 { 46 } else if i == 71 { 10 } else if i == 72 { 118 } else if i == 73 { 101 } else
    if i == 74 { 114 } else if i == 75 { 115 } else if i == 76 { 105 } else if i == 77 { 111 }
    else if i == 78 { 110 } else if i == 79 { 58 } else if i == 80 { 50 } else if i == 81 { 51 }
    else if i == 82 { 48 } else if i == 83 { 54 } else if i == 84 { 48 } else if i == 85 { 54 }
    else if i == 86 { 101 } else if i == 87 { 101 } else if i == 88 { 57 } else if i == 89 { 97
    } else if i == 90 { 54 } else if i == 91 { 100 } else if i == 92 { 48 } else if i == 93 { 98
    } else if i == 94 { 52 } else if i == 95 { 53 } else if i == 96 { 98 } else if i == 97 { 55
    } else if i == 98 { 49 } else if i == 99 { 49 } else if i == 100 { 54 } else if i == 101 {
    55 } else if i == 102 { 102 } else if i == 103 { 56 } else if i == 104 { 102 } else if i ==
    105 { 97 } else if i == 106 { 97 } else if i == 107 { 48 } else if i == 108 { 49 } else if i
    == 109 { 101 } else if i == 110 { 100 } else if i == 111 { 49 } else if i == 112 { 54 } else
    if i == 113 { 57 } else if i == 114 { 99 } else if i == 115 { 100 } else if i == 116 { 57 }
    else if i == 117 { 54 } else if i == 118 { 98 } else if i == 119 { 98 } else if i == 120 {
    10 } else if i == 121 { 10 } else if i == 122 { 10 } else if i == 123 { 10 } else if i ==
    124 { 10 } else if i == 125 { 10 } else if i == 126 { 10 } else if i == 127 { 10 } else { 10
    }
}

/// The magic footer byte at position `i`.
#[verifier::rlimit(100)]
pub fn footer_byte_at(i: usize) -> (b: u8)
    requires
        i < FOOTER_LEN,
    ensures
        b == footer_seq()[i as int],
{
    if i == 0 { 10 } else if i == 1 { 10 } else if i == 2 { 10 } else if i == 3 { 116 } else if
    i == 4 { 104 } else if i == 5 { 105 } else if i == 6 { 115 } else if i == 7 { 32 } else if i
    == 8 { 105 } else if i == 9 { 115 } else if i == 10 { 32 } else if i == 11 { 98 } else if i
    == 12 { 105 } else if i == 13 { 110 } else if i == 14 { 97 } else if i == 15 { 114 } else if
    i == 16 { 121 } else if i == 17 { 32 } else if i == 18 { 102 } else if i == 19 { 111 } else
    if i == 20 { 114 } else if i == 21 { 109 } else if i == 22 { 97 } else if i == 23 { 116 }
    else if i == 24 { 46 } else if i == 25 { 32 } else if i == 26 { 114 } else if i == 27 { 101
    } else if i == 28 { 97 } else if i == 29 { 100 } else if i == 30 { 32 } else if i == 31 {
    104 } else if i == 32 { 101 } else if i == 33 { 97 } else if i == 34 { 100 } else if i == 35
    { 32 } else if i == 36 { 117 } else if i == 37 { 115 } else if i == 38 { 105 } else if i ==
    39 { 110 } else if i == 40 { 103 } else if i == 41 { 32 } else if i == 42 { 104 } else if i
    == 43 { 101 } else if i == 44 { 97 } else if i == 45 { 100 } else if i == 46 { 32 } else if
    i == 47 { 99 } else if i == 48 { 111 } else if i == 49 { 109 } else if i == 50 { 109 } else
    if i == 51 { 97 } else if i == 52 { 110 } else if i == 53 { 100 } else if i == 54 { 32 }
    else if i == 55 { 102 } else if i == 56 { 111 } else if i == 57 { 114 } else if i == 58 { 32
    } else if i == 59 { 109 } else if i == 60 { 111 } else if i == 61 { 114 } else if i == 62 {
    101 } else if i == 63 { 32 } else if i == 64 { 105 } else if i == 65 { 110 } else if i == 66
    { 102 } else if i == 67 { 111 } else if i == 68 { 114 } else if i == 69 { 109 } else if i ==
    70 { 97 } else if i == 71 { 116 } else if i == 72 { 105 } else if i == 73 { 111 } else if i
    == 74 { 110 } else if i == 75 { 46 } else { 10 }
}

/// The unsigned 16-bit pattern of a signed 16-bit value (two's complement).
pub open spec fn u16_of_i16(w: i16) -> int {
    if w >= 0 {
        w as int
    } else {
        w + 65536
    }
}

/// High byte of a big-endian signed 16-bit field.
pub open spec fn be16_hi(w: i16) -> u8 {
    (u16_of_i16(w) / 256) as u8
}

/// Low byte of a big-endian signed 16-bit field.
pub open spec fn be16_lo(w: i16) -> u8 {
    (u16_of_i16(w) % 256) as u8
}

/// The signed 16-bit value read from two big-endian bytes.
pub open spec fn i16_of_be(b0: u8, b1: u8) -> i16 {
    let v = b0 * 256 + b1;
    if v < 32768 {
        v as i16
    } else {
        (v - 65536) as i16
    }
}

/// Byte `j` (0 = most significant) of a big-endian 32-bit field holding `n`.
pub open spec fn be32_byte(n: int, j: int) -> u8
    recommends
        0 <= n < 0x1_0000_0000,
        0 <= j < 4,
{
    if j == 0 {
        (n / 0x1000000 % 256) as u8
    } else if j == 1 {
        (n / 0x10000 % 256) as u8
    } else if j == 2 {
        (n / 0x100 % 256) as u8
    } else {
        (n % 256) as u8
    }
}

/// The unsigned value read from four big-endian bytes.
pub open spec fn u32_of_be(b0: u8, b1: u8, b2: u8, b3: u8) -> int {
    ((b0 * 256 + b1) * 256 + b2) * 256 + b3
}

/// The packed interpolation byte of a block: `4*Y + 2*U + V` flags.
pub open spec fn interp_byte(b: Block) -> u8 {
    ((if b.interpolatey {
        4int
    } else {
        0int
    }) + (if b.interpolateu {
        2int
    } else {
        0int
    }) + (if b.interpolatev {
        1int
    } else {
        0int
    })) as u8
}

/// Byte `j` of a block's seven fixed-field bytes.
pub open spec fn fixed_field_byte(b: Block, j: int) -> u8
    recommends
        0 <= j < 7,
{
    if j == 0 {
        b.blockmaxy
    } else if j == 1 {
        b.blockminy
    } else if j == 2 {
        b.blockmaxu
    } else if j == 3 {
        b.blockminu
    } else if j == 4 {
        b.blockmaxv
    } else if j == 5 {
        b.blockminv
    } else {
        interp_byte(b)
    }
}

/// The fixed-field section: seven bytes for every block, in block order.
pub open spec fn fixed_section(blocks: Seq<Block>) -> Seq<u8> {
    Seq::new(7 * blocks.len(), |i: int| fixed_field_byte(blocks[i / 7], i % 7))
}

/// The corner section: four corner bytes for every block, in block order.
pub open spec fn corner_section(blocks: Seq<Block>) -> Seq<u8> {
    Seq::new(4 * blocks.len(), |i: int| blocks[i / 4].corners@[i % 4])
}

/// The grid section: 64 packed delta bytes for every block, row-major,
/// in block order.
pub open spec fn grid_section(blocks: Seq<Block>) -> Seq<u8> {
    Seq::new(
        64 * blocks.len(),
        |i: int| blocks[i / 64].nblock4bn@[(i % 64) / 8]@[i % 8],
    )
}

/// The eight dimension bytes: width, height (big-endian 16-bit) and the
/// block count (big-endian 32-bit).
pub open spec fn dims_seq(img: Img) -> Seq<u8> {
    seq![
        be16_hi(img.width),
        be16_lo(img.width),
        be16_hi(img.height),
        be16_lo(img.height),
        be32_byte(img.blocks@.len() as int, 0),
        be32_byte(img.blocks@.len() as int, 1),
        be32_byte(img.blocks@.len() as int, 2),
        be32_byte(img.blocks@.len() as int, 3),
    ]
}

/// Offset of the fixed-field section.
pub open spec fn fixed_base() -> int {
    HEADER_LEN + 8
}

/// Offset of the corner section in a stream of `n` blocks.
pub open spec fn corner_base(n: int) -> int {
    fixed_base() + 7 * n
}

/// Offset of the grid section in a stream of `n` blocks.
pub open spec fn grid_base(n: int) -> int {
    fixed_base() + 11 * n
}

/// Offset of the magic footer in a stream of `n` blocks.
pub open spec fn footer_base(n: int) -> int {
    fixed_base() + 75 * n
}

/// Total length in bytes of a stream of `n` blocks.
pub open spec fn total_size(n: int) -> int {
    footer_base(n) + FOOTER_LEN
}

/// The serialized byte stream of an image: header, dimensions, the three
/// columnar block sections, footer.
pub open spec fn spec_serialize(img: Img) -> Seq<u8> {
    header_seq() + dims_seq(img) + fixed_section(img.blocks@) + corner_section(img.blocks@)
        + grid_section(img.blocks@) + footer_seq()
}

spec fn hdr_dims_written(s: Seq<u8>, img: Img) -> bool {
    &&& forall|k: int| 0 <= k < HEADER_LEN ==> #[trigger] s[k] == header_seq()[k]
    &&& forall|k: int|
        HEADER_LEN <= k < HEADER_LEN + 8 ==> #[trigger] s[k] == dims_seq(img)[k - HEADER_LEN]
}

spec fn fixed_written_upto(s: Seq<u8>, bl: Seq<Block>, m: int) -> bool {
    forall|k: int|
        fixed_base() <= k < fixed_base() + m ==> #[trigger] s[k] == fixed_section(bl)[k
            - fixed_base()]
}

spec fn corner_written_upto(s: Seq<u8>, bl: Seq<Block>, n: int, m: int) -> bool {
    forall|k: int|
        corner_base(n) <= k < corner_base(n) + m ==> #[trigger] s[k] == corner_section(bl)[k
            - corner_base(n)]
}

spec fn grid_written_upto(s: Seq<u8>, bl: Seq<Block>, n: int, m: int) -> bool {
    forall|k: int|
        grid_base(n) <= k < grid_base(n) + m ==> #[trigger] s[k] == grid_section(bl)[k
            - grid_base(n)]
}

spec fn footer_written_upto(s: Seq<u8>, n: int, m: int) -> bool {
    forall|k: int|
        footer_base(n) <= k < footer_base(n) + m ==> #[trigger] s[k] == footer_seq()[k
            - footer_base(n)]
}

fn push_be16(buf: &mut Vec<u8>, w: i16)
    ensures
        final(buf)@ == old(buf)@ + seq![be16_hi(w), be16_lo(w)],
{
    let v: u16 = if w >= 0 {
        w as u16
    } else {
        ((w as i32) + 65536) as u16
    };
    proof {
        assert(v as int == u16_of_i16(w));
    }
    buf.push((v / 256) as u8);
    buf.push((v % 256) as u8);
    proof {
        assert(buf@ =~= old(buf)@ + seq![be16_hi(w), be16_lo(w)]);
    }
}

fn push_be32(buf: &mut Vec<u8>, n: usize)
    requires
        n <= 0x7fff_ffff,
    ensures
        final(buf)@ == old(buf)@ + seq![
            be32_byte(n as int, 0),
            be32_byte(n as int, 1),
            be32_byte(n as int, 2),
            be32_byte(n as int, 3),
        ],
{
    buf.push((n / 0x1000000 % 256) as u8);
    buf.push((n / 0x10000 % 256) as u8);
    buf.push((n / 0x100 % 256) as u8);
    buf.push((n % 256) as u8);
    proof {
        assert(buf@ =~= old(buf)@ + seq![
            be32_byte(n as int, 0),
            be32_byte(n as int, 1),
            be32_byte(n as int, 2),
            be32_byte(n as int, 3),
        ]);
    }
}

/// Byte `j` of a block's fixed-field record: max/min for Y, U, V, then the
/// packed interpolation byte.
pub fn fixed_byte_at(b: &Block, j: usize) -> (r: u8)
    requires
        j < 7,
    ensures
        r == fixed_field_byte(*b, j as int),
{
    if j == 0 {
        b.blockmaxy
    } else if j == 1 {
        b.blockminy
    } else if j == 2 {
        b.blockmaxu
    } else if j == 3 {
        b.blockminu
    } else if j == 4 {
        b.blockmaxv
    } else if j == 5 {
        b.blockminv
    } else {
        (if b.interpolatey {
            4u8
        } else {
            0u8
        }) + (if b.interpolateu {
            2u8
        } else {
            0u8
        }) + (if b.interpolatev {
            1u8
        } else {
            0u8
        })
    }
}

/// Serializes an image into the exact byte layout of the format.
#[verifier::loop_isolation(false)]
pub fn img2buf(img: &Img) -> (r: Vec<u8>)
    requires
        img.serializable(),
    ensures
        r@ == spec_serialize(*img),
        r@.len() == total_size(img.blocks@.len() as int),
{
    let ghost bl = img.blocks@;
    let n = img.blocks.len();
    let mut buf: Vec<u8> = Vec::new();
    let mut i: usize = 0;
    while i < HEADER_LEN
        invariant
            i <= HEADER_LEN,
            buf@.len() == i,
            forall|k: int| 0 <= k < i ==> #[trigger] buf@[k] == header_seq()[k],
        decreases HEADER_LEN - i,
    {
        buf.push(header_byte_at(i));
        i = i + 1;
    }
    push_be16(&mut buf, img.width);
    push_be16(&mut buf, img.height);
    push_be32(&mut buf, n);
    proof {
        assert(buf@.len() == fixed_base());
        assert forall|k: int| 0 <= k < HEADER_LEN implies #[trigger] buf@[k] == header_seq()[k] by {}
        assert forall|k: int| HEADER_LEN <= k < HEADER_LEN + 8 implies #[trigger] buf@[k]
            == dims_seq(*img)[k - HEADER_LEN] by {}
        assert(hdr_dims_written(buf@, *img));
    }
    let mut i: usize = 0;
    while i < n
        invariant
            i <= n,
            buf@.len() == fixed_base() + 7 * i,
            hdr_dims_written(buf@, *img),
            fixed_written_upto(buf@, bl, 7 * i as int),
        decreases n - i,
    {
        let b = &img.blocks[i];
        let mut j: usize = 0;
        while j < 7
            invariant
                j <= 7,
                buf@.len() == fixed_base() + 7 * i + j,
                hdr_dims_written(buf@, *img),
                fixed_written_upto(buf@, bl, 7 * i + j as int),
            decreases 7 - j,
        {
            buf.push(fixed_byte_at(b, j));
            proof {
                assert((7 * i + j) / 7 == i && (7 * i + j) % 7 == j) by (nonlinear_arith)
                    requires
                        0 <= i,
                        0 <= j < 7,
                ;
                assert(fixed_section(bl)[7 * i + j] == fixed_field_byte(bl[i as int], j as int));
            }
            j = j + 1;
        }
        i = i + 1;
    }
    proof {
        assert(fixed_written_upto(buf@, bl, 7 * n as int));
    }
    let mut i: usize = 0;
    while i < n
        invariant
            i <= n,
            buf@.len() == corner_base(n as int) + 4 * i,
            hdr_dims_written(buf@, *img),
            fixed_written_upto(buf@, bl, 7 * n as int),
            corner_written_upto(buf@, bl, n as int, 4 * i as int),
        decreases n - i,
    {
        let b = &img.blocks[i];
        let mut j: usize = 0;
        while j < 4
            invariant
                j <= 4,
                buf@.len() == corner_base(n as int) + 4 * i + j,
                hdr_dims_written(buf@, *img),
                fixed_written_upto(buf@, bl, 7 * n as int),
                corner_written_upto(buf@, bl, n as int, 4 * i + j as int),
            decreases 4 - j,
        {
            buf.push(b.corners[j]);
            proof {
                assert((4 * i + j) / 4 == i && (4 * i + j) % 4 == j) by (nonlinear_arith)
                    requires
                        0 <= i,
                        0 <= j < 4,
                ;
                assert(corner_section(bl)[4 * i + j] == bl[i as int].corners@[j as int]);
            }
            j = j + 1;
        }
        i = i + 1;
    }
    proof {
        assert(corner_written_upto(buf@, bl, n as int, 4 * n as int));
    }
    let mut i: usize = 0;
    while i < n
        invariant
            i <= n,
            buf@.len() == grid_base(n as int) + 64 * i,
            hdr_dims_written(buf@, *img),
            fixed_written_upto(buf@, bl, 7 * n as int),
            corner_written_upto(buf@, bl, n as int, 4 * n as int),
            grid_written_upto(buf@, bl, n as int, 64 * i as int),
        decreases n - i,
    {
        let b = &img.blocks[i];
        let mut j: usize = 0;
        while j < 64
            invariant
                j <= 64,
                buf@.len() == grid_base(n as int) + 64 * i + j,
                hdr_dims_written(buf@, *img),
                fixed_written_upto(buf@, bl, 7 * n as int),
                corner_written_upto(buf@, bl, n as int, 4 * n as int),
                grid_written_upto(buf@, bl, n as int, 64 * i + j as int),
            decreases 64 - j,
        {
            proof {
                assert(j / 8 < 8 && j % 8 < 8) by (nonlinear_arith)
                    requires
                        0 <= j < 64,
                ;
            }
            buf.push(b.nblock4bn[j / 8][j % 8]);
            proof {
                let p: int = 64 * i + j;
                assert(p / 64 == i && p % 64 == j && p % 8 == j % 8) by (nonlinear_arith)
                    requires
                        p == 64 * i + j,
                        0 <= i,
                        0 <= j < 64,
                ;
                assert(grid_section(bl)[p] == bl[i as int].nblock4bn@[(j as int) / 8]@[(j as int)
                    % 8]);
            }
            j = j + 1;
        }
        i = i + 1;
    }
    proof {
        assert(grid_written_upto(buf@, bl, n as int, 64 * n as int));
    }
    let mut i: usize = 0;
    while i < FOOTER_LEN
        invariant
            i <= FOOTER_LEN,
            buf@.len() == footer_base(n as int) + i,
            hdr_dims_written(buf@, *img),
            fixed_written_upto(buf@, bl, 7 * n as int),
            corner_written_upto(buf@, bl, n as int, 4 * n as int),
            grid_written_upto(buf@, bl, n as int, 64 * n as int),
            footer_written_upto(buf@, n as int, i as int),
        decreases FOOTER_LEN - i,
    {
        buf.push(footer_byte_at(i));
        i = i + 1;
    }
    proof {
        assert(buf@.len() == total_size(n as int));
        assert(buf@ =~= spec_serialize(*img));
    }
    buf
}

/// The stream begins with the exact magic header.
pub open spec fn header_ok(s: Seq<u8>) -> bool {
    s.len() >= HEADER_LEN && s.subrange(0, HEADER_LEN as int) == header_seq()
}

/// The declared width field of a stream.
pub open spec fn parse_width(s: Seq<u8>) -> i16 {
    i16_of_be(s[HEADER_LEN as int], s[HEADER_LEN as int + 1])
}

/// The declared height field of a stream.
pub open spec fn parse_height(s: Seq<u8>) -> i16 {
    i16_of_be(s[HEADER_LEN as int + 2], s[HEADER_LEN as int + 3])
}

/// The block count field of a stream, as the unsigned 32-bit pattern.
pub open spec fn parse_count(s: Seq<u8>) -> int {
    u32_of_be(
        s[HEADER_LEN as int + 4],
        s[HEADER_LEN as int + 5],
        s[HEADER_LEN as int + 6],
        s[HEADER_LEN as int + 7],
    )
}

/// The exact magic footer follows the grid section of an `n`-block stream.
pub open spec fn footer_ok(s: Seq<u8>, n: int) -> bool {
    s.subrange(footer_base(n), total_size(n)) == footer_seq()
}

/// A stream decodes successfully: magic header, a non-negative block count,
/// enough bytes for all sections, and the magic footer in place.
pub open spec fn parse_ok(s: Seq<u8>) -> bool {
    &&& header_ok(s)
    &&& s.len() >= fixed_base()
    &&& parse_count(s) < 0x8000_0000
    &&& s.len() >= total_size(parse_count(s))
    &&& footer_ok(s, parse_count(s))
}

/// The error a rejected stream is reported with, following the order in
/// which the decoder reads: header, dimensions and count, length, footer.
pub open spec fn spec_parse_err(s: Seq<u8>) -> FormatError
    recommends
        !parse_ok(s),
{
    if s.len() < HEADER_LEN {
        FormatError::Truncated
    } else if !header_ok(s) {
        FormatError::BadHeader
    } else if s.len() < fixed_base() {
        FormatError::Truncated
    } else if parse_count(s) >= 0x8000_0000 {
        FormatError::BadBlockCount
    } else if s.len() < total_size(parse_count(s)) {
        FormatError::Truncated
    } else {
        FormatError::BadFooter
    }
}

/// Block `i` of an `n`-block stream decodes to exactly this block value.
pub open spec fn block_matches(b: Block, s: Seq<u8>, n: int, i: int) -> bool {
    let fb = fixed_base() + 7 * i;
    let cb = corner_base(n) + 4 * i;
    let gb = grid_base(n) + 64 * i;
    &&& b.blockmaxy == s[fb]
    &&& b.blockminy == s[fb + 1]
    &&& b.blockmaxu == s[fb + 2]
    &&& b.blockminu == s[fb + 3]
    &&& b.blockmaxv == s[fb + 4]
    &&& b.blockminv == s[fb + 5]
    &&& b.interpolatey == (s[fb + 6] >= 4)
    &&& b.interpolateu == (s[fb + 6] % 4 >= 2)
    &&& b.interpolatev == (s[fb + 6] % 2 == 1)
    &&& b.corners@.len() == 4
    &&& forall|j: int| 0 <= j < 4 ==> #[trigger] b.corners@[j] == s[cb + j]
    &&& b.nblock4bn@.len() == 8
    &&& forall|r: int| 0 <= r < 8 ==> (#[trigger] b.nblock4bn@[r])@.len() == 8
    &&& forall|r: int, c: int|
        0 <= r < 8 && 0 <= c < 8 ==> #[trigger] b.nblock4bn@[r]@[c] == s[gb + 8 * r + c]
}

/// A decoded image carries exactly the fields and blocks of the stream.
pub open spec fn img_matches(img: Img, s: Seq<u8>) -> bool {
    &&& img.width == parse_width(s)
    &&& img.height == parse_height(s)
    &&& img.blocks@.len() == parse_count(s)
    &&& forall|i: int|
        0 <= i < parse_count(s) ==> block_matches(#[trigger] img.blocks@[i], s, parse_count(s), i)
}

fn read_i16(data: &Vec<u8>, p: usize) -> (r: i16)
    requires
        p + 2 <= data.len(),
    ensures
        r == i16_of_be(data@[p as int], data@[p as int + 1]),
{
    let b0 = data[p];
    let b1 = data[p + 1];
    let v: u32 = (b0 as u32) * 256 + (b1 as u32);
    if v < 32768 {
        v as i16
    } else {
        ((v as i32) - 65536) as i16
    }
}

fn read_u32(data: &Vec<u8>, p: usize) -> (r: u64)
    requires
        p + 4 <= data.len(),
    ensures
        r == u32_of_be(
            data@[p as int],
            data@[p as int + 1],
            data@[p as int + 2],
            data@[p as int + 3],
        ),
        r < 0x1_0000_0000,
{
    (data[p] as u64) * 0x1000000 + (data[p + 1] as u64) * 0x10000 + (data[p + 2] as u64) * 256 + (
    data[p + 3] as u64)
}

/// Decodes a byte stream back into an image.
///
/// Succeeds exactly on the streams that `parse_ok` admits, reproducing every
/// field the stream declares; a rejected stream is reported with the error
/// for the first check that fails. Bytes after the footer are ignored.
#[verifier::loop_isolation(false)]
pub fn buf2img(data: &Vec<u8>) -> (r: Result<Img, FormatError>)
    ensures
        r is Ok <==> parse_ok(data@),
        r is Ok ==> (r->Ok_0).serializable() && img_matches(r->Ok_0, data@),
        r is Err ==> r->Err_0 == spec_parse_err(data@),
{
    if data.len() < HEADER_LEN {
        return Err(FormatError::Truncated);
    }
    let mut i: usize = 0;
    while i < HEADER_LEN
        invariant
            i <= HEADER_LEN,
            forall|k: int| 0 <= k < i ==> #[trigger] data@[k] == header_seq()[k],
        decreases HEADER_LEN - i,
    {
        if data[i] != header_byte_at(i) {
            proof {
                assert(data@.subrange(0, HEADER_LEN as int)[i as int] == data@[i as int]);
                assert(!header_ok(data@));
            }
            return Err(FormatError::BadHeader);
        }
        i = i + 1;
    }
    proof {
        assert(data@.subrange(0, HEADER_LEN as int) =~= header_seq());
        assert(header_ok(data@));
    }
    if data.len() < HEADER_LEN + 8 {
        return Err(FormatError::Truncated);
    }
    let w = read_i16(data, HEADER_LEN);
    let h = read_i16(data, HEADER_LEN + 2);
    let count = read_u32(data, HEADER_LEN + 4);
    proof {
        assert(count == parse_count(data@));
    }
    if count >= 0x8000_0000u64 {
        return Err(FormatError::BadBlockCount);
    }
    let n: usize = count as usize;
    let need: u64 = (HEADER_LEN as u64) + 8 + (BLOCK_BYTES as u64) * (n as u64) + (FOOTER_LEN
        as u64);
    proof {
        assert(need == total_size(n as int));
    }
    if (data.len() as u64) < need {
        return Err(FormatError::Truncated);
    }
    let tb: usize = HEADER_LEN + 8 + BLOCK_BYTES * n;
    let mut i: usize = 0;
    while i < FOOTER_LEN
        invariant
            i <= FOOTER_LEN,
            forall|k: int| 0 <= k < i ==> #[trigger] data@[tb + k] == footer_seq()[k],
        decreases FOOTER_LEN - i,
    {
        if data[tb + i] != footer_byte_at(i) {
            proof {
                assert(data@.subrange(footer_base(n as int), total_size(n as int))[i as int]
                    == data@[tb + i]);
                assert(!footer_ok(data@, n as int));
            }
            return Err(FormatError::BadFooter);
        }
        i = i + 1;
    }
    proof {
        assert forall|k: int|
            0 <= k < FOOTER_LEN implies data@.subrange(
            footer_base(n as int),
            total_size(n as int),
        )[k] == footer_seq()[k] by {
            assert(data@[tb + k] == footer_seq()[k]);
        }
        assert(data@.subrange(footer_base(n as int), total_size(n as int)) =~= footer_seq());
        assert(parse_ok(data@));
    }
    let mut blocks: Vec<Block> = Vec::new();
    let mut i: usize = 0;
    while i < n
        invariant
            i <= n,
            blocks@.len() == i,
            forall|k: int|
                0 <= k < i ==> block_matches(#[trigger] blocks@[k], data@, n as int, k)
                    && blocks@[k].wf(),
        decreases n - i,
    {
        let fb: usize = HEADER_LEN + 8 + 7 * i;
        let cb: usize = HEADER_LEN + 8 + 7 * n + 4 * i;
        let gb: usize = HEADER_LEN + 8 + 11 * n + 64 * i;
        let mut corners: Vec<u8> = Vec::new();
        let mut j: usize = 0;
        while j < 4
            invariant
                j <= 4,
                corners@.len() == j,
                forall|k: int| 0 <= k < j ==> #[trigger] corners@[k] == data@[cb + k],
            decreases 4 - j,
        {
            corners.push(data[cb + j]);
            j = j + 1;
        }
        let mut grid: Vec<Vec<u8>> = Vec::new();
        let mut r2: usize = 0;
        while r2 < 8
            invariant
                r2 <= 8,
                grid@.len() == r2,
                forall|rr: int| 0 <= rr < r2 ==> (#[trigger] grid@[rr])@.len() == 8,
                forall|rr: int, c: int|
                    0 <= rr < r2 && 0 <= c < 8 ==> #[trigger] grid@[rr]@[c] == data@[gb + 8 * rr
                        + c],
            decreases 8 - r2,
        {
            let mut rowv: Vec<u8> = Vec::new();
            let mut c2: usize = 0;
            while c2 < 8
                invariant
                    c2 <= 8,
                    rowv@.len() == c2,
                    forall|k: int| 0 <= k < c2 ==> #[trigger] rowv@[k] == data@[gb + 8 * r2 + k],
                decreases 8 - c2,
            {
                rowv.push(data[gb + 8 * r2 + c2]);
                c2 = c2 + 1;
            }
            grid.push(rowv);
            r2 = r2 + 1;
        }
        let ib = data[fb + 6];
        let b = Block {
            blockmaxy: data[fb],
            blockminy: data[fb + 1],
            blockmaxu: data[fb + 2],
            blockminu: data[fb + 3],
            blockmaxv: data[fb + 4],
            blockminv: data[fb + 5],
            interpolatey: ib >= 4,
            interpolateu: ib % 4 >= 2,
            interpolatev: ib % 2 == 1,
            corners,
            nblock4bn: grid,
        };
        proof {
            assert(b.wf());
            assert(block_matches(b, data@, n as int, i as int));
        }
        blocks.push(b);
        i = i + 1;
    }
    let img = Img { width: w, height: h, blocks };
    proof {
        assert(img.serializable());
        assert(img_matches(img, data@));
    }
    Ok(img)
}

proof fn lemma_be16_roundtrip(w: i16)
    ensures
        i16_of_be(be16_hi(w), be16_lo(w)) == w,
{
    let u = u16_of_i16(w);
    assert(0 <= u < 65536);
    assert(u / 256 < 256 && u % 256 < 256) by (nonlinear_arith)
        requires
            0 <= u < 65536,
    ;
    lemma_fundamental_div_mod(u, 256);
    assert(be16_hi(w) * 256 + be16_lo(w) == u);
}

proof fn lemma_be32_roundtrip(n: int)
    requires
        0 <= n < 0x1_0000_0000,
    ensures
        u32_of_be(be32_byte(n, 0), be32_byte(n, 1), be32_byte(n, 2), be32_byte(n, 3)) == n,
{
    lemma_small_mod(n as nat, 0x1_0000_0000);
    lemma_mod_breakdown(n, 0x1000000, 256);
    lemma_mod_breakdown(n, 0x10000, 256);
    lemma_mod_breakdown(n, 0x100, 256);
}

/// Format-layer round trip, first half: the serialized stream of any
/// serializable image decodes successfully, and what it decodes to matches
/// the image field-for-field.
#[verifier::rlimit(100)]
pub proof fn lemma_serialize_parses(img: Img)
    requires
        img.serializable(),
    ensures
        parse_ok(spec_serialize(img)),
        img_matches(img, spec_serialize(img)),
{
    let s = spec_serialize(img);
    let bl = img.blocks@;
    let n = bl.len() as int;
    assert(s.len() == total_size(n));
    assert forall|k: int| 0 <= k < HEADER_LEN implies s[k] == header_seq()[k] by {}
    assert forall|k: int| 0 <= k < 8 implies s[HEADER_LEN + k] == dims_seq(img)[k] by {}
    assert forall|k: int| 0 <= k < 7 * n implies s[fixed_base() + k] == fixed_section(bl)[k] by {}
    assert forall|k: int| 0 <= k < 4 * n implies s[corner_base(n) + k] == corner_section(bl)[k] by {}
    assert forall|k: int| 0 <= k < 64 * n implies s[grid_base(n) + k] == grid_section(bl)[k] by {}
    assert forall|k: int| 0 <= k < FOOTER_LEN implies s[footer_base(n) + k] == footer_seq()[k] by {}
    assert(s.subrange(0, HEADER_LEN as int) =~= header_seq());
    assert(header_ok(s));
    lemma_be16_roundtrip(img.width);
    lemma_be16_roundtrip(img.height);
    assert(parse_width(s) == img.width);
    assert(parse_height(s) == img.height);
    lemma_be32_roundtrip(n);
    assert(parse_count(s) == n);
    assert(s.subrange(footer_base(n), total_size(n)) =~= footer_seq());
    assert(footer_ok(s, n));
    assert(parse_ok(s));
    assert forall|i: int| 0 <= i < n implies block_matches(#[trigger] bl[i], s, n, i) by {
        let b = bl[i];
        let fb = fixed_base() + 7 * i;
        assert((7 * i + 0) / 7 == i && (7 * i + 0) % 7 == 0 && (7 * i + 1) / 7 == i && (7 * i + 1)
            % 7 == 1 && (7 * i + 2) / 7 == i && (7 * i + 2) % 7 == 2 && (7 * i + 3) / 7 == i && (7
            * i + 3) % 7 == 3 && (7 * i + 4) / 7 == i && (7 * i + 4) % 7 == 4 && (7 * i + 5) / 7
            == i && (7 * i + 5) % 7 == 5 && (7 * i + 6) / 7 == i && (7 * i + 6) % 7 == 6)
            by (nonlinear_arith)
            requires
                0 <= i,
        ;
        assert(s[fb] == b.blockmaxy);
        assert(s[fb + 1] == b.blockminy);
        assert(s[fb + 2] == b.blockmaxu);
        assert(s[fb + 3] == b.blockminu);
        assert(s[fb + 4] == b.blockmaxv);
        assert(s[fb + 5] == b.blockminv);
        assert(s[fb + 6] == interp_byte(b));
        let yy: int = if b.interpolatey { 1 } else { 0 };
        let uu: int = if b.interpolateu { 1 } else { 0 };
        let vv: int = if b.interpolatev { 1 } else { 0 };
        assert(interp_byte(b) == 4 * yy + 2 * uu + vv);
        assert((4 * yy + 2 * uu + vv) % 4 == 2 * uu + vv && (4 * yy + 2 * uu + vv) % 2 == vv)
            by (nonlinear_arith)
            requires
                0 <= yy <= 1,
                0 <= uu <= 1,
                0 <= vv <= 1,
        ;
        assert(b.interpolatey == (s[fb + 6] >= 4));
        assert(b.interpolateu == (s[fb + 6] % 4 >= 2));
        assert(b.interpolatev == (s[fb + 6] % 2 == 1));
        assert((4 * i + 0) / 4 == i && (4 * i + 0) % 4 == 0 && (4 * i + 1) / 4 == i && (4 * i + 1)
            % 4 == 1 && (4 * i + 2) / 4 == i && (4 * i + 2) % 4 == 2 && (4 * i + 3) / 4 == i && (4
            * i + 3) % 4 == 3) by (nonlinear_arith)
            requires
                0 <= i,
        ;
        assert forall|j: int| 0 <= j < 4 implies #[trigger] b.corners@[j] == s[corner_base(n) + 4
            * i + j] by {
            assert((4 * i + j) / 4 == i && (4 * i + j) % 4 == j) by (nonlinear_arith)
                requires
                    0 <= i,
                    0 <= j < 4,
            ;
            assert(corner_section(bl)[4 * i + j] == b.corners@[j]);
        }
        assert forall|r: int, c: int| 0 <= r < 8 && 0 <= c < 8 implies #[trigger] b.nblock4bn@[r]@[c]
            == s[grid_base(n) + 64 * i + 8 * r + c] by {
            let p: int = 64 * i + 8 * r + c;
            assert(p / 64 == i && (p % 64) / 8 == r && p % 8 == c) by (nonlinear_arith)
                requires
                    p == 64 * i + 8 * r + c,
                    0 <= i,
                    0 <= r < 8,
                    0 <= c < 8,
            ;
            assert(grid_section(bl)[p] == b.nblock4bn@[r]@[c]);
        }
        assert(block_matches(b, s, n, i));
    }
}

/// Two blocks are equal field-for-field.
pub open spec fn block_equiv(a: Block, b: Block) -> bool {
    &&& a.blockmaxy == b.blockmaxy
    &&& a.blockminy == b.blockminy
    &&& a.blockmaxu == b.blockmaxu
    &&& a.blockminu == b.blockminu
    &&& a.blockmaxv == b.blockmaxv
    &&& a.blockminv == b.blockminv
    &&& a.interpolatey == b.interpolatey
    &&& a.interpolateu == b.interpolateu
    &&& a.interpolatev == b.interpolatev
    &&& a.corners@ == b.corners@
    &&& a.nblock4bn@.len() == b.nblock4bn@.len()
    &&& forall|r: int|
        0 <= r < a.nblock4bn@.len() ==> #[trigger] a.nblock4bn@[r]@ == b.nblock4bn@[r]@
}

/// Two images are equal field-for-field.
pub open spec fn img_equiv(a: Img, b: Img) -> bool {
    &&& a.width == b.width
    &&& a.height == b.height
    &&& a.blocks@.len() == b.blocks@.len()
    &&& forall|i: int|
        0 <= i < a.blocks@.len() ==> block_equiv(#[trigger] a.blocks@[i], b.blocks@[i])
}

/// Format-layer round trip, second half: a stream determines the image it
/// decodes to field-for-field, so decoding the serialized stream of an image
/// reproduces that image exactly.
pub proof fn lemma_parse_unique(a: Img, b: Img, s: Seq<u8>)
    requires
        img_matches(a, s),
        img_matches(b, s),
    ensures
        img_equiv(a, b),
{
    let n = parse_count(s);
    assert forall|i: int| 0 <= i < a.blocks@.len() implies block_equiv(
        #[trigger] a.blocks@[i],
        b.blocks@[i],
    ) by {
        let ba = a.blocks@[i];
        let bb = b.blocks@[i];
        assert(block_matches(ba, s, n, i));
        assert(block_matches(bb, s, n, i));
        assert(ba.corners@ =~= bb.corners@);
        assert forall|r: int| 0 <= r < 8 implies #[trigger] ba.nblock4bn@[r]@ == bb.nblock4bn@[r]@
            by {
            assert(ba.nblock4bn@[r]@ =~= bb.nblock4bn@[r]@);
        }
    }
}

} // verus!
