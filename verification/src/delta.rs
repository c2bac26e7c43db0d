//! Intra-block delta coding of quantized samples.
//!
//! Samples are walked in row-major order with a running predictor per
//! channel, initialized to 0 at the start of each block. Each sample is
//! encoded as its modular forward difference from the predictor (modulus 16
//! for Y, 4 for U/V); the predictor then advances to the current quantized
//! value. Decoding replays the same predictor chain.

use vstd::prelude::*;
use vstd::arithmetic::div_mod::{lemma_mod_multiples_vanish, lemma_small_mod};

use crate::sample::{
    lemma_unpack_pack, pack_sample, spec_pack, spec_unpack_u, spec_unpack_v, spec_unpack_y,
    unpack_sample, Sample,
};

verus! {

/// Modular forward difference of `now` from `prev`, modulus `m`.
pub open spec fn spec_mod_diff(prev: u8, now: u8, m: u8) -> u8
    recommends
        prev < m,
        now < m,
{
    if now >= prev {
        (now - prev) as u8
    } else {
        (m + now - prev) as u8
    }
}

/// Modular advance of `prev` by the delta `del`, modulus `m`.
pub open spec fn spec_mod_add(prev: u8, del: u8, m: u8) -> u8
    recommends
        0 < m,
{
    ((prev + del) as int % m as int) as u8
}

/// Advancing a predictor by the forward difference of `now` recovers `now`.
pub proof fn lemma_mod_diff_add(prev: u8, now: u8, m: u8)
    requires
        0 < m,
        prev < m,
        now < m,
    ensures
        spec_mod_add(prev, spec_mod_diff(prev, now, m), m) == now,
{
    let d = spec_mod_diff(prev, now, m);
    if now >= prev {
        assert((prev + d) as int == now as int);
        lemma_small_mod(now as nat, m as nat);
    } else {
        assert((prev + d) as int == m as int + now as int);
        lemma_mod_multiples_vanish(1, now as int, m as int);
        lemma_small_mod(now as nat, m as nat);
    }
}

/// The modular forward difference of one quantized sample from its
/// predecessor: `now - prev`, wrapped around the modulus when negative.
pub fn pixdelta(prev: u8, now: u8, max: u8) -> (r: u8)
    requires
        0 < max <= 128,
        prev < max,
        now < max,
    ensures
        r == spec_mod_diff(prev, now, max),
        r < max,
{
    if now >= prev {
        now - prev
    } else {
        max + now - prev
    }
}

/// Recovers a quantized sample from its predecessor and its delta:
/// `(prev + del) mod max`.
pub fn pixdelta_decode(prev: u8, del: u8, max: u8) -> (r: u8)
    requires
        0 < max <= 128,
        prev < max,
        del < max,
    ensures
        r == spec_mod_add(prev, del, max),
        r < max,
{
    (prev + del) % max
}

/// The delta coding of a sample sequence: element `i` is the forward
/// difference of `vals[i]` from its predecessor (0 before the first sample).
pub open spec fn spec_delta_encode(vals: Seq<u8>, m: u8) -> Seq<u8> {
    Seq::new(
        vals.len(),
        |i: int| spec_mod_diff(if i == 0 { 0u8 } else { vals[i - 1] }, vals[i], m),
    )
}

/// The sample recovered at position `i` of a delta sequence, replaying the
/// predictor chain from 0.
pub open spec fn spec_delta_decode_at(dels: Seq<u8>, m: u8, i: int) -> u8
    recommends
        0 <= i < dels.len(),
        0 < m,
    decreases i,
{
    let prev = if i <= 0 { 0u8 } else { spec_delta_decode_at(dels, m, i - 1) };
    spec_mod_add(prev, dels[i], m)
}

/// The decoding of a delta sequence.
pub open spec fn spec_delta_decode(dels: Seq<u8>, m: u8) -> Seq<u8> {
    Seq::new(dels.len(), |i: int| spec_delta_decode_at(dels, m, i))
}

proof fn lemma_delta_decode_at(vals: Seq<u8>, m: u8, i: int)
    requires
        0 < m,
        0 <= i < vals.len(),
        forall|j: int| 0 <= j < vals.len() ==> vals[j] < m,
    ensures
        spec_delta_decode_at(spec_delta_encode(vals, m), m, i) == vals[i],
    decreases i,
{
    let enc = spec_delta_encode(vals, m);
    if i == 0 {
        lemma_mod_diff_add(0u8, vals[0], m);
    } else {
        lemma_delta_decode_at(vals, m, i - 1);
        lemma_mod_diff_add(vals[i - 1], vals[i], m);
    }
}

/// Delta coder invertibility: decoding the delta coding of any in-range
/// sample sequence reproduces the sequence exactly, for any modulus
/// (in particular 16 for the Y channel and 4 for the U/V channels).
pub proof fn lemma_delta_roundtrip(vals: Seq<u8>, m: u8)
    requires
        0 < m,
        forall|j: int| 0 <= j < vals.len() ==> vals[j] < m,
    ensures
        spec_delta_decode(spec_delta_encode(vals, m), m) =~= vals,
{
    assert forall|i: int| 0 <= i < vals.len() implies spec_delta_decode_at(
        spec_delta_encode(vals, m),
        m,
        i,
    ) == vals[i] by {
        lemma_delta_decode_at(vals, m, i);
    }
}

/// An 8x8 grid of quantized samples, each in packed range.
pub open spec fn qgrid_wf(g: Seq<Vec<Sample>>) -> bool {
    &&& g.len() == 8
    &&& forall|r: int| 0 <= r < 8 ==> (#[trigger] g[r])@.len() == 8
    &&& forall|r: int, c: int| 0 <= r < 8 && 0 <= c < 8 ==> (#[trigger] g[r]@[c]).in_range()
}

/// An 8x8 grid of bytes.
pub open spec fn byte_grid_wf(g: Seq<Vec<u8>>) -> bool {
    &&& g.len() == 8
    &&& forall|r: int| 0 <= r < 8 ==> (#[trigger] g[r])@.len() == 8
}

/// The sample at row-major position `i` of an 8x8 grid.
pub open spec fn flat_sample(g: Seq<Vec<Sample>>, i: int) -> Sample {
    g[i / 8]@[i % 8]
}

/// The Y components of an 8x8 sample grid, flattened in row-major order.
pub open spec fn flat_y(g: Seq<Vec<Sample>>) -> Seq<u8> {
    Seq::new(64, |i: int| flat_sample(g, i).y)
}

/// The U components, flattened in row-major order.
pub open spec fn flat_u(g: Seq<Vec<Sample>>) -> Seq<u8> {
    Seq::new(64, |i: int| flat_sample(g, i).u)
}

/// The V components, flattened in row-major order.
pub open spec fn flat_v(g: Seq<Vec<Sample>>) -> Seq<u8> {
    Seq::new(64, |i: int| flat_sample(g, i).v)
}

/// The byte at row-major position `i` of an 8x8 byte grid.
pub open spec fn flat_byte(g: Seq<Vec<u8>>, i: int) -> u8 {
    g[i / 8]@[i % 8]
}

/// The packed delta byte that the encoder emits at row-major position `i`.
pub open spec fn spec_encode_byte(g: Seq<Vec<Sample>>, i: int) -> u8 {
    spec_pack(
        spec_delta_encode(flat_y(g), 16)[i],
        spec_delta_encode(flat_u(g), 4)[i],
        spec_delta_encode(flat_v(g), 4)[i],
    )
}

/// Delta-codes an 8x8 grid of quantized samples into packed delta bytes,
/// row-major, with one running predictor chain per channel.
#[verifier::loop_isolation(false)]
pub fn delta_encode_block(g: &Vec<Vec<Sample>>) -> (r: Vec<Vec<u8>>)
    requires
        qgrid_wf(g@),
    ensures
        byte_grid_wf(r@),
        forall|i: int| 0 <= i < 64 ==> #[trigger] flat_byte(r@, i) == spec_encode_byte(g@, i),
{
    let mut out: Vec<Vec<u8>> = Vec::new();
    let mut prev = Sample { y: 0, u: 0, v: 0 };
    let mut row: usize = 0;
    while row < 8
        invariant
            out@.len() == row,
            row <= 8,
            forall|rr: int| 0 <= rr < row ==> (#[trigger] out@[rr])@.len() == 8,
            forall|i: int| 0 <= i < 8 * row ==> #[trigger] flat_byte(out@, i) == spec_encode_byte(
                g@,
                i,
            ),
            prev.in_range(),
            8 * row == 0 ==> prev == (Sample { y: 0u8, u: 0u8, v: 0u8 }),
            8 * row > 0 ==> prev == flat_sample(g@, 8 * row - 1),
        decreases 8 - row,
    {
        let mut rbin: Vec<u8> = Vec::new();
        let mut col: usize = 0;
        while col < 8
            invariant
                rbin@.len() == col,
                col <= 8,
                out@.len() == row,
                row < 8,
                forall|rr: int| 0 <= rr < row ==> (#[trigger] out@[rr])@.len() == 8,
                forall|i: int| 0 <= i < 8 * row ==> #[trigger] flat_byte(out@, i)
                    == spec_encode_byte(g@, i),
                forall|c: int| 0 <= c < col ==> rbin@[c] == spec_encode_byte(g@, 8 * row + c),
                prev.in_range(),
                8 * row + col == 0 ==> prev == (Sample { y: 0u8, u: 0u8, v: 0u8 }),
                8 * row + col > 0 ==> prev == flat_sample(g@, 8 * row + col - 1),
            decreases 8 - col,
        {
            let ghost i: int = 8 * row + col;
            let cur = g[row][col];
            proof {
                assert(i / 8 == row && i % 8 == col) by (nonlinear_arith)
                    requires
                        i == 8 * row + col,
                        0 <= row < 8,
                        0 <= col < 8,
                ;
                assert(cur == flat_sample(g@, i));
                if i > 0 {
                    assert((i - 1) / 8 == if col == 0 { row - 1 } else { row as int }
                        && (i - 1) % 8 == if col == 0 { 7int } else { col - 1 })
                        by (nonlinear_arith)
                        requires
                            i == 8 * row + col,
                            0 <= row < 8,
                            0 <= col < 8,
                            i > 0,
                    ;
                }
            }
            let d = Sample {
                y: pixdelta(prev.y, cur.y, 16),
                u: pixdelta(prev.u, cur.u, 4),
                v: pixdelta(prev.v, cur.v, 4),
            };
            let b = pack_sample(&d);
            proof {
                assert(flat_y(g@)[i] == cur.y && flat_u(g@)[i] == cur.u && flat_v(g@)[i] == cur.v);
                if i > 0 {
                    assert(flat_y(g@)[i - 1] == prev.y && flat_u(g@)[i - 1] == prev.u && flat_v(
                        g@,
                    )[i - 1] == prev.v);
                }
                assert(b == spec_encode_byte(g@, i));
            }
            rbin.push(b);
            prev = cur;
            col = col + 1;
        }
        let ghost out0 = out@;
        let ghost rbin0 = rbin@;
        out.push(rbin);
        proof {
            assert forall|i: int| 0 <= i < 8 * (row + 1) implies #[trigger] flat_byte(out@, i)
                == spec_encode_byte(g@, i) by {
                assert(0 <= i / 8 < row + 1 && 0 <= i % 8 < 8 && 8 * (i / 8) + i % 8 == i)
                    by (nonlinear_arith)
                    requires
                        0 <= i < 8 * (row + 1),
                ;
                if i / 8 < row {
                    assert(i < 8 * row) by (nonlinear_arith)
                        requires
                            i / 8 < row,
                            i % 8 < 8,
                            8 * (i / 8) + i % 8 == i,
                    ;
                    assert(out@[i / 8] == out0[i / 8]);
                    assert(flat_byte(out0, i) == spec_encode_byte(g@, i));
                } else {
                    assert(out@[i / 8]@ == rbin0);
                    assert(i % 8 == i - 8 * row) by (nonlinear_arith)
                        requires
                            i / 8 == row,
                            8 * (i / 8) + i % 8 == i,
                    ;
                    assert(rbin0[i % 8] == spec_encode_byte(g@, 8 * row + (i % 8)));
                }
            }
        }
        row = row + 1;
    }
    out
}

/// The Y-channel deltas carried by a packed byte grid.
pub open spec fn deltas_y(g: Seq<Vec<u8>>) -> Seq<u8> {
    Seq::new(64, |i: int| spec_unpack_y(flat_byte(g, i)))
}

/// The U-channel deltas carried by a packed byte grid.
pub open spec fn deltas_u(g: Seq<Vec<u8>>) -> Seq<u8> {
    Seq::new(64, |i: int| spec_unpack_u(flat_byte(g, i)))
}

/// The V-channel deltas carried by a packed byte grid.
pub open spec fn deltas_v(g: Seq<Vec<u8>>) -> Seq<u8> {
    Seq::new(64, |i: int| spec_unpack_v(flat_byte(g, i)))
}

/// Undoes the delta coding of an 8x8 packed byte grid, recovering the
/// quantized samples; every recovered sample is in packed range, whatever
/// bytes the grid holds.
#[verifier::loop_isolation(false)]
pub fn delta_decode_block(g: &Vec<Vec<u8>>) -> (r: Vec<Vec<Sample>>)
    requires
        byte_grid_wf(g@),
    ensures
        qgrid_wf(r@),
        forall|i: int| 0 <= i < 64 ==> #[trigger] flat_sample(r@, i) == (Sample {
            y: spec_delta_decode(deltas_y(g@), 16)[i],
            u: spec_delta_decode(deltas_u(g@), 4)[i],
            v: spec_delta_decode(deltas_v(g@), 4)[i],
        }),
{
    let mut out: Vec<Vec<Sample>> = Vec::new();
    let mut prev = Sample { y: 0, u: 0, v: 0 };
    let mut row: usize = 0;
    while row < 8
        invariant
            out@.len() == row,
            row <= 8,
            forall|rr: int| 0 <= rr < row ==> (#[trigger] out@[rr])@.len() == 8,
            forall|rr: int, c: int| 0 <= rr < row && 0 <= c < 8 ==> (
            #[trigger] out@[rr]@[c]).in_range(),
            forall|i: int| 0 <= i < 8 * row ==> #[trigger] flat_sample(out@, i) == (Sample {
                y: spec_delta_decode_at(deltas_y(g@), 16, i),
                u: spec_delta_decode_at(deltas_u(g@), 4, i),
                v: spec_delta_decode_at(deltas_v(g@), 4, i),
            }),
            prev.in_range(),
            8 * row == 0 ==> prev == (Sample { y: 0u8, u: 0u8, v: 0u8 }),
            8 * row > 0 ==> prev == (Sample {
                y: spec_delta_decode_at(deltas_y(g@), 16, 8 * row - 1),
                u: spec_delta_decode_at(deltas_u(g@), 4, 8 * row - 1),
                v: spec_delta_decode_at(deltas_v(g@), 4, 8 * row - 1),
            }),
        decreases 8 - row,
    {
        let mut rdec: Vec<Sample> = Vec::new();
        let mut col: usize = 0;
        while col < 8
            invariant
                rdec@.len() == col,
                col <= 8,
                out@.len() == row,
                row < 8,
                forall|rr: int| 0 <= rr < row ==> (#[trigger] out@[rr])@.len() == 8,
                forall|rr: int, c: int| 0 <= rr < row && 0 <= c < 8 ==> (
                #[trigger] out@[rr]@[c]).in_range(),
                forall|i: int| 0 <= i < 8 * row ==> #[trigger] flat_sample(out@, i) == (Sample {
                    y: spec_delta_decode_at(deltas_y(g@), 16, i),
                    u: spec_delta_decode_at(deltas_u(g@), 4, i),
                    v: spec_delta_decode_at(deltas_v(g@), 4, i),
                }),
                forall|c: int| 0 <= c < col ==> #[trigger] rdec@[c] == (Sample {
                    y: spec_delta_decode_at(deltas_y(g@), 16, 8 * row + c),
                    u: spec_delta_decode_at(deltas_u(g@), 4, 8 * row + c),
                    v: spec_delta_decode_at(deltas_v(g@), 4, 8 * row + c),
                }),
                forall|c: int| 0 <= c < col ==> (#[trigger] rdec@[c]).in_range(),
                prev.in_range(),
                8 * row + col == 0 ==> prev == (Sample { y: 0u8, u: 0u8, v: 0u8 }),
                8 * row + col > 0 ==> prev == (Sample {
                    y: spec_delta_decode_at(deltas_y(g@), 16, 8 * row + col - 1),
                    u: spec_delta_decode_at(deltas_u(g@), 4, 8 * row + col - 1),
                    v: spec_delta_decode_at(deltas_v(g@), 4, 8 * row + col - 1),
                }),
            decreases 8 - col,
        {
            let ghost i: int = 8 * row + col;
            let b = g[row][col];
            proof {
                assert(i / 8 == row && i % 8 == col) by (nonlinear_arith)
                    requires
                        i == 8 * row + col,
                        0 <= row < 8,
                        0 <= col < 8,
                ;
                assert(b == flat_byte(g@, i));
            }
            let d = unpack_sample(b);
            let val = Sample {
                y: pixdelta_decode(prev.y, d.y, 16),
                u: pixdelta_decode(prev.u, d.u, 4),
                v: pixdelta_decode(prev.v, d.v, 4),
            };
            proof {
                assert(deltas_y(g@)[i] == d.y && deltas_u(g@)[i] == d.u && deltas_v(g@)[i] == d.v);
                assert(val.y == spec_delta_decode_at(deltas_y(g@), 16, i));
                assert(val.u == spec_delta_decode_at(deltas_u(g@), 4, i));
                assert(val.v == spec_delta_decode_at(deltas_v(g@), 4, i));
            }
            rdec.push(val);
            prev = val;
            col = col + 1;
        }
        let ghost out0 = out@;
        let ghost rdec0 = rdec@;
        out.push(rdec);
        proof {
            assert forall|i: int| 0 <= i < 8 * (row + 1) implies #[trigger] flat_sample(out@, i)
                == (Sample {
                y: spec_delta_decode_at(deltas_y(g@), 16, i),
                u: spec_delta_decode_at(deltas_u(g@), 4, i),
                v: spec_delta_decode_at(deltas_v(g@), 4, i),
            }) by {
                assert(0 <= i / 8 < row + 1 && 0 <= i % 8 < 8 && 8 * (i / 8) + i % 8 == i)
                    by (nonlinear_arith)
                    requires
                        0 <= i < 8 * (row + 1),
                ;
                if i / 8 < row {
                    assert(i < 8 * row) by (nonlinear_arith)
                        requires
                            i / 8 < row,
                            i % 8 < 8,
                            8 * (i / 8) + i % 8 == i,
                    ;
                    assert(out@[i / 8] == out0[i / 8]);
                    assert(flat_sample(out0, i) == (Sample {
                        y: spec_delta_decode_at(deltas_y(g@), 16, i),
                        u: spec_delta_decode_at(deltas_u(g@), 4, i),
                        v: spec_delta_decode_at(deltas_v(g@), 4, i),
                    }));
                } else {
                    assert(out@[i / 8]@ == rdec0);
                    assert(i % 8 == i - 8 * row) by (nonlinear_arith)
                        requires
                            i / 8 == row,
                            8 * (i / 8) + i % 8 == i,
                    ;
                    assert(rdec0[i % 8] == (Sample {
                        y: spec_delta_decode_at(deltas_y(g@), 16, 8 * row + (i % 8)),
                        u: spec_delta_decode_at(deltas_u(g@), 4, 8 * row + (i % 8)),
                        v: spec_delta_decode_at(deltas_v(g@), 4, 8 * row + (i % 8)),
                    }));
                }
            }
        }
        row = row + 1;
    }
    out
}

/// Round trip at the block level: the deltas that `delta_encode_block` packs
/// into its bytes decode, channel by channel, back to the original grid.
pub proof fn lemma_block_delta_roundtrip(g: Seq<Vec<Sample>>)
    requires
        qgrid_wf(g),
    ensures
        spec_delta_decode(Seq::new(64, |i: int| spec_unpack_y(spec_encode_byte(g, i))), 16) =~= flat_y(
            g,
        ),
        spec_delta_decode(Seq::new(64, |i: int| spec_unpack_u(spec_encode_byte(g, i))), 4) =~= flat_u(
            g,
        ),
        spec_delta_decode(Seq::new(64, |i: int| spec_unpack_v(spec_encode_byte(g, i))), 4) =~= flat_v(
            g,
        ),
{
    assert forall|i: int| 0 <= i < 64 implies #[trigger] flat_sample(g, i).in_range() by {
        assert(0 <= i / 8 < 8 && 0 <= i % 8 < 8) by (nonlinear_arith)
            requires
                0 <= i < 64,
        ;
    }
    assert forall|i: int| 0 <= i < 64 implies spec_unpack_y(#[trigger] spec_encode_byte(g, i))
        == spec_delta_encode(flat_y(g), 16)[i] && spec_unpack_u(spec_encode_byte(g, i))
        == spec_delta_encode(flat_u(g), 4)[i] && spec_unpack_v(spec_encode_byte(g, i))
        == spec_delta_encode(flat_v(g), 4)[i] by {
        lemma_unpack_pack(
            spec_delta_encode(flat_y(g), 16)[i],
            spec_delta_encode(flat_u(g), 4)[i],
            spec_delta_encode(flat_v(g), 4)[i],
        );
    }
    assert(Seq::new(64, |i: int| spec_unpack_y(spec_encode_byte(g, i))) =~= spec_delta_encode(
        flat_y(g),
        16,
    ));
    assert(Seq::new(64, |i: int| spec_unpack_u(spec_encode_byte(g, i))) =~= spec_delta_encode(
        flat_u(g),
        4,
    ));
    assert(Seq::new(64, |i: int| spec_unpack_v(spec_encode_byte(g, i))) =~= spec_delta_encode(
        flat_v(g),
        4,
    ));
    lemma_delta_roundtrip(flat_y(g), 16);
    lemma_delta_roundtrip(flat_u(g), 4);
    lemma_delta_roundtrip(flat_v(g), 4);
}

} // verus!
