//! Packed YUV samples.
//!
//! A quantized sample holds a Y component in [0,15] and U/V components in
//! [0,3]; the three components are packed into a single byte as
//! `(y*4 + u)*4 + v`, i.e. `y*16 + u*4 + v`.

use vstd::prelude::*;

verus! {

/// One quantized YUV sample (or one triple of channel deltas).
#[derive(Clone, Copy, Debug, PartialEq, Eq, Structural)]
pub struct Sample {
    pub y: u8,
    pub u: u8,
    pub v: u8,
}

impl Sample {
    /// The components fit their packed bit widths: Y in 4 bits, U and V in 2.
    pub open spec fn in_range(self) -> bool {
        self.y < 16 && self.u < 4 && self.v < 4
    }
}

/// The packed byte for components `(y, u, v)`.
pub open spec fn spec_pack(y: u8, u: u8, v: u8) -> u8
    recommends
        y < 16,
        u < 4,
        v < 4,
{
    (y * 16 + u * 4 + v) as u8
}

/// The Y component of a packed byte.
pub open spec fn spec_unpack_y(b: u8) -> u8 {
    b / 16
}

/// The U component of a packed byte.
pub open spec fn spec_unpack_u(b: u8) -> u8 {
    (b % 16) / 4
}

/// The V component of a packed byte.
pub open spec fn spec_unpack_v(b: u8) -> u8 {
    b % 4
}

/// Packing is left inverse to unpacking: any byte re-packs to itself.
pub proof fn lemma_pack_unpack(b: u8)
    ensures
        spec_unpack_y(b) < 16,
        spec_unpack_u(b) < 4,
        spec_unpack_v(b) < 4,
        spec_pack(spec_unpack_y(b), spec_unpack_u(b), spec_unpack_v(b)) == b,
{
    assert((b / 16) * 16 + ((b % 16) / 4) * 4 + b % 4 == b) by (bit_vector);
    assert(b / 16 < 16 && (b % 16) / 4 < 4 && b % 4 < 4) by (bit_vector);
}

/// Unpacking is left inverse to packing on in-range components.
pub proof fn lemma_unpack_pack(y: u8, u: u8, v: u8)
    requires
        y < 16,
        u < 4,
        v < 4,
    ensures
        spec_unpack_y(spec_pack(y, u, v)) == y,
        spec_unpack_u(spec_pack(y, u, v)) == u,
        spec_unpack_v(spec_pack(y, u, v)) == v,
{
    let b = spec_pack(y, u, v);
    assert(y < 16 && u < 4 && v < 4 ==> {
        let p = (y * 16 + u * 4 + v) as u8;
        p / 16 == y && (p % 16) / 4 == u && p % 4 == v
    }) by (bit_vector);
}

/// Packs an in-range sample into one byte as `(y*4 + u)*4 + v`.
pub fn pack_sample(s: &Sample) -> (r: u8)
    requires
        s.in_range(),
    ensures
        r == spec_pack(s.y, s.u, s.v),
{
    (s.y * 4 + s.u) * 4 + s.v
}

/// Splits a packed byte into its three components; the result is always
/// in range, whatever the byte holds.
pub fn unpack_sample(b: u8) -> (s: Sample)
    ensures
        s.y == spec_unpack_y(b),
        s.u == spec_unpack_u(b),
        s.v == spec_unpack_v(b),
        s.in_range(),
{
    proof {
        lemma_pack_unpack(b);
    }
    Sample { y: b / 16, u: (b % 16) / 4, v: b % 4 }
}

} // verus!
