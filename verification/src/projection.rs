//! The layout of the simplified perspective projection matrix.
//!
//! The matrix built here has the fixed row-major form
//! `[scale, 0, 0, 0,  0, yscale, 0, 0,  0, 0, 1, 1,  0, 0, 0, 1]`:
//! it does not remap depth between near and far clipping planes, and
//! consumers rely on exactly this form. The two free entries are scalars the
//! caller computes from the vertical field of view `fov` (in degrees,
//! strictly between 0 and 180) and the aspect ratio `ratio` (width over
//! height): `scale = 1 / tan(fov / 2)` and `yscale = scale * ratio`. They
//! enter this module as the bit patterns of the caller's IEEE-754 values;
//! the fixed entries are the bit patterns of zero and one.

use vstd::prelude::*;

verus! {

/// The IEEE-754 bit pattern of the 32-bit value one, the entry on the lower
/// diagonal of the projection matrix.
pub const ONE_BITS: u32 = 0x3F80_0000;

/// The row-major entries of the projection matrix for the given `scale` and
/// `yscale` entries: `scale` first, `yscale` at position 5, one at positions
/// 10, 11 and 15, zero everywhere else.
pub open spec fn spec_projection(scale: u32, yscale: u32) -> Seq<u32> {
    seq![
        scale,
        0u32,
        0u32,
        0u32,
        0u32,
        yscale,
        0u32,
        0u32,
        0u32,
        0u32,
        ONE_BITS,
        ONE_BITS,
        0u32,
        0u32,
        0u32,
        ONE_BITS,
    ]
}

/// Generate a projection matrix, as the row-major bit patterns of its
/// sixteen entries, from the two entries that depend on the field of view
/// and the aspect ratio.
pub fn projection(scale: u32, yscale: u32) -> (m: [u32; 16])
    ensures
        m@ == spec_projection(scale, yscale),
{
    let m: [u32; 16] = [
        scale,
        0,
        0,
        0,
        0,
        yscale,
        0,
        0,
        0,
        0,
        ONE_BITS,
        ONE_BITS,
        0,
        0,
        0,
        ONE_BITS,
    ];
    proof {
        assert(m@ =~= spec_projection(scale, yscale));
    }
    m
}

} // verus!
