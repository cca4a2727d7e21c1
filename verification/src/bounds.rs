//! Axis-aligned bounding boxes of vertex positions.
//!
//! A vertex position enters this module as three `i64` coordinates, each an
//! order-preserving integer encoding of the caller's coordinate scalar (for
//! IEEE-754 values, the bit pattern with the sign folded so that integer
//! order agrees with numeric order). Applying a transform to the raw vertex
//! buffer, and the grouping of that buffer into homogeneous 4-tuples, are
//! the caller's concern; this module selects the per-axis extremes, with
//! every axis tested independently at every vertex.

use vstd::prelude::*;

verus! {

/// A position: one coordinate per axis.
#[derive(Clone, Copy, Debug, PartialEq, Eq, Structural)]
pub struct Coord3 {
    pub x: i64,
    pub y: i64,
    pub z: i64,
}

/// An axis-aligned bounding box, held by its minimum and maximum corner.
#[derive(Clone, Copy, Debug, PartialEq, Eq, Structural)]
pub struct BBox {
    pub min: Coord3,
    pub max: Coord3,
}

/// Every position of `vs` lies inside `b`, on every axis.
pub open spec fn box_covers(b: BBox, vs: Seq<Coord3>) -> bool {
    forall|k: int| #![trigger vs[k]]
        0 <= k < vs.len() ==> b.min.x <= vs[k].x <= b.max.x && b.min.y <= vs[k].y <= b.max.y
            && b.min.z <= vs[k].z <= b.max.z
}

/// Each of the six faces of `b` touches some position of `vs`.
pub open spec fn box_tight(b: BBox, vs: Seq<Coord3>) -> bool {
    &&& exists|k: int| 0 <= k < vs.len() && (#[trigger] vs[k]).x == b.min.x
    &&& exists|k: int| 0 <= k < vs.len() && (#[trigger] vs[k]).x == b.max.x
    &&& exists|k: int| 0 <= k < vs.len() && (#[trigger] vs[k]).y == b.min.y
    &&& exists|k: int| 0 <= k < vs.len() && (#[trigger] vs[k]).y == b.max.y
    &&& exists|k: int| 0 <= k < vs.len() && (#[trigger] vs[k]).z == b.min.z
    &&& exists|k: int| 0 <= k < vs.len() && (#[trigger] vs[k]).z == b.max.z
}

/// `b` is the axis-aligned bounding box of `vs`: it covers every position,
/// and each of its six faces touches one.
pub open spec fn is_bounding_box(b: BBox, vs: Seq<Coord3>) -> bool {
    box_covers(b, vs) && box_tight(b, vs)
}

/// Compute the axis-aligned bounding box of a non-empty run of positions.
///
/// Per axis, the minimum corner carries the least coordinate that occurs and
/// the maximum corner the greatest.
pub fn bounding_box(vertices: &Vec<Coord3>) -> (b: BBox)
    requires
        vertices@.len() > 0,
    ensures
        is_bounding_box(b, vertices@),
{
    let first = vertices[0];
    let mut b = BBox { min: first, max: first };
    proof {
        assert(vertices@.take(1)[0] == vertices@[0]);
    }
    let mut k: usize = 1;
    while k < vertices.len()
        invariant
            1 <= k <= vertices@.len(),
            is_bounding_box(b, vertices@.take(k as int)),
        decreases vertices@.len() - k,
    {
        let v = vertices[k];
        let ghost prev_b = b;
        let ghost prev = vertices@.take(k as int);
        if v.x < b.min.x {
            b.min.x = v.x;
        }
        if v.x > b.max.x {
            b.max.x = v.x;
        }
        if v.y < b.min.y {
            b.min.y = v.y;
        }
        if v.y > b.max.y {
            b.max.y = v.y;
        }
        if v.z < b.min.z {
            b.min.z = v.z;
        }
        if v.z > b.max.z {
            b.max.z = v.z;
        }
        proof {
            let pk = k as int;
            let cur = vertices@.take(pk + 1);
            assert(cur =~= prev.push(vertices@[pk]));
            assert(cur[pk] == v);
            assert forall|j: int| 0 <= j < prev.len() implies cur[j] == prev[j] by {}
            // The minimum face on each axis: either the new vertex moved it,
            // or the witness from the shorter prefix still holds.
            if v.x < prev_b.min.x {
                assert(cur[pk].x == b.min.x);
            } else {
                let w = choose|w: int| 0 <= w < prev.len() && prev[w].x == prev_b.min.x;
                assert(cur[w].x == b.min.x);
            }
            if v.x > prev_b.max.x {
                assert(cur[pk].x == b.max.x);
            } else {
                let w = choose|w: int| 0 <= w < prev.len() && prev[w].x == prev_b.max.x;
                assert(cur[w].x == b.max.x);
            }
            if v.y < prev_b.min.y {
                assert(cur[pk].y == b.min.y);
            } else {
                let w = choose|w: int| 0 <= w < prev.len() && prev[w].y == prev_b.min.y;
                assert(cur[w].y == b.min.y);
            }
            if v.y > prev_b.max.y {
                assert(cur[pk].y == b.max.y);
            } else {
                let w = choose|w: int| 0 <= w < prev.len() && prev[w].y == prev_b.max.y;
                assert(cur[w].y == b.max.y);
            }
            if v.z < prev_b.min.z {
                assert(cur[pk].z == b.min.z);
            } else {
                let w = choose|w: int| 0 <= w < prev.len() && prev[w].z == prev_b.min.z;
                assert(cur[w].z == b.min.z);
            }
            if v.z > prev_b.max.z {
                assert(cur[pk].z == b.max.z);
            } else {
                let w = choose|w: int| 0 <= w < prev.len() && prev[w].z == prev_b.max.z;
                assert(cur[w].z == b.max.z);
            }
        }
        k += 1;
    }
    proof {
        assert(vertices@.take(vertices@.len() as int) =~= vertices@);
    }
    b
}

/// The translation law of the bounding box: shifting every position by the
/// same per-axis offsets shifts both corners of its bounding box by exactly
/// those offsets.
pub proof fn lemma_bounding_box_translation(
    vs: Seq<Coord3>,
    ws: Seq<Coord3>,
    b: BBox,
    c: BBox,
    dx: int,
    dy: int,
    dz: int,
)
    requires
        vs.len() > 0,
        ws.len() == vs.len(),
        forall|k: int| #![trigger ws[k]] #![trigger vs[k]]
            0 <= k < vs.len() ==> ws[k].x == vs[k].x + dx && ws[k].y == vs[k].y + dy && ws[k].z
                == vs[k].z + dz,
        is_bounding_box(b, vs),
        is_bounding_box(c, ws),
    ensures
        c.min.x == b.min.x + dx,
        c.min.y == b.min.y + dy,
        c.min.z == b.min.z + dz,
        c.max.x == b.max.x + dx,
        c.max.y == b.max.y + dy,
        c.max.z == b.max.z + dz,
{
    assert(c.min.x == b.min.x + dx) by {
        let k = choose|k: int| 0 <= k < ws.len() && (#[trigger] ws[k]).x == c.min.x;
        let j = choose|j: int| 0 <= j < vs.len() && (#[trigger] vs[j]).x == b.min.x;
        assert(c.min.x == vs[k].x + dx >= b.min.x + dx);
        assert(c.min.x <= ws[j].x == b.min.x + dx);
    }
    assert(c.max.x == b.max.x + dx) by {
        let k = choose|k: int| 0 <= k < ws.len() && (#[trigger] ws[k]).x == c.max.x;
        let j = choose|j: int| 0 <= j < vs.len() && (#[trigger] vs[j]).x == b.max.x;
        assert(c.max.x == vs[k].x + dx <= b.max.x + dx);
        assert(c.max.x >= ws[j].x == b.max.x + dx);
    }
    assert(c.min.y == b.min.y + dy) by {
        let k = choose|k: int| 0 <= k < ws.len() && (#[trigger] ws[k]).y == c.min.y;
        let j = choose|j: int| 0 <= j < vs.len() && (#[trigger] vs[j]).y == b.min.y;
        assert(c.min.y == vs[k].y + dy >= b.min.y + dy);
        assert(c.min.y <= ws[j].y == b.min.y + dy);
    }
    assert(c.max.y == b.max.y + dy) by {
        let k = choose|k: int| 0 <= k < ws.len() && (#[trigger] ws[k]).y == c.max.y;
        let j = choose|j: int| 0 <= j < vs.len() && (#[trigger] vs[j]).y == b.max.y;
        assert(c.max.y == vs[k].y + dy <= b.max.y + dy);
        assert(c.max.y >= ws[j].y == b.max.y + dy);
    }
    assert(c.min.z == b.min.z + dz) by {
        let k = choose|k: int| 0 <= k < ws.len() && (#[trigger] ws[k]).z == c.min.z;
        let j = choose|j: int| 0 <= j < vs.len() && (#[trigger] vs[j]).z == b.min.z;
        assert(c.min.z == vs[k].z + dz >= b.min.z + dz);
        assert(c.min.z <= ws[j].z == b.min.z + dz);
    }
    assert(c.max.z == b.max.z + dz) by {
        let k = choose|k: int| 0 <= k < ws.len() && (#[trigger] ws[k]).z == c.max.z;
        let j = choose|j: int| 0 <= j < vs.len() && (#[trigger] vs[j]).z == b.max.z;
        assert(c.max.z == vs[k].z + dz <= b.max.z + dz);
        assert(c.max.z >= ws[j].z == b.max.z + dz);
    }
}

} // verus!
