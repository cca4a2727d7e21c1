//! Base building blocks for implementations of a GPU rendering interface:
//! resource handles, draw-order classification of shapes, depth ordering of
//! shapes by distance to a viewpoint, the layout of the perspective
//! projection matrix, and axis-aligned bounding boxes of vertex data.
//!
//! Scalar quantities that a renderer computes with floating-point arithmetic
//! (distances, matrix entries, coordinates) enter this crate as plain
//! integers: order-preserving encodings chosen by the caller, such as the bit
//! pattern of a non-negative IEEE-754 value. Everything this crate states
//! about ordering, selection and placement of those scalars is proved.

mod bounds;
mod depth;
mod projection;
mod shapes;

pub use bounds::BBox;
pub use bounds::Coord3;
pub use bounds::bounding_box;
pub use bounds::box_covers;
pub use bounds::box_tight;
pub use bounds::is_bounding_box;
pub use bounds::lemma_bounding_box_translation;
pub use depth::dist_le;
pub use depth::indices_in_range;
pub use depth::insert_ordered;
pub use depth::lemma_sort_indices_all_equal;
pub use depth::lemma_sort_indices_already_sorted;
pub use depth::lemma_sort_indices_ensures;
pub use depth::sort_indices;
pub use depth::sorted_for;
pub use depth::zsort;
pub use projection::ONE_BITS;
pub use projection::projection;
pub use projection::spec_projection;
pub use shapes::Gradient;
pub use shapes::Model;
pub use shapes::Shape;
pub use shapes::ShapeHandle;
pub use shapes::TexCoords;
pub use shapes::Texture;
pub use shapes::classify_shape;
pub use shapes::get_shape;
pub use shapes::new_shape;
pub use shapes::spec_classify;
