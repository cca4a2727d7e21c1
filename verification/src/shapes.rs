//! Handles that name resources owned by a rendering backend, and the
//! classification of shapes into draw-order buckets.
//!
//! A handle is an opaque, copyable value wrapping a non-negative integer
//! index into backend-owned storage. A handle is only meaningful to the
//! backend instance that issued it; this crate never interprets the index.

use vstd::prelude::*;

verus! {

/// The draw-order bucket of a shape, together with its backend-local index.
///
/// `Alpha` shapes need back-to-front depth ordering for correct blending,
/// `Opaque` shapes may be drawn in any order (typically front-to-back for
/// early depth rejection), and `Gui` shapes are screen-space overlays drawn
/// last, in insertion order. An `Alpha(3)` and an `Opaque(3)` refer to
/// different backend resources: the index is local to the bucket.
#[derive(Clone, Copy, Debug, PartialEq, Eq, Structural)]
pub enum ShapeHandle {
    /// Blended geometry; must be depth sorted back to front.
    Alpha(u32),
    /// Solid geometry; order free.
    Opaque(u32),
    /// Screen-space overlay; drawn last, unsorted.
    Gui(u32),
}

/// A renderable object that exists on a backend display.
///
/// A `Shape` wraps exactly one [`ShapeHandle`]; its identity never changes
/// after construction.
pub struct Shape(ShapeHandle);

impl Shape {
    /// The handle this shape was constructed from.
    pub closed spec fn handle(self) -> ShapeHandle {
        self.0
    }
}

/// A list of vertices that make a shape.
#[derive(Copy, Clone)]
pub struct Model(pub usize);

/// A list of colors to be paired with vertices.
#[derive(Copy, Clone)]
pub struct Gradient(pub usize);

/// A list of texture coordinates to be paired with vertices.
#[derive(Copy, Clone)]
pub struct TexCoords(pub usize);

/// A texture.
pub struct Texture(pub usize);

/// Create a new shape from its handle.
pub fn new_shape(i: ShapeHandle) -> (s: Shape)
    ensures
        s.handle() == i,
{
    Shape(i)
}

/// Get the handle of a shape.
pub fn get_shape(s: &Shape) -> (h: ShapeHandle)
    ensures
        h == s.handle(),
{
    s.0
}

/// The classification policy of this crate: a shape that ignores the camera
/// is a screen-space `Gui` overlay; otherwise the presence of blending
/// selects `Alpha`, and its absence `Opaque`.
pub open spec fn spec_classify(index: u32, blending: bool, camera: bool) -> ShapeHandle {
    if !camera {
        ShapeHandle::Gui(index)
    } else if blending {
        ShapeHandle::Alpha(index)
    } else {
        ShapeHandle::Opaque(index)
    }
}

/// Classify a new shape into its draw-order bucket.
///
/// The result is a pure function of the arguments, so repeated calls with
/// identical arguments always produce the same classification.
pub fn classify_shape(index: u32, blending: bool, camera: bool) -> (h: ShapeHandle)
    ensures
        h == spec_classify(index, blending, camera),
{
    if !camera {
        ShapeHandle::Gui(index)
    } else if blending {
        ShapeHandle::Alpha(index)
    } else {
        ShapeHandle::Opaque(index)
    }
}

} // verus!
