use vstd::prelude::*;
use crate::errors::ItemError;

verus! {

/// Side length of the square output canvas, in pixels.
pub const CANVAS_SIDE: u32 = 256;

/// Fixed inset between the canvas edge and the render region, in pixels.
pub const MARGIN: u32 = 32;

/// Canvas and render-region dimensions derived from the fixed constants: the
/// square canvas, the square render region inset by the margin on every side,
/// and the offset of the region within the canvas.
#[derive(Debug, Clone, Copy, PartialEq, Eq, Structural)]
pub struct Geometry {
    pub canvas_side: u32,
    pub render_side: u32,
    pub offset: u32,
}

/// The constants admit a positive render region: twice the margin leaves room
/// on the canvas.
pub open spec fn geometry_realizable(canvas_side: u32, margin: u32) -> bool {
    2 * (margin as int) < canvas_side as int
}

/// The geometry derived from realizable constants: the render region side is
/// the canvas side less twice the margin, and the region sits at
/// (margin, margin).
pub open spec fn spec_geometry(canvas_side: u32, margin: u32) -> Geometry {
    Geometry {
        canvas_side,
        render_side: (canvas_side as int - 2 * (margin as int)) as u32,
        offset: margin,
    }
}

/// Geometry Calculator: derives the canvas and render dimensions from the
/// constants, rejecting any margin so large that the render region would be
/// empty or negative.
pub fn compute_geometry(canvas_side: u32, margin: u32) -> (r: Result<Geometry, ItemError>)
    ensures
        geometry_realizable(canvas_side, margin)
            ==> r == Ok::<Geometry, ItemError>(spec_geometry(canvas_side, margin)),
        !geometry_realizable(canvas_side, margin)
            ==> r == Err::<Geometry, ItemError>(ItemError::Geometry),
        geometry_realizable(canvas_side, margin)
            ==> spec_geometry(canvas_side, margin).render_side > 0,
{
    if (margin as u64) * 2 < canvas_side as u64 {
        Ok(Geometry {
            canvas_side,
            render_side: canvas_side - margin - margin,
            offset: margin,
        })
    } else {
        Err(ItemError::Geometry)
    }
}

/// Law: the geometry is a pure function of the constants. Any two results that
/// satisfy the contract of `compute_geometry` for the same constants are
/// identical, so invoking the calculator twice yields identical canvas and
/// render sizes.
pub proof fn lemma_geometry_idempotent(
    r1: Result<Geometry, ItemError>,
    r2: Result<Geometry, ItemError>,
    canvas_side: u32,
    margin: u32,
)
    requires
        geometry_realizable(canvas_side, margin)
            ==> r1 == Ok::<Geometry, ItemError>(spec_geometry(canvas_side, margin))
                && r2 == Ok::<Geometry, ItemError>(spec_geometry(canvas_side, margin)),
        !geometry_realizable(canvas_side, margin)
            ==> r1 == Err::<Geometry, ItemError>(ItemError::Geometry)
                && r2 == Err::<Geometry, ItemError>(ItemError::Geometry),
    ensures
        r1 == r2,
{
}

/// Law: with the fixed constants the render region is exactly 192 pixels a
/// side at offset (32, 32) on a 256-pixel canvas, and any margin of 128 or
/// more on this canvas is rejected rather than producing a non-positive
/// region.
pub proof fn lemma_fixed_constants_geometry(margin: u32)
    ensures
        spec_geometry(CANVAS_SIDE, MARGIN) == (Geometry {
            canvas_side: 256u32,
            render_side: 192u32,
            offset: 32u32,
        }),
        geometry_realizable(CANVAS_SIDE, MARGIN),
        margin >= 128 ==> !geometry_realizable(CANVAS_SIDE, margin),
{
}

} // verus!
