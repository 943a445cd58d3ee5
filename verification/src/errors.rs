use vstd::prelude::*;

verus! {

/// Why processing one input item failed. Failures are reported per item by the
/// batch driver; none of them aborts the whole batch.
#[derive(Debug)]
pub enum ItemError {
    /// The fixed canvas/margin constants do not admit a positive render region.
    Geometry,
    /// The input bytes are not a valid vector document; holds the parser's message.
    Parse(String),
    /// A pixel buffer for the scene could not be allocated.
    Render,
    /// Placing the rasterized layer would exceed the canvas bounds.
    Composite,
    /// The canvas could not be encoded into the output raster format.
    Encode,
    /// No output file name can be derived from the input name.
    Name,
}

impl ItemError {
    /// A short fixed description of the failure class, for diagnostics.
    pub fn describe(&self) -> &'static str {
        match self {
            ItemError::Geometry => "render geometry is not realizable",
            ItemError::Parse(_) => "input is not a valid vector document",
            ItemError::Render => "could not allocate a pixel buffer for the scene",
            ItemError::Composite => "rasterized layer does not fit the canvas",
            ItemError::Encode => "could not encode the output image",
            ItemError::Name => "no output name can be derived from the input name",
        }
    }
}

} // verus!
