use vstd::prelude::*;
use std::sync::Arc;
use crate::pixel::Rgba;
use crate::raster::Raster;

verus! {

/// A parsed vector scene of the usvg crate, opaque to verification; it is
/// produced by `parse_scene` and consumed by `rasterize_scene`.
#[verifier::external_type_specification]
#[verifier::external_body]
pub struct ExTree(resvg::usvg::Tree);

/// A font database of the fontdb crate, used to turn embedded text into path
/// geometry while parsing; constructed outside the library and passed in.
#[verifier::external_type_specification]
#[verifier::external_body]
pub struct ExDatabase(resvg::usvg::fontdb::Database);

/// Whether the usvg parser accepts `data` as a vector document. Acceptance is
/// a pure function of the bytes: the fixed default options and the font set
/// influence the parsed content, never whether parsing succeeds.
pub uninterp spec fn svg_parse_ok(data: Seq<u8>) -> bool;

/// What the PNG encoder produces for a pixel buffer of the given dimensions:
/// a pure function of the pixels and the dimensions.
pub uninterp spec fn png_encoding(pixels: Seq<Rgba>, width: u32, height: u32) -> Seq<u8>;

/// Relies on usvg's Tree::from_data, called with the default options and the
/// given font database: returns Ok exactly when the bytes form a valid vector
/// document, with any embedded text converted to path geometry using the
/// fonts (missing fonts degrade silently, they never fail the parse); on
/// failure returns the parser's message.
#[verifier::external_body]
pub(crate) fn parse_scene(data: &Vec<u8>, fonts: &Arc<resvg::usvg::fontdb::Database>) -> (r:
    Result<resvg::usvg::Tree, String>)
    ensures
        r is Ok <==> svg_parse_ok(data@),
{
    let mut options = resvg::usvg::Options::default();
    options.fontdb = fonts.clone();
    resvg::usvg::Tree::from_data(data.as_slice(), &options).map_err(|e| e.to_string())
}

/// Relies on tiny_skia's Pixmap::new, resvg's render, and tiny_skia's
/// Pixmap::pixels: allocates a pixel buffer of the scene's integral size
/// (usvg sizes round to at least 1 by 1), renders the scene into it with the
/// identity transform, and hands the pixels out as plain values. Returns None
/// only when the buffer cannot be allocated. Every returned pixel is
/// premultiplied, as tiny_skia documents for PremultipliedColorU8.
#[verifier::external_body]
pub(crate) fn rasterize_scene(tree: &resvg::usvg::Tree) -> (r: Option<Raster>)
    ensures
        r matches Some(buf) ==> buf.wf() && buf.premultiplied() && 1 <= buf.width && 1
            <= buf.height,
{
    let size = tree.size().to_int_size();
    let mut pixmap = match resvg::tiny_skia::Pixmap::new(size.width(), size.height()) {
        Some(p) => p,
        None => return None,
    };
    resvg::render(tree, resvg::tiny_skia::Transform::identity(), &mut pixmap.as_mut());
    let pixels = pixmap.pixels().iter().map(
        |p| Rgba { r: p.red(), g: p.green(), b: p.blue(), a: p.alpha() },
    ).collect();
    Some(Raster { width: size.width(), height: size.height(), pixels })
}

/// Relies on tiny_skia's Pixmap::from_vec and encode_png: lays the canvas
/// pixels out as RGBA bytes and encodes them as a PNG of the canvas
/// dimensions. Returns None if the encoder reports an error.
#[verifier::external_body]
pub(crate) fn encode_canvas(canvas: &Raster) -> (r: Option<Vec<u8>>)
    requires
        canvas.wf(),
        canvas.premultiplied(),
        1 <= canvas.width,
        1 <= canvas.height,
    ensures
        r matches Some(png) ==> png@ == png_encoding(canvas.pixels@, canvas.width, canvas.height),
{
    let mut bytes: Vec<u8> = Vec::with_capacity(canvas.pixels.len() * 4);
    for p in canvas.pixels.iter() {
        bytes.extend_from_slice(&[p.r, p.g, p.b, p.a]);
    }
    let size = resvg::tiny_skia::IntSize::from_wh(canvas.width, canvas.height)?;
    let pixmap = resvg::tiny_skia::Pixmap::from_vec(bytes, size)?;
    pixmap.encode_png().ok()
}

} // verus!
