use vstd::prelude::*;
use std::sync::Arc;
use vstd::arithmetic::div_mod::{
    lemma_fundamental_div_mod,
    lemma_mod_bound,
    lemma_div_pos_is_pos,
    lemma_multiply_divide_lt,
};
use crate::color::{HUE_STEPS, spec_pastel, pastel_color};
use crate::errors::ItemError;
use crate::geometry::{CANVAS_SIDE, MARGIN, compute_geometry};
use crate::pixel::{Rgba, spec_over, lemma_over_premultiplied};
use crate::raster::{Raster, row_major, filled, resample};
use crate::scene::{svg_parse_ok, png_encoding, parse_scene, rasterize_scene, encode_canvas};

verus! {

/// The render region side fixed by the constants: the canvas side less twice
/// the margin.
pub open spec fn render_side() -> int {
    CANVAS_SIDE as int - 2 * MARGIN as int
}

/// A valid render-region layer: one premultiplied pixel per render-region
/// coordinate, in row-major order.
pub open spec fn valid_layer(layer: Seq<Rgba>) -> bool {
    &&& layer.len() == render_side() * render_side()
    &&& forall|i: int| 0 <= i < layer.len() ==> (#[trigger] layer[i]).premultiplied()
}

/// The canvas contents after compositing, pixel by pixel: within the render
/// region the layer pixel blended over the background with source-over, and
/// the plain background everywhere else.
pub open spec fn composed_canvas(background: Rgba, layer: Seq<Rgba>) -> Seq<Rgba> {
    Seq::new(
        (CANVAS_SIDE * CANVAS_SIDE) as nat,
        |i: int|
            {
                let x = i % (CANVAS_SIDE as int);
                let y = i / (CANVAS_SIDE as int);
                if MARGIN as int <= x < MARGIN as int + render_side() && MARGIN as int <= y
                    < MARGIN as int + render_side() {
                    spec_over(
                        layer[row_major(render_side(), x - MARGIN as int, y - MARGIN as int)],
                        background,
                    )
                } else {
                    background
                }
            },
    )
}

/// Law: a composited canvas over an opaque background is fully opaque at
/// every pixel, whatever the layer's own alpha values are.
pub proof fn lemma_composed_canvas_opaque(background: Rgba, layer: Seq<Rgba>)
    requires
        background.opaque(),
        valid_layer(layer),
    ensures
        forall|i: int|
            0 <= i < composed_canvas(background, layer).len() ==> (#[trigger] composed_canvas(
                background,
                layer,
            )[i]).opaque(),
{
    assert forall|i: int|
        0 <= i < composed_canvas(background, layer).len() implies (#[trigger] composed_canvas(
        background,
        layer,
    )[i]).opaque() by {
        let side = CANVAS_SIDE as int;
        let x = i % side;
        let y = i / side;
        lemma_mod_bound(i, side);
        lemma_div_pos_is_pos(i, side);
        lemma_multiply_divide_lt(i, side, side);
        if MARGIN as int <= x < MARGIN as int + render_side() && MARGIN as int <= y < MARGIN as int
            + render_side() {
            crate::raster::lemma_row_major_in_range(
                render_side(),
                render_side(),
                x - MARGIN as int,
                y - MARGIN as int,
            );
            crate::pixel::lemma_over_keeps_opaque(
                layer[crate::raster::row_major(
                    render_side(),
                    x - MARGIN as int,
                    y - MARGIN as int,
                )],
                background,
            );
        }
    }
}

/// What a successful pipeline run produces for one hue draw: the PNG encoding
/// of a canvas of the fixed geometry, filled with the pastel background for
/// that hue and composited with some premultiplied render-region layer at
/// offset (margin, margin).
pub open spec fn rendered_output(png: Seq<u8>, hue: u32) -> bool {
    exists|layer: Seq<Rgba>|
        valid_layer(layer) && png == png_encoding(
            composed_canvas(spec_pastel(hue as int), layer),
            CANVAS_SIDE,
            CANVAS_SIDE,
        )
}

/// The per-item rendering pipeline: parse the input bytes into a vector scene
/// (converting embedded text with the given fonts), derive the fixed
/// geometry, rasterize the scene to the render size, fill a canvas with the
/// pastel background for the given hue, composite the layer over it at the
/// fixed offset, and encode the canvas as PNG bytes.
///
/// Returns a Parse error exactly when the bytes are not a valid vector
/// document; a Render error only if the scene's pixel buffer could not be
/// allocated; an Encode error only if the PNG encoder failed. No other
/// failure is possible: the fixed constants make the geometry and the
/// compositing bounds checks provably succeed.
pub fn render_image(data: &Vec<u8>, hue: u32, fonts: &Arc<resvg::usvg::fontdb::Database>) -> (r:
    Result<Vec<u8>, ItemError>)
    requires
        hue < HUE_STEPS,
    ensures
        match r {
            Ok(png) => svg_parse_ok(data@) && rendered_output(png@, hue),
            Err(e) => match e {
                ItemError::Parse(_) => !svg_parse_ok(data@),
                ItemError::Render => svg_parse_ok(data@),
                ItemError::Encode => svg_parse_ok(data@),
                _ => false,
            },
        },
{
    let geometry = match compute_geometry(CANVAS_SIDE, MARGIN) {
        Ok(g) => g,
        Err(_) => {
            proof {
                assert(false);
            }
            return Err(ItemError::Geometry);
        },
    };
    let tree = match parse_scene(data, fonts) {
        Ok(t) => t,
        Err(message) => {
            return Err(ItemError::Parse(message));
        },
    };
    let native = match rasterize_scene(&tree) {
        Some(buf) => buf,
        None => {
            return Err(ItemError::Render);
        },
    };
    proof {
        assert(geometry.render_side == 192);
        assert(usize::MAX >= u32::MAX);
        assert(192int * 192int <= usize::MAX as int);
    }
    let layer = resample(&native, geometry.render_side, geometry.render_side);
    let background = pastel_color(hue);
    let mut canvas = filled(geometry.canvas_side, geometry.canvas_side, background);
    let ghost fresh = canvas;
    match canvas.composite_over(&layer, geometry.offset, geometry.offset) {
        Ok(()) => {},
        Err(_) => {
            proof {
                assert(false);
            }
            return Err(ItemError::Composite);
        },
    }
    proof {
        assert forall|i: int| 0 <= i < canvas.pixels@.len() implies canvas.pixels@[i]
            == composed_canvas(background, layer.pixels@)[i] && canvas.pixels@[i].premultiplied()
            by {
            let side = CANVAS_SIDE as int;
            let x = i % side;
            let y = i / side;
            lemma_fundamental_div_mod(i, side);
            lemma_mod_bound(i, side);
            lemma_div_pos_is_pos(i, side);
            lemma_multiply_divide_lt(i, side, side);
            assert(canvas.pixels@[i] == canvas.pix(x, y));
            assert(fresh.pixels@[row_major(side, x, y)] == background);
            assert(fresh.pix(x, y) == background);
            if MARGIN as int <= x < MARGIN as int + render_side() && MARGIN as int <= y
                < MARGIN as int + render_side() {
                assert(canvas.pix(x, y) == spec_over(
                    layer.pix(x - MARGIN as int, y - MARGIN as int),
                    fresh.pix(x, y),
                ));
                crate::raster::lemma_row_major_in_range(
                    render_side(),
                    render_side(),
                    x - MARGIN as int,
                    y - MARGIN as int,
                );
                lemma_over_premultiplied(
                    layer.pix(x - MARGIN as int, y - MARGIN as int),
                    background,
                );
            } else {
                assert(canvas.pix(x, y) == fresh.pix(x, y));
            }
        }
        assert(canvas.pixels@ =~= composed_canvas(background, layer.pixels@));
        assert(valid_layer(layer.pixels@));
    }
    let png = match encode_canvas(&canvas) {
        Some(b) => b,
        None => {
            return Err(ItemError::Encode);
        },
    };
    proof {
        assert(rendered_output(png@, hue)) by {
            assert(valid_layer(layer.pixels@) && png@ == png_encoding(
                composed_canvas(spec_pastel(hue as int), layer.pixels@),
                CANVAS_SIDE,
                CANVAS_SIDE,
            ));
        }
    }
    Ok(png)
}

} // verus!
