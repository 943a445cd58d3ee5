use vstd::prelude::*;
use vstd::pervasive::VecAdditionalExecFns;
use vstd::arithmetic::div_mod::{lemma_div_pos_is_pos, lemma_multiply_divide_lt};
use vstd::arithmetic::mul::{lemma_mul_inequality, lemma_mul_strict_inequality};
use crate::errors::ItemError;
use crate::pixel::{Rgba, spec_over, over, lemma_over_opaque, lemma_over_transparent};

verus! {

/// A rectangular pixel buffer in row-major order: the pixel at column `x` of
/// row `y` sits at index `y * width + x`.
pub struct Raster {
    pub width: u32,
    pub height: u32,
    pub pixels: Vec<Rgba>,
}

/// Row-major index of a coordinate pair within a buffer `width` pixels wide.
pub open spec fn row_major(width: int, x: int, y: int) -> int {
    y * width + x
}

impl Raster {
    /// Well-formedness: the buffer holds exactly width * height pixels.
    pub open spec fn wf(self) -> bool {
        self.pixels@.len() == self.width as int * self.height as int
    }

    /// Every pixel of the buffer is premultiplied.
    pub open spec fn premultiplied(self) -> bool {
        forall|i: int|
            0 <= i < self.pixels@.len() ==> (#[trigger] self.pixels@[i]).premultiplied()
    }

    /// The pixel at column `x` of row `y`.
    pub open spec fn pix(self, x: int, y: int) -> Rgba {
        self.pixels@[row_major(self.width as int, x, y)]
    }

    /// `(x, y)` is a coordinate of this buffer.
    pub open spec fn in_bounds(self, x: int, y: int) -> bool {
        0 <= x < self.width as int && 0 <= y < self.height as int
    }
}

/// A row-major index is within the buffer whenever its coordinates are.
pub proof fn lemma_row_major_in_range(width: int, height: int, x: int, y: int)
    requires
        0 <= x < width,
        0 <= y < height,
    ensures
        0 <= row_major(width, x, y) < width * height,
{
    assert(0 <= y * width + x < width * height) by (nonlinear_arith)
        requires 0 <= x < width && 0 <= y < height;
}

/// Distinct coordinates have distinct row-major indices.
pub proof fn lemma_row_major_injective(width: int, x1: int, y1: int, x2: int, y2: int)
    requires
        0 <= x1 < width,
        0 <= x2 < width,
        row_major(width, x1, y1) == row_major(width, x2, y2),
    ensures
        x1 == x2 && y1 == y2,
{
    assert(y1 * width + x1 == y2 * width + x2 && 0 <= x1 < width && 0 <= x2 < width
        ==> x1 == x2 && y1 == y2) by (nonlinear_arith);
}

/// Compositor steps 1 and 2: a freshly allocated buffer with every pixel set
/// to one background color.
pub fn filled(width: u32, height: u32, color: Rgba) -> (r: Raster)
    requires
        width as int * height as int <= usize::MAX as int,
    ensures
        r.wf(),
        r.width == width,
        r.height == height,
        forall|i: int| 0 <= i < r.pixels@.len() ==> r.pixels@[i] == color,
{
    let n: usize = (width as usize) * (height as usize);
    let mut pixels: Vec<Rgba> = Vec::new();
    while pixels.len() < n
        invariant
            pixels@.len() <= n,
            forall|i: int| 0 <= i < pixels@.len() ==> pixels@[i] == color,
        decreases n - pixels@.len(),
    {
        pixels.push(color);
    }
    Raster { width, height, pixels }
}

impl Raster {
    /// Compositor step 3: draw `layer` onto `self` with its top-left corner at
    /// `(ox, oy)`, blending each layer pixel over the canvas pixel under it
    /// with source-over. Canvas pixels outside the layer's footprint are left
    /// unchanged. Rejects (without changing the canvas) a placement whose
    /// footprint would exceed the canvas bounds.
    pub fn composite_over(&mut self, layer: &Raster, ox: u32, oy: u32) -> (r: Result<
        (),
        ItemError,
    >)
        requires
            old(self).wf(),
            layer.wf(),
            layer.premultiplied(),
        ensures
            final(self).wf(),
            final(self).width == old(self).width,
            final(self).height == old(self).height,
            match r {
                Ok(()) => {
                    &&& ox as int + layer.width as int <= old(self).width as int
                    &&& oy as int + layer.height as int <= old(self).height as int
                    &&& forall|cx: int, cy: int|
                        ox as int <= cx < ox as int + layer.width as int
                            && oy as int <= cy < oy as int + layer.height as int
                            ==> #[trigger] final(self).pix(cx, cy) == spec_over(
                                layer.pix(cx - ox as int, cy - oy as int),
                                old(self).pix(cx, cy),
                            )
                    &&& forall|cx: int, cy: int|
                        old(self).in_bounds(cx, cy)
                            && !(ox as int <= cx < ox as int + layer.width as int
                                && oy as int <= cy < oy as int + layer.height as int)
                            ==> #[trigger] final(self).pix(cx, cy) == old(self).pix(cx, cy)
                },
                Err(e) => {
                    &&& e matches ItemError::Composite
                    &&& ox as int + layer.width as int > old(self).width as int
                        || oy as int + layer.height as int > old(self).height as int
                    &&& *final(self) == *old(self)
                },
            },
    {
        if ox as u64 + layer.width as u64 > self.width as u64
            || oy as u64 + layer.height as u64 > self.height as u64 {
            return Err(ItemError::Composite);
        }
        let lw = layer.width;
        let lh = layer.height;
        let sw = self.width;
        let mut y: u32 = 0;
        while y < lh
            invariant
                self.wf(),
                self.width == old(self).width,
                self.height == old(self).height,
                layer.wf(),
                layer.premultiplied(),
                lw == layer.width,
                lh == layer.height,
                sw == self.width,
                y <= lh,
                ox as int + lw as int <= self.width as int,
                oy as int + lh as int <= self.height as int,
                forall|cx: int, cy: int|
                    ox as int <= cx < ox as int + lw as int && oy as int <= cy < oy as int
                        + y as int ==> #[trigger] self.pix(cx, cy) == spec_over(
                        layer.pix(cx - ox as int, cy - oy as int),
                        old(self).pix(cx, cy),
                    ),
                forall|cx: int, cy: int|
                    old(self).in_bounds(cx, cy) && !(ox as int <= cx < ox as int + lw as int
                        && oy as int <= cy < oy as int + y as int)
                        ==> #[trigger] self.pix(cx, cy) == old(self).pix(cx, cy),
            decreases lh - y,
        {
            let mut x: u32 = 0;
            while x < lw
                invariant
                    self.wf(),
                    self.width == old(self).width,
                    self.height == old(self).height,
                    layer.wf(),
                    layer.premultiplied(),
                    lw == layer.width,
                    lh == layer.height,
                    sw == self.width,
                    x <= lw,
                    y < lh,
                    ox as int + lw as int <= self.width as int,
                    oy as int + lh as int <= self.height as int,
                    forall|cx: int, cy: int|
                        ox as int <= cx < ox as int + lw as int && oy as int <= cy < oy as int
                            + y as int ==> #[trigger] self.pix(cx, cy) == spec_over(
                            layer.pix(cx - ox as int, cy - oy as int),
                            old(self).pix(cx, cy),
                        ),
                    forall|cx: int|
                        ox as int <= cx < ox as int + x as int ==> #[trigger] self.pix(
                            cx,
                            oy as int + y as int,
                        ) == spec_over(
                            layer.pix(cx - ox as int, y as int),
                            old(self).pix(cx, oy as int + y as int),
                        ),
                    forall|cx: int, cy: int|
                        old(self).in_bounds(cx, cy) && !(ox as int <= cx < ox as int + lw as int
                            && oy as int <= cy < oy as int + y as int) && !(
                        ox as int <= cx < ox as int + x as int && cy == oy as int + y as int)
                            ==> #[trigger] self.pix(cx, cy) == old(self).pix(cx, cy),
                decreases lw - x,
            {
                proof {
                    lemma_row_major_in_range(lw as int, lh as int, x as int, y as int);
                    lemma_row_major_in_range(
                        self.width as int,
                        self.height as int,
                        ox as int + x as int,
                        oy as int + y as int,
                    );
                    assert(layer.pixels@.len() == layer.pixels.len());
                    assert(self.pixels@.len() == self.pixels.len());
                }
                let li: usize = (y as usize) * (lw as usize) + (x as usize);
                let ci: usize = ((oy + y) as usize) * (sw as usize) + ((ox + x) as usize);
                let ghost prev = *self;
                proof {
                    assert(li as int == row_major(lw as int, x as int, y as int));
                    assert(ci as int == row_major(
                        sw as int,
                        ox as int + x as int,
                        oy as int + y as int,
                    ));
                    assert(prev.pix(ox as int + x as int, oy as int + y as int)
                        == old(self).pix(ox as int + x as int, oy as int + y as int));
                    assert(layer.pix(x as int, y as int) == layer.pixels@[li as int]);
                }
                let blended = over(layer.pixels[li], self.pixels[ci]);
                self.pixels.set(ci, blended);
                proof {
                    assert(self.pixels@ == prev.pixels@.update(ci as int, blended));
                    assert forall|cx: int, cy: int|
                        prev.in_bounds(cx, cy) && !(cx == ox as int + x as int && cy == oy as int
                            + y as int) implies #[trigger] self.pix(cx, cy) == prev.pix(cx, cy) by {
                        if row_major(sw as int, cx, cy) == ci as int {
                            lemma_row_major_injective(
                                sw as int,
                                cx,
                                cy,
                                ox as int + x as int,
                                oy as int + y as int,
                            );
                        } else {
                            lemma_row_major_in_range(sw as int, self.height as int, cx, cy);
                        }
                    }
                    assert(self.pix(ox as int + x as int, oy as int + y as int) == spec_over(
                        layer.pix(x as int, y as int),
                        old(self).pix(ox as int + x as int, oy as int + y as int),
                    ));
                    assert forall|cx: int, cy: int|
                        ox as int <= cx < ox as int + lw as int && oy as int <= cy < oy as int
                            + y as int implies #[trigger] self.pix(cx, cy) == spec_over(
                            layer.pix(cx - ox as int, cy - oy as int),
                            old(self).pix(cx, cy),
                        ) by {
                        assert(prev.pix(cx, cy) == spec_over(
                            layer.pix(cx - ox as int, cy - oy as int),
                            old(self).pix(cx, cy),
                        ));
                        assert(prev.in_bounds(cx, cy));
                        assert(self.pix(cx, cy) == prev.pix(cx, cy));
                    }
                    assert forall|cx: int|
                        ox as int <= cx < ox as int + x as int + 1 implies #[trigger] self.pix(
                            cx,
                            oy as int + y as int,
                        ) == spec_over(
                            layer.pix(cx - ox as int, y as int),
                            old(self).pix(cx, oy as int + y as int),
                        ) by {
                        if cx < ox as int + x as int {
                            assert(prev.pix(cx, oy as int + y as int) == spec_over(
                                layer.pix(cx - ox as int, y as int),
                                old(self).pix(cx, oy as int + y as int),
                            ));
                            assert(prev.in_bounds(cx, oy as int + y as int));
                            assert(self.pix(cx, oy as int + y as int) == prev.pix(
                                cx,
                                oy as int + y as int,
                            ));
                        }
                    }
                    assert forall|cx: int, cy: int|
                        old(self).in_bounds(cx, cy) && !(ox as int <= cx < ox as int + lw as int
                            && oy as int <= cy < oy as int + y as int) && !(
                        ox as int <= cx < ox as int + x as int + 1 && cy == oy as int + y as int)
                            implies #[trigger] self.pix(cx, cy) == old(self).pix(cx, cy) by {
                        assert(prev.in_bounds(cx, cy));
                        assert(prev.pix(cx, cy) == old(self).pix(cx, cy));
                        assert(self.pix(cx, cy) == prev.pix(cx, cy));
                    }
                }
                x = x + 1;
            }
            proof {
                let ghost rowdone = *self;
                assert forall|cx: int, cy: int|
                    ox as int <= cx < ox as int + lw as int && oy as int <= cy < oy as int + y as int
                        + 1 implies #[trigger] rowdone.pix(cx, cy) == spec_over(
                        layer.pix(cx - ox as int, cy - oy as int),
                        old(self).pix(cx, cy),
                    ) by {
                    if cy == oy as int + y as int {
                        assert(rowdone.pix(cx, oy as int + y as int) == spec_over(
                            layer.pix(cx - ox as int, y as int),
                            old(self).pix(cx, oy as int + y as int),
                        ));
                    }
                }
            }
            y = y + 1;
        }
        Ok(())
    }
}

/// Vector Rasterizer helper: nearest-neighbour resampling of `src` to a buffer
/// of exactly `tw` by `th` pixels; the target pixel at (x, y) takes the source
/// pixel at (x * src.width / tw, y * src.height / th). The fit policy of this
/// library: the scene content is stretched to fill the render region exactly,
/// without letterboxing, so the output size never depends on the source's
/// aspect ratio.
pub fn resample(src: &Raster, tw: u32, th: u32) -> (r: Raster)
    requires
        src.wf(),
        1 <= src.width,
        1 <= src.height,
        1 <= tw,
        1 <= th,
        tw as int * th as int <= usize::MAX as int,
    ensures
        r.wf(),
        r.width == tw,
        r.height == th,
        forall|x: int, y: int|
            0 <= x < tw as int && 0 <= y < th as int ==> #[trigger] r.pix(x, y) == src.pix(
                (x * src.width as int) / tw as int,
                (y * src.height as int) / th as int,
            ),
        src.premultiplied() ==> r.premultiplied(),
{
    let sw = src.width;
    let sh = src.height;
    let mut pixels: Vec<Rgba> = Vec::new();
    let mut y: u32 = 0;
    while y < th
        invariant
            src.wf(),
            sw == src.width,
            sh == src.height,
            1 <= sw,
            1 <= sh,
            1 <= tw,
            1 <= th,
            tw as int * th as int <= usize::MAX as int,
            y <= th,
            pixels@.len() == y as int * tw as int,
            forall|px: int, py: int|
                0 <= px < tw as int && 0 <= py < y as int ==> #[trigger] pixels@[row_major(
                    tw as int,
                    px,
                    py,
                )] == src.pix((px * sw as int) / tw as int, (py * sh as int) / th as int),
            src.premultiplied() ==> forall|j: int|
                0 <= j < pixels@.len() ==> (#[trigger] pixels@[j]).premultiplied(),
        decreases th - y,
    {
        proof {
            lemma_mul_inequality(y as int + 1, th as int, tw as int);
            assert(y as int * tw as int + tw as int == (y as int + 1) * tw as int)
                by (nonlinear_arith);
        }
        let mut x: u32 = 0;
        while x < tw
            invariant
                src.wf(),
                sw == src.width,
                sh == src.height,
                1 <= sw,
                1 <= sh,
                1 <= tw,
                1 <= th,
                tw as int * th as int <= usize::MAX as int,
                x <= tw,
                y < th,
                pixels@.len() == y as int * tw as int + x as int,
                y as int * tw as int + tw as int <= tw as int * th as int,
                forall|px: int, py: int|
                    0 <= px < tw as int && 0 <= py < y as int ==> #[trigger] pixels@[row_major(
                        tw as int,
                        px,
                        py,
                    )] == src.pix((px * sw as int) / tw as int, (py * sh as int) / th as int),
                forall|px: int|
                    0 <= px < x as int ==> #[trigger] pixels@[row_major(tw as int, px, y as int)]
                        == src.pix((px * sw as int) / tw as int, (y as int * sh as int) / th as int),
                src.premultiplied() ==> forall|j: int|
                    0 <= j < pixels@.len() ==> (#[trigger] pixels@[j]).premultiplied(),
            decreases tw - x,
        {
            proof {
                lemma_mul_strict_inequality(x as int, tw as int, sw as int);
                lemma_multiply_divide_lt(x as int * sw as int, tw as int, sw as int);
                lemma_div_pos_is_pos(x as int * sw as int, tw as int);
                lemma_mul_strict_inequality(y as int, th as int, sh as int);
                lemma_multiply_divide_lt(y as int * sh as int, th as int, sh as int);
                lemma_div_pos_is_pos(y as int * sh as int, th as int);
                assert(x as int * sw as int <= u32::MAX as int * u32::MAX as int)
                    by (nonlinear_arith)
                    requires 0 <= x as int <= u32::MAX as int && 0 <= sw as int <= u32::MAX as int;
                assert(y as int * sh as int <= u32::MAX as int * u32::MAX as int)
                    by (nonlinear_arith)
                    requires 0 <= y as int <= u32::MAX as int && 0 <= sh as int <= u32::MAX as int;
            }
            let sx: u64 = (x as u64 * sw as u64) / (tw as u64);
            let sy: u64 = (y as u64 * sh as u64) / (th as u64);
            proof {
                lemma_row_major_in_range(sw as int, sh as int, sx as int, sy as int);
                assert(src.pixels@.len() == src.pixels.len());
            }
            let si: usize = (sy as usize) * (sw as usize) + (sx as usize);
            let ghost before = pixels@;
            pixels.push(src.pixels[si]);
            proof {
                lemma_row_major_in_range(tw as int, th as int, x as int, y as int);
                assert(row_major(tw as int, x as int, y as int) == before.len());
                assert forall|px: int, py: int|
                    0 <= px < tw as int && 0 <= py < y as int implies #[trigger] pixels@[row_major(
                        tw as int,
                        px,
                        py,
                    )] == src.pix((px * sw as int) / tw as int, (py * sh as int) / th as int) by {
                    lemma_row_major_in_range(tw as int, y as int, px, py);
                    assert(row_major(tw as int, px, py) < tw as int * y as int);
                    assert(tw as int * y as int == y as int * tw as int) by (nonlinear_arith);
                }
                assert forall|px: int|
                    0 <= px < x as int + 1 implies #[trigger] pixels@[row_major(
                        tw as int,
                        px,
                        y as int,
                    )] == src.pix((px * sw as int) / tw as int, (y as int * sh as int) / th as int)
                    by {
                    if px < x as int {
                        assert(row_major(tw as int, px, y as int) < before.len());
                        assert(before[row_major(tw as int, px, y as int)] == src.pix(
                            (px * sw as int) / tw as int,
                            (y as int * sh as int) / th as int,
                        ));
                    }
                }
            }
            x = x + 1;
        }
        proof {
            assert forall|px: int, py: int|
                0 <= px < tw as int && 0 <= py < y as int + 1 implies #[trigger] pixels@[row_major(
                    tw as int,
                    px,
                    py,
                )] == src.pix((px * sw as int) / tw as int, (py * sh as int) / th as int) by {
                lemma_row_major_in_range(tw as int, y as int + 1, px, py);
                assert(tw as int * (y as int + 1) == y as int * tw as int + tw as int)
                    by (nonlinear_arith);
                if py == y as int {
                    assert(pixels@[row_major(tw as int, px, y as int)] == src.pix(
                        (px * sw as int) / tw as int,
                        (y as int * sh as int) / th as int,
                    ));
                }
            }
            assert(y as int * tw as int + tw as int == (y as int + 1) * tw as int)
                by (nonlinear_arith);
        }
        y = y + 1;
    }
    proof {
        assert(th as int * tw as int == tw as int * th as int) by (nonlinear_arith);
    }
    let r = Raster { width: tw, height: th, pixels };
    proof {
        assert forall|x: int, yy: int|
            0 <= x < tw as int && 0 <= yy < th as int implies #[trigger] r.pix(x, yy) == src.pix(
                (x * src.width as int) / tw as int,
                (yy * src.height as int) / th as int,
            ) by {
            lemma_row_major_in_range(tw as int, th as int, x, yy);
            assert(pixels@[row_major(tw as int, x, yy)] == src.pix(
                (x * sw as int) / tw as int,
                (yy * sh as int) / th as int,
            ));
        }
    }
    r
}

/// Law: a fully opaque layer pixel replaces the canvas pixel beneath it; the
/// composited canvas shows exactly the layer's color at that coordinate.
pub proof fn lemma_composite_opaque_pixel(
    before: Raster,
    after: Raster,
    layer: Raster,
    ox: u32,
    oy: u32,
    x: int,
    y: int,
)
    requires
        layer.wf(),
        layer.premultiplied(),
        0 <= x < layer.width as int,
        0 <= y < layer.height as int,
        forall|cx: int, cy: int|
            ox as int <= cx < ox as int + layer.width as int
                && oy as int <= cy < oy as int + layer.height as int
                ==> #[trigger] after.pix(cx, cy) == spec_over(
                    layer.pix(cx - ox as int, cy - oy as int),
                    before.pix(cx, cy),
                ),
        layer.pix(x, y).opaque(),
    ensures
        after.pix(ox as int + x, oy as int + y) == layer.pix(x, y),
{
    lemma_row_major_in_range(layer.width as int, layer.height as int, x, y);
    lemma_over_opaque(layer.pix(x, y), before.pix(ox as int + x, oy as int + y));
}

/// Law: a fully transparent layer pixel leaves the canvas pixel beneath it
/// unchanged; over a solid background fill it still shows the background.
pub proof fn lemma_composite_transparent_pixel(
    before: Raster,
    after: Raster,
    layer: Raster,
    ox: u32,
    oy: u32,
    x: int,
    y: int,
)
    requires
        layer.wf(),
        0 <= x < layer.width as int,
        0 <= y < layer.height as int,
        forall|cx: int, cy: int|
            ox as int <= cx < ox as int + layer.width as int
                && oy as int <= cy < oy as int + layer.height as int
                ==> #[trigger] after.pix(cx, cy) == spec_over(
                    layer.pix(cx - ox as int, cy - oy as int),
                    before.pix(cx, cy),
                ),
        layer.pix(x, y).transparent(),
    ensures
        after.pix(ox as int + x, oy as int + y) == before.pix(ox as int + x, oy as int + y),
{
    lemma_over_transparent(layer.pix(x, y), before.pix(ox as int + x, oy as int + y));
}

/// Law: every canvas pixel strictly outside the layer's footprint still holds
/// the background color the canvas was filled with.
pub proof fn lemma_background_outside_footprint(
    before: Raster,
    after: Raster,
    layer: Raster,
    ox: u32,
    oy: u32,
    background: Rgba,
    x: int,
    y: int,
)
    requires
        before.wf(),
        forall|i: int| 0 <= i < before.pixels@.len() ==> before.pixels@[i] == background,
        before.in_bounds(x, y),
        !(ox as int <= x < ox as int + layer.width as int
            && oy as int <= y < oy as int + layer.height as int),
        forall|cx: int, cy: int|
            before.in_bounds(cx, cy)
                && !(ox as int <= cx < ox as int + layer.width as int
                    && oy as int <= cy < oy as int + layer.height as int)
                ==> #[trigger] after.pix(cx, cy) == before.pix(cx, cy),
    ensures
        after.pix(x, y) == background,
{
    lemma_row_major_in_range(before.width as int, before.height as int, x, y);
}

/// Law: two compositing runs of the same layer over two solidly filled
/// canvases agree at every fully opaque layer pixel, whatever the two
/// background colors were; the vector content there is identical across runs.
pub proof fn lemma_opaque_pixels_agree_across_backgrounds(
    before1: Raster,
    after1: Raster,
    before2: Raster,
    after2: Raster,
    layer: Raster,
    ox: u32,
    oy: u32,
    x: int,
    y: int,
)
    requires
        layer.wf(),
        layer.premultiplied(),
        0 <= x < layer.width as int,
        0 <= y < layer.height as int,
        forall|cx: int, cy: int|
            ox as int <= cx < ox as int + layer.width as int
                && oy as int <= cy < oy as int + layer.height as int
                ==> #[trigger] after1.pix(cx, cy) == spec_over(
                    layer.pix(cx - ox as int, cy - oy as int),
                    before1.pix(cx, cy),
                ),
        forall|cx: int, cy: int|
            ox as int <= cx < ox as int + layer.width as int
                && oy as int <= cy < oy as int + layer.height as int
                ==> #[trigger] after2.pix(cx, cy) == spec_over(
                    layer.pix(cx - ox as int, cy - oy as int),
                    before2.pix(cx, cy),
                ),
        layer.pix(x, y).opaque(),
    ensures
        after1.pix(ox as int + x, oy as int + y) == after2.pix(ox as int + x, oy as int + y),
{
    lemma_composite_opaque_pixel(before1, after1, layer, ox, oy, x, y);
    lemma_composite_opaque_pixel(before2, after2, layer, ox, oy, x, y);
}

} // verus!
