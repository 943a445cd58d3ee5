use vstd::prelude::*;
use vstd::arithmetic::div_mod::{lemma_div_is_ordered, lemma_div_multiples_vanish};
use vstd::arithmetic::mul::lemma_mul_inequality;

verus! {

/// One RGBA pixel with premultiplied alpha: each color channel already carries
/// the pixel's alpha, so source-over blending needs no per-pixel division by
/// the source alpha.
#[derive(Debug, Clone, Copy, PartialEq, Eq, Structural)]
pub struct Rgba {
    pub r: u8,
    pub g: u8,
    pub b: u8,
    pub a: u8,
}

impl Rgba {
    /// Premultiplied well-formedness: no color channel exceeds the alpha channel.
    pub open spec fn premultiplied(self) -> bool {
        self.r <= self.a && self.g <= self.a && self.b <= self.a
    }

    /// Fully opaque pixel.
    pub open spec fn opaque(self) -> bool {
        self.a == 255
    }

    /// The premultiplied encoding of a fully transparent pixel.
    pub open spec fn transparent(self) -> bool {
        self == (Rgba { r: 0, g: 0, b: 0, a: 0 })
    }
}

/// Source-over on one premultiplied channel: the source channel plus the
/// destination channel scaled by the remaining transparency, with the 1/255
/// scale applied as integer floor division.
pub open spec fn over_channel(s: int, sa: int, d: int) -> int {
    s + (d * (255 - sa)) / 255
}

/// Source-over blend of a premultiplied source pixel over a destination pixel,
/// channel by channel; the alpha channel follows the same rule with the source
/// alpha as its own coverage.
pub open spec fn spec_over(s: Rgba, d: Rgba) -> Rgba {
    Rgba {
        r: over_channel(s.r as int, s.a as int, d.r as int) as u8,
        g: over_channel(s.g as int, s.a as int, d.g as int) as u8,
        b: over_channel(s.b as int, s.a as int, d.b as int) as u8,
        a: over_channel(s.a as int, s.a as int, d.a as int) as u8,
    }
}

/// A blended channel stays within one byte whenever the source is
/// premultiplied, so the byte casts in `spec_over` never truncate.
pub proof fn lemma_over_channel_bounds(s: int, sa: int, d: int)
    requires
        0 <= s <= sa <= 255,
        0 <= d <= 255,
    ensures
        0 <= (d * (255 - sa)) / 255 <= 255 - sa,
        s <= over_channel(s, sa, d) <= 255,
{
    lemma_mul_inequality(d, 255, 255 - sa);
    lemma_div_is_ordered(d * (255 - sa), 255 * (255 - sa), 255);
    lemma_div_multiples_vanish(255 - sa, 255);
    assert((d * (255 - sa)) / 255 <= 255 - sa);
    assert(0 <= d * (255 - sa)) by (nonlinear_arith)
        requires 0 <= d && sa <= 255;
    assert(0 <= (d * (255 - sa)) / 255);
}

/// Law: an opaque source pixel fully replaces the destination pixel.
pub proof fn lemma_over_opaque(s: Rgba, d: Rgba)
    requires
        s.premultiplied(),
        s.opaque(),
    ensures
        spec_over(s, d) == s,
{
    assert((d.r as int * (255 - 255)) == 0) by (nonlinear_arith);
    assert((d.g as int * (255 - 255)) == 0) by (nonlinear_arith);
    assert((d.b as int * (255 - 255)) == 0) by (nonlinear_arith);
    assert((d.a as int * (255 - 255)) == 0) by (nonlinear_arith);
}

/// Law: a fully transparent source pixel leaves the destination pixel unchanged.
pub proof fn lemma_over_transparent(s: Rgba, d: Rgba)
    requires
        s.transparent(),
    ensures
        spec_over(s, d) == d,
{
    lemma_div_multiples_vanish(d.r as int, 255);
    lemma_div_multiples_vanish(d.g as int, 255);
    lemma_div_multiples_vanish(d.b as int, 255);
    lemma_div_multiples_vanish(d.a as int, 255);
    assert(d.r as int * (255 - 0) == 255 * (d.r as int)) by (nonlinear_arith);
    assert(d.g as int * (255 - 0) == 255 * (d.g as int)) by (nonlinear_arith);
    assert(d.b as int * (255 - 0) == 255 * (d.b as int)) by (nonlinear_arith);
    assert(d.a as int * (255 - 0) == 255 * (d.a as int)) by (nonlinear_arith);
}

/// Blending two premultiplied pixels yields a premultiplied pixel.
pub proof fn lemma_over_premultiplied(s: Rgba, d: Rgba)
    requires
        s.premultiplied(),
        d.premultiplied(),
    ensures
        spec_over(s, d).premultiplied(),
{
    lemma_over_channel_bounds(s.r as int, s.a as int, d.r as int);
    lemma_over_channel_bounds(s.g as int, s.a as int, d.g as int);
    lemma_over_channel_bounds(s.b as int, s.a as int, d.b as int);
    lemma_over_channel_bounds(s.a as int, s.a as int, d.a as int);
    lemma_mul_inequality(d.r as int, d.a as int, 255 - s.a as int);
    lemma_mul_inequality(d.g as int, d.a as int, 255 - s.a as int);
    lemma_mul_inequality(d.b as int, d.a as int, 255 - s.a as int);
    lemma_div_is_ordered(d.r as int * (255 - s.a as int), d.a as int * (255 - s.a as int), 255);
    lemma_div_is_ordered(d.g as int * (255 - s.a as int), d.a as int * (255 - s.a as int), 255);
    lemma_div_is_ordered(d.b as int * (255 - s.a as int), d.a as int * (255 - s.a as int), 255);
}

/// Blending over an opaque destination yields an opaque pixel.
pub proof fn lemma_over_keeps_opaque(s: Rgba, d: Rgba)
    requires
        s.premultiplied(),
        d.opaque(),
    ensures
        spec_over(s, d).opaque(),
{
    let sa = s.a as int;
    lemma_div_multiples_vanish(255 - sa, 255);
    assert(over_channel(sa, sa, 255) == sa + (255 * (255 - sa)) / 255);
    assert(over_channel(sa, sa, 255) == 255);
}

/// One source-over blended channel, in executable integer arithmetic.
fn blend_channel(s: u8, sa: u8, d: u8) -> (r: u8)
    requires
        s <= sa,
    ensures
        r as int == over_channel(s as int, sa as int, d as int),
{
    proof {
        lemma_over_channel_bounds(s as int, sa as int, d as int);
        assert(d as int * (255 - sa as int) <= 255 * 255) by (nonlinear_arith)
            requires d <= 255 && sa <= 255;
    }
    let scaled: u32 = (d as u32 * (255 - sa as u32)) / 255;
    s + (scaled as u8)
}

/// Source-over blend of a premultiplied source pixel over a destination pixel.
pub fn over(s: Rgba, d: Rgba) -> (r: Rgba)
    requires
        s.premultiplied(),
    ensures
        r == spec_over(s, d),
{
    Rgba {
        r: blend_channel(s.r, s.a, d.r),
        g: blend_channel(s.g, s.a, d.g),
        b: blend_channel(s.b, s.a, d.b),
        a: blend_channel(s.a, s.a, d.a),
    }
}

} // verus!
