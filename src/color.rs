//! Colours, pixels and source-over compositing in exact integer arithmetic.

use vstd::prelude::*;

verus! {

/// An RGBA colour with 8-bit channels.
#[derive(Clone, Copy, Debug, PartialEq, Eq, Structural)]
pub struct Color {
    pub r: u8,
    pub g: u8,
    pub b: u8,
    pub a: u8,
}

/// Opacity of `top` painted over `base`, scaled by `255 * 255`:
/// `out_a = top_a + base_a * (1 - top_a)` with both alphas read as fractions of 255.
pub open spec fn coverage(base_a: int, top_a: int) -> int {
    255 * top_a + base_a * (255 - top_a)
}

/// One colour channel of `top` painted over `base`, truncated:
/// `(top_c * top_a + base_c * base_a * (1 - top_a)) / out_a`.
pub open spec fn over_channel(base_c: int, base_a: int, top_c: int, top_a: int) -> int {
    (255 * top_a * top_c + base_a * (255 - top_a) * base_c) / coverage(base_a, top_a)
}

/// Source-over compositing of `top` onto `base`. Where neither layer has any
/// opacity, painting nothing over the base leaves the base as it was.
pub open spec fn blend(base: Color, top: Color) -> Color {
    let d = coverage(base.a as int, top.a as int);
    if d == 0 {
        base
    } else {
        Color {
            r: over_channel(base.r as int, base.a as int, top.r as int, top.a as int) as u8,
            g: over_channel(base.g as int, base.a as int, top.g as int, top.a as int) as u8,
            b: over_channel(base.b as int, base.a as int, top.b as int, top.a as int) as u8,
            a: (d / 255) as u8,
        }
    }
}

pub open spec fn white() -> Color {
    Color { r: 255, g: 255, b: 255, a: 255 }
}

proof fn lemma_over_channel_bounds(base_c: int, base_a: int, top_c: int, top_a: int)
    requires
        0 <= base_c <= 255,
        0 <= base_a <= 255,
        0 <= top_c <= 255,
        0 <= top_a <= 255,
        coverage(base_a, top_a) > 0,
    ensures
        0 <= over_channel(base_c, base_a, top_c, top_a) <= 255,
        coverage(base_a, top_a) <= 255 * 255,
{
    let d = coverage(base_a, top_a);
    let n = 255 * top_a * top_c + base_a * (255 - top_a) * base_c;
    assert(0 <= n <= 255 * d) by (nonlinear_arith)
        requires
            0 <= base_c <= 255,
            0 <= base_a <= 255,
            0 <= top_c <= 255,
            0 <= top_a <= 255,
            n == 255 * top_a * top_c + base_a * (255 - top_a) * base_c,
            d == 255 * top_a + base_a * (255 - top_a),
    ;
    assert(d <= 255 * 255) by (nonlinear_arith)
        requires
            0 <= base_a <= 255,
            0 <= top_a <= 255,
            d == 255 * top_a + base_a * (255 - top_a),
    ;
    assert(n / d <= 255) by (nonlinear_arith)
        requires
            0 <= n <= 255 * d,
            d > 0,
    ;
    assert(0 <= n / d) by (nonlinear_arith)
        requires
            0 <= n,
            d > 0,
    ;
}

/// Painting a fully opaque colour over any colour gives exactly that colour.
pub proof fn lemma_blend_opaque_top(base: Color, top: Color)
    requires
        top.a == 255,
    ensures
        blend(base, top) == top,
{
    let ba = base.a as int;
    assert(coverage(ba, 255) == 255 * 255);
    assert forall|tc: int, bc: int| 0 <= tc <= 255 implies #[trigger] over_channel(bc, ba, tc, 255) == tc by {
        assert((255 * 255 * tc + ba * (255 - 255) * bc) / (255 * 255 as int) == tc) by (nonlinear_arith);
    }
}

/// Painting a fully transparent colour over any colour leaves that colour
/// unchanged.
pub proof fn lemma_blend_transparent_top(base: Color, top: Color)
    requires
        top.a == 0,
    ensures
        blend(base, top) == base,
{
    let ba = base.a as int;
    if ba > 0 {
        assert(coverage(ba, 0) == 255 * ba);
        assert forall|tc: int, bc: int| 0 <= bc <= 255 implies #[trigger] over_channel(bc, ba, tc, 0)
            == bc by {
            assert((255 * 0 * tc + ba * (255 - 0) * bc) / (255 * ba) == bc) by (nonlinear_arith)
                requires
                    ba > 0,
            ;
        }
        assert((255 * ba) / 255 == ba);
    }
}

/// One channel of source-over compositing; `over_channel` computed in `u32`.
fn blend_channel(base_c: u8, base_a: u8, top_c: u8, top_a: u8) -> (r: u8)
    requires
        coverage(base_a as int, top_a as int) > 0,
    ensures
        r as int == over_channel(base_c as int, base_a as int, top_c as int, top_a as int),
{
    proof {
        lemma_over_channel_bounds(base_c as int, base_a as int, top_c as int, top_a as int);
    }
    let ta = top_a as u32;
    let ba = base_a as u32;
    assert(255 * ta * (top_c as u32) <= 255 * 255 * 255) by (nonlinear_arith)
        requires
            ta <= 255,
            top_c <= 255,
    ;
    assert(ba * (255 - ta) * (base_c as u32) <= 255 * 255 * 255) by (nonlinear_arith)
        requires
            ta <= 255,
            ba <= 255,
            base_c <= 255,
    ;
    let d = 255 * ta + ba * (255 - ta);
    let n = 255 * ta * (top_c as u32) + ba * (255 - ta) * (base_c as u32);
    (n / d) as u8
}

/// `(a - b)²`.
pub fn square_difference(a: u8, b: u8) -> (r: u32)
    ensures
        r == (a - b) * (a - b),
        r <= 255 * 255,
{
    let d: u32 = if a >= b {
        (a - b) as u32
    } else {
        (b - a) as u32
    };
    proof {
        vstd::arithmetic::mul::lemma_mul_cancels_negatives(a - b, a - b);
        vstd::arithmetic::mul::lemma_mul_upper_bound(d as int, 255, d as int, 255);
    }
    d * d
}

impl Color {
    /// Opaque white, the colour of an empty canvas.
    pub fn white() -> (r: Color)
        ensures
            r == white(),
    {
        Color { r: 255, g: 255, b: 255, a: 255 }
    }

    /// The colour stored in a pixel.
    pub fn from(p: &Pixel) -> (r: Color)
        ensures
            r == p.color(),
    {
        Color { r: p.r, g: p.g, b: p.b, a: p.a }
    }

    /// Paints `top` over `self` with source-over compositing, truncating each
    /// channel back to an integer.
    pub fn blend(&self, top: &Color) -> (r: Color)
        ensures
            r == blend(*self, *top),
    {
        let ta = top.a as u32;
        let ba = self.a as u32;
        assert(ba * (255 - ta) <= 255 * 255) by (nonlinear_arith)
            requires
                ta <= 255,
                ba <= 255,
        ;
        let d = 255 * ta + ba * (255 - ta);
        if d == 0 {
            *self
        } else {
            Color {
                r: blend_channel(self.r, self.a, top.r, top.a),
                g: blend_channel(self.g, self.a, top.g, top.a),
                b: blend_channel(self.b, self.a, top.b, top.a),
                a: (d / 255) as u8,
            }
        }
    }
}

impl Default for Color {
    /// White.
    fn default() -> (r: Color)
        ensures
            r == white(),
    {
        Color::white()
    }
}

/// One stored sample of a rendered image.
#[derive(Clone, Copy, Debug, PartialEq, Eq, Structural)]
pub struct Pixel {
    pub r: u8,
    pub g: u8,
    pub b: u8,
    pub a: u8,
}

impl Pixel {
    pub open spec fn color(self) -> Color {
        Color { r: self.r, g: self.g, b: self.b, a: self.a }
    }

    pub open spec fn of(c: Color) -> Pixel {
        Pixel { r: c.r, g: c.g, b: c.b, a: c.a }
    }

    /// A white pixel.
    pub fn new() -> (r: Pixel)
        ensures
            r == Pixel::of(white()),
    {
        Pixel { r: 255, g: 255, b: 255, a: 255 }
    }

    /// A pixel holding `c`.
    pub fn of_color(c: &Color) -> (r: Pixel)
        ensures
            r == Pixel::of(*c),
    {
        Pixel { r: c.r, g: c.g, b: c.b, a: c.a }
    }

    /// Sum of the squared differences of the four channels.
    pub fn squared_error(&self, other: &Pixel) -> (r: u32)
        ensures
            r == (self.r - other.r) * (self.r - other.r) + (self.g - other.g) * (self.g - other.g) + (
            self.b - other.b) * (self.b - other.b) + (self.a - other.a) * (self.a - other.a),
    {
        square_difference(self.r, other.r) + square_difference(self.g, other.g) + square_difference(
            self.b,
            other.b,
        ) + square_difference(self.a, other.a)
    }

    /// Overwrites the pixel with `c`.
    pub fn set_color(&mut self, c: &Color)
        ensures
            *final(self) == Pixel::of(*c),
    {
        self.r = c.r;
        self.g = c.g;
        self.b = c.b;
        self.a = c.a;
    }

    /// Composites `c` over the pixel in place.
    pub fn add_color(&mut self, c: &Color)
        ensures
            *final(self) == Pixel::of(blend(old(self).color(), *c)),
    {
        let new_color = Color::from(self).blend(c);
        self.r = new_color.r;
        self.g = new_color.g;
        self.b = new_color.b;
        self.a = new_color.a;
    }
}

} // verus!
