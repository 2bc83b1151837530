//! Genes: the drawable primitives of a candidate, their random creation and
//! bounded mutation.

use crate::color::Color;
use crate::geometry::Point;
use crate::rng::random_below;
use rand::rngs::StdRng;
use vstd::prelude::*;

verus! {

/// A triangle corner moves by up to a tenth of the axis length either way,
/// a window of a fifth of the axis.
pub const TRIANGLE_REACH: u64 = 10;

/// A line end moves by up to a twentieth of the axis length either way, a
/// window of a tenth of the axis.
pub const LINE_REACH: u64 = 20;

/// One drawable primitive with the colour it is painted with: a filled
/// triangle, or a line segment between two end points.
#[derive(Clone, Copy, Debug, PartialEq, Eq, Structural)]
pub enum Gene {
    Triangle { v0: Point, v1: Point, v2: Point, color: Color },
    Line { a: Point, b: Point, color: Color },
}

/// Every channel, alpha included, of a colour drawn at random lies in
/// `[0, 255)`.
pub open spec fn drawn_color(c: Color) -> bool {
    c.r < 255 && c.g < 255 && c.b < 255 && c.a < 255
}

pub open spec fn point_in(p: Point, width: int, height: int) -> bool {
    p.x < width && p.y < height
}

/// `new` is a possible mutation of point `old` on a `width` by `height`
/// image with the given reach.
pub open spec fn point_step(old: Point, new: Point, width: int, height: int, reach: int) -> bool {
    coord_step(old.x as int, new.x as int, width, reach) && coord_step(
        old.y as int,
        new.y as int,
        height,
        reach,
    )
}

impl Gene {
    pub open spec fn color_spec(self) -> Color {
        match self {
            Gene::Triangle { color, .. } => color,
            Gene::Line { color, .. } => color,
        }
    }

    /// All corners or end points lie on a `width` by `height` image.
    pub open spec fn within(self, width: int, height: int) -> bool {
        match self {
            Gene::Triangle { v0, v1, v2, .. } => {
                &&& point_in(v0, width, height)
                &&& point_in(v1, width, height)
                &&& point_in(v2, width, height)
            },
            Gene::Line { a, b, .. } => point_in(a, width, height) && point_in(b, width, height),
        }
    }

    /// `self` is a mutation of `old` on a `width` by `height` image: the same
    /// kind and colour, each coordinate moved within its window.
    pub open spec fn mutation_of(self, old: Gene, width: int, height: int) -> bool {
        match (self, old) {
            (
                Gene::Triangle { v0, v1, v2, color },
                Gene::Triangle { v0: o0, v1: o1, v2: o2, color: oc },
            ) => {
                let r = TRIANGLE_REACH as int;
                &&& color == oc
                &&& point_step(o0, v0, width, height, r)
                &&& point_step(o1, v1, width, height, r)
                &&& point_step(o2, v2, width, height, r)
            },
            (Gene::Line { a, b, color }, Gene::Line { a: oa, b: ob, color: oc }) => {
                let r = LINE_REACH as int;
                &&& color == oc
                &&& point_step(oa, a, width, height, r)
                &&& point_step(ob, b, width, height, r)
            },
            _ => false,
        }
    }
}

/// Every gene lies on a `width` by `height` image.
pub open spec fn genes_within(genes: Seq<Gene>, width: int, height: int) -> bool {
    forall|k: int| 0 <= k < genes.len() ==> #[trigger] genes[k].within(width, height)
}

/// `new` is `old` with every gene mutated, in the same order.
pub open spec fn genes_mutated(new: Seq<Gene>, old: Seq<Gene>, width: int, height: int) -> bool {
    &&& new.len() == old.len()
    &&& forall|k: int| 0 <= k < new.len() ==> #[trigger] new[k].mutation_of(old[k], width, height)
}

/// Lower end of the mutation window of a coordinate `v` on an axis of length
/// `max`: `v - max / reach`, truncated, and never below zero.
pub open spec fn window_lo(v: int, max: int, reach: int) -> int {
    if reach * v < max {
        0
    } else {
        (reach * v - max) / reach
    }
}

/// Upper end (exclusive) of the mutation window: `v + max / reach`,
/// truncated, and never past the last coordinate `max - 1`.
pub open spec fn window_hi(v: int, max: int, reach: int) -> int {
    if (reach * v + max) / reach >= max {
        max - 1
    } else {
        (reach * v + max) / reach
    }
}

/// `new` is a possible mutation of coordinate `v`: drawn from the window
/// when it is not empty, its lower end otherwise.
pub open spec fn coord_step(v: int, new: int, max: int, reach: int) -> bool {
    if window_lo(v, max, reach) < window_hi(v, max, reach) {
        window_lo(v, max, reach) <= new < window_hi(v, max, reach)
    } else {
        new == window_lo(v, max, reach)
    }
}

/// Moves a coordinate within its window on an axis of length `max`.
fn clamped_rand(v: u32, max: u32, reach: u64, rng: &mut StdRng) -> (r: u32)
    requires
        v < max,
        reach == TRIANGLE_REACH || reach == LINE_REACH,
    ensures
        coord_step(v as int, r as int, max as int, reach as int),
        r < max,
{
    let scaled = reach * (v as u64);
    let m = max as u64;
    let lo: u64 = if scaled < m {
        0
    } else {
        (scaled - m) / reach
    };
    let hi: u64 = if (scaled + m) / reach >= m {
        m - 1
    } else {
        (scaled + m) / reach
    };
    if lo < hi {
        random_below(rng, lo as u32, hi as u32)
    } else {
        lo as u32
    }
}

/// Moves both coordinates of a point within their windows.
fn mutate_point(p: Point, width: u32, height: u32, reach: u64, rng: &mut StdRng) -> (r: Point)
    requires
        point_in(p, width as int, height as int),
        reach == TRIANGLE_REACH || reach == LINE_REACH,
    ensures
        point_step(p, r, width as int, height as int, reach as int),
        point_in(r, width as int, height as int),
{
    let x = clamped_rand(p.x, width, reach, rng);
    let y = clamped_rand(p.y, height, reach, rng);
    Point { x, y }
}

/// A point drawn uniformly on a `width` by `height` image.
fn random_point(width: u32, height: u32, rng: &mut StdRng) -> (r: Point)
    requires
        width > 0,
        height > 0,
    ensures
        point_in(r, width as int, height as int),
{
    let x = random_below(rng, 0, width);
    let y = random_below(rng, 0, height);
    Point { x, y }
}

impl Color {
    /// A colour with every channel, alpha included, drawn from `[0, 255)`.
    pub fn random(rng: &mut StdRng) -> (r: Color)
        ensures
            drawn_color(r),
    {
        Color {
            r: random_below(rng, 0, 255) as u8,
            g: random_below(rng, 0, 255) as u8,
            b: random_below(rng, 0, 255) as u8,
            a: random_below(rng, 0, 255) as u8,
        }
    }
}

impl Gene {
    /// The colour the gene is painted with.
    pub fn color(&self) -> (r: Color)
        ensures
            r == self.color_spec(),
    {
        match self {
            Gene::Triangle { color, .. } => *color,
            Gene::Line { color, .. } => *color,
        }
    }

    /// A triangle with corners drawn uniformly on a `width` by `height` image
    /// and a random colour.
    pub fn random(width: u32, height: u32, rng: &mut StdRng) -> (r: Gene)
        requires
            width > 0,
            height > 0,
        ensures
            r is Triangle,
            r.within(width as int, height as int),
            drawn_color(r.color_spec()),
    {
        let v0 = random_point(width, height, rng);
        let v1 = random_point(width, height, rng);
        let v2 = random_point(width, height, rng);
        let color = Color::random(rng);
        Gene::Triangle { v0, v1, v2, color }
    }

    /// A line segment with end points drawn uniformly on a `width` by
    /// `height` image and a random colour.
    pub fn random_line(width: u32, height: u32, rng: &mut StdRng) -> (r: Gene)
        requires
            width > 0,
            height > 0,
        ensures
            r is Line,
            r.within(width as int, height as int),
            drawn_color(r.color_spec()),
    {
        let a = random_point(width, height, rng);
        let b = random_point(width, height, rng);
        let color = Color::random(rng);
        Gene::Line { a, b, color }
    }

    /// Moves every corner or end point within its window; the kind and the
    /// colour stay.
    pub fn mutate(&mut self, width: u32, height: u32, rng: &mut StdRng)
        requires
            old(self).within(width as int, height as int),
        ensures
            final(self).mutation_of(*old(self), width as int, height as int),
            final(self).within(width as int, height as int),
    {
        let moved = match *self {
            Gene::Triangle { v0, v1, v2, color } => {
                let v0 = mutate_point(v0, width, height, TRIANGLE_REACH, rng);
                let v1 = mutate_point(v1, width, height, TRIANGLE_REACH, rng);
                let v2 = mutate_point(v2, width, height, TRIANGLE_REACH, rng);
                Gene::Triangle { v0, v1, v2, color }
            },
            Gene::Line { a, b, color } => {
                let a = mutate_point(a, width, height, LINE_REACH, rng);
                let b = mutate_point(b, width, height, LINE_REACH, rng);
                Gene::Line { a, b, color }
            },
        };
        *self = moved;
    }
}

} // verus!
