//! Integer points, bounding boxes, exact barycentric triangle containment and
//! line segments.

use vstd::arithmetic::div_mod::*;
use vstd::arithmetic::mul::*;
use vstd::prelude::*;

verus! {

/// A point on the pixel grid.
#[derive(Clone, Copy, Debug, PartialEq, Eq, Structural)]
pub struct Point {
    pub x: u32,
    pub y: u32,
}

impl Point {
    pub fn new(x: u32, y: u32) -> (r: Point)
        ensures
            r == (Point { x, y }),
    {
        Point { x, y }
    }
}

pub open spec fn min3(a: u32, b: u32, c: u32) -> u32 {
    if a <= b && a <= c {
        a
    } else if b <= c {
        b
    } else {
        c
    }
}

pub open spec fn max3(a: u32, b: u32, c: u32) -> u32 {
    if a >= b && a >= c {
        a
    } else if b >= c {
        b
    } else {
        c
    }
}

/// The smallest axis-aligned box holding three points: `origin` is its
/// top-left corner and `extent` its bottom-right one, both inclusive.
#[derive(Clone, Copy, Debug, PartialEq, Eq, Structural)]
pub struct BBox {
    pub origin: Point,
    pub extent: Point,
}

pub open spec fn bbox_of(v0: Point, v1: Point, v2: Point) -> BBox {
    BBox {
        origin: Point { x: min3(v0.x, v1.x, v2.x), y: min3(v0.y, v1.y, v2.y) },
        extent: Point { x: max3(v0.x, v1.x, v2.x), y: max3(v0.y, v1.y, v2.y) },
    }
}

fn min3_exec(a: u32, b: u32, c: u32) -> (r: u32)
    ensures
        r == min3(a, b, c),
{
    if a <= b && a <= c {
        a
    } else if b <= c {
        b
    } else {
        c
    }
}

fn max3_exec(a: u32, b: u32, c: u32) -> (r: u32)
    ensures
        r == max3(a, b, c),
{
    if a >= b && a >= c {
        a
    } else if b >= c {
        b
    } else {
        c
    }
}

impl BBox {
    pub open spec fn columns(self) -> int {
        self.extent.x - self.origin.x + 1
    }

    pub open spec fn rows(self) -> int {
        self.extent.y - self.origin.y + 1
    }

    /// Every point of the box, inclusive of both corners, row by row from the
    /// top-left one.
    pub open spec fn points_spec(self) -> Seq<Point> {
        Seq::new(
            (self.columns() * self.rows()) as nat,
            |k: int|
                Point {
                    x: (self.origin.x + k % self.columns()) as u32,
                    y: (self.origin.y + k / self.columns()) as u32,
                },
        )
    }

    /// The bounding box of three points.
    pub fn new(v0: &Point, v1: &Point, v2: &Point) -> (r: BBox)
        ensures
            r == bbox_of(*v0, *v1, *v2),
    {
        BBox {
            origin: Point {
                x: min3_exec(v0.x, v1.x, v2.x),
                y: min3_exec(v0.y, v1.y, v2.y),
            },
            extent: Point {
                x: max3_exec(v0.x, v1.x, v2.x),
                y: max3_exec(v0.y, v1.y, v2.y),
            },
        }
    }

    pub fn xmin(&self) -> (r: u32)
        ensures
            r == self.origin.x,
    {
        self.origin.x
    }

    pub fn xmax(&self) -> (r: u32)
        ensures
            r == self.extent.x,
    {
        self.extent.x
    }

    pub fn ymin(&self) -> (r: u32)
        ensures
            r == self.origin.y,
    {
        self.origin.y
    }

    pub fn ymax(&self) -> (r: u32)
        ensures
            r == self.extent.y,
    {
        self.extent.y
    }

    /// The points of the box in row-major order.
    pub fn points(&self) -> (r: Vec<Point>)
        requires
            self.origin.x <= self.extent.x,
            self.origin.y <= self.extent.y,
            self.columns() * self.rows() <= usize::MAX,
        ensures
            r@ == self.points_spec(),
    {
        let ghost target = self.points_spec();
        let cols: u64 = (self.extent.x - self.origin.x) as u64 + 1;
        let rows: u64 = (self.extent.y - self.origin.y) as u64 + 1;
        let mut pts: Vec<Point> = Vec::new();
        let mut row: u64 = 0;
        proof {
            lemma_mul_basics(cols as int);
        }
        while row < rows
            invariant
                cols == self.columns(),
                rows == self.rows(),
                self.origin.x <= self.extent.x,
                self.origin.y <= self.extent.y,
                cols * rows <= usize::MAX,
                target == self.points_spec(),
                target.len() == cols * rows,
                row <= rows,
                pts@.len() == row * cols,
                forall|k: int| 0 <= k < pts@.len() ==> #[trigger] pts@[k] == target[k],
            decreases rows - row,
        {
            proof {
                lemma_mul_is_distributive_add_other_way(cols as int, row as int, 1);
                lemma_mul_inequality(row + 1, rows as int, cols as int);
                lemma_mul_is_commutative(cols as int, rows as int);
            }
            let mut col: u64 = 0;
            while col < cols
                invariant
                    cols == self.columns(),
                    rows == self.rows(),
                    self.origin.x <= self.extent.x,
                    self.origin.y <= self.extent.y,
                    target == self.points_spec(),
                    target.len() == cols * rows,
                    row < rows,
                    (row + 1) * cols == row * cols + cols,
                    (row + 1) * cols <= cols * rows,
                    col <= cols,
                    pts@.len() == row * cols + col,
                    forall|k: int| 0 <= k < pts@.len() ==> #[trigger] pts@[k] == target[k],
                decreases cols - col,
            {
                let p = Point {
                    x: (self.origin.x as u64 + col) as u32,
                    y: (self.origin.y as u64 + row) as u32,
                };
                proof {
                    lemma_fundamental_div_mod_converse(
                        row * cols + col,
                        cols as int,
                        row as int,
                        col as int,
                    );
                    assert(p == target[row * cols + col]);
                }
                pts.push(p);
                col = col + 1;
            }
            row = row + 1;
        }
        proof {
            lemma_mul_is_commutative(cols as int, rows as int);
        }
        assert(pts@ =~= target);
        pts
    }
}

/// Components of `u = A × B` for `A = (x2 - x0, x1 - x0, x0 - px)` and
/// `B = (y2 - y0, y1 - y0, y0 - py)`.
pub open spec fn cross_x(v0: Point, v1: Point, v2: Point, p: Point) -> int {
    (v1.x - v0.x) * (v0.y - p.y) - (v0.x - p.x) * (v1.y - v0.y)
}

pub open spec fn cross_y(v0: Point, v1: Point, v2: Point, p: Point) -> int {
    (v0.x - p.x) * (v2.y - v0.y) - (v2.x - v0.x) * (v0.y - p.y)
}

/// Twice the signed area of the triangle; zero when it is degenerate.
pub open spec fn cross_z(v0: Point, v1: Point, v2: Point) -> int {
    (v2.x - v0.x) * (v1.y - v0.y) - (v1.x - v0.x) * (v2.y - v0.y)
}

pub open spec fn same_sign(a: int, b: int) -> bool {
    (a > 0 && b > 0) || (a < 0 && b < 0)
}

/// `p` lies strictly inside the triangle: the triangle has non-zero area and
/// the barycentric weights `(1 - (ux + uy) / uz, uy / uz, ux / uz)` of `p`
/// are all strictly positive.
pub open spec fn inside(v0: Point, v1: Point, v2: Point, p: Point) -> bool {
    let ux = cross_x(v0, v1, v2, p);
    let uy = cross_y(v0, v1, v2, p);
    let uz = cross_z(v0, v1, v2);
    uz != 0 && same_sign(uz - ux - uy, uz) && same_sign(uy, uz) && same_sign(ux, uz)
}

/// Barycentric weights in homogeneous form: weight `k` is `wk / denom`.
#[derive(Clone, Copy, Debug, PartialEq, Eq, Structural)]
pub struct Barycentric {
    pub w0: i128,
    pub w1: i128,
    pub w2: i128,
    pub denom: i128,
}

/// A triangle on the pixel grid, with its bounding box.
#[derive(Clone, Copy, Debug, PartialEq, Eq, Structural)]
pub struct Triangle {
    pub v0: Point,
    pub v1: Point,
    pub v2: Point,
    pub bbox: BBox,
}

proof fn lemma_product_bound(a: int, b: int)
    requires
        -0x1_0000_0000 <= a <= 0x1_0000_0000,
        -0x1_0000_0000 <= b <= 0x1_0000_0000,
    ensures
        -0x1_0000_0000_0000_0000 <= a * b <= 0x1_0000_0000_0000_0000,
{
    assert(-0x1_0000_0000_0000_0000 <= a * b <= 0x1_0000_0000_0000_0000) by (nonlinear_arith)
        requires
            -0x1_0000_0000 <= a <= 0x1_0000_0000,
            -0x1_0000_0000 <= b <= 0x1_0000_0000,
    ;
}

proof fn lemma_weighted_above(w0: int, w1: int, w2: int, c0: int, c1: int, c2: int, c: int, m: int)
    requires
        w0 > 0,
        w1 > 0,
        w2 > 0,
        (w0 + w1 + w2) * c == w0 * c0 + w1 * c1 + w2 * c2,
        m <= c0,
        m <= c1,
        m <= c2,
        m < c0 || m < c1 || m < c2,
    ensures
        m < c,
{
    let w = w0 + w1 + w2;
    lemma_mul_is_distributive_sub(w, c, m);
    lemma_mul_is_distributive_add_other_way(m, w0 + w1, w2);
    lemma_mul_is_distributive_add_other_way(m, w0, w1);
    lemma_mul_is_distributive_sub(w0, c0, m);
    lemma_mul_is_distributive_sub(w1, c1, m);
    lemma_mul_is_distributive_sub(w2, c2, m);
    assert(w * (c - m) == w0 * (c0 - m) + w1 * (c1 - m) + w2 * (c2 - m));
    lemma_mul_nonnegative(w0, c0 - m);
    lemma_mul_nonnegative(w1, c1 - m);
    lemma_mul_nonnegative(w2, c2 - m);
    lemma_mul_strictly_positive(w0, c0 - m);
    lemma_mul_strictly_positive(w1, c1 - m);
    lemma_mul_strictly_positive(w2, c2 - m);
    assert(w * (c - m) > 0);
    if c - m <= 0 {
        lemma_mul_nonnegative(w, m - c);
        lemma_mul_unary_negation(w, c - m);
        assert(w * (m - c) == w * (-(c - m)));
    }
}

/// `p` is the weighted mean of the corners, with weights `(uz - ux - uy, uy, ux)`
/// over `uz`, in both coordinates.
proof fn lemma_barycentric_identity(v0: Point, v1: Point, v2: Point, p: Point)
    ensures
        ({
            let ux = cross_x(v0, v1, v2, p);
            let uy = cross_y(v0, v1, v2, p);
            let uz = cross_z(v0, v1, v2);
            &&& uz * p.x == (uz - ux - uy) * v0.x + uy * v1.x + ux * v2.x
            &&& uz * p.y == (uz - ux - uy) * v0.y + uy * v1.y + ux * v2.y
        }),
{
    let (x0, y0, x1, y1, x2, y2, px, py) = (
        v0.x as int,
        v0.y as int,
        v1.x as int,
        v1.y as int,
        v2.x as int,
        v2.y as int,
        p.x as int,
        p.y as int,
    );
    let (a, b, c, d, e, f) = (x1 - x0, x2 - x0, y1 - y0, y2 - y0, x0 - px, y0 - py);
    let ux = a * f - e * c;
    let uy = e * d - b * f;
    let uz = b * c - a * d;
    assert((b * c - a * d) * e + (e * d - b * f) * a + (a * f - e * c) * b == 0)
        by (nonlinear_arith);
    assert((b * c - a * d) * f + (e * d - b * f) * c + (a * f - e * c) * d == 0)
        by (nonlinear_arith);
    lemma_mul_is_distributive_sub(uz, x0, px);
    lemma_mul_is_distributive_sub(uy, x1, x0);
    lemma_mul_is_distributive_sub(ux, x2, x0);
    lemma_mul_is_distributive_sub_other_way(x0, uz - ux, uy);
    lemma_mul_is_distributive_sub_other_way(x0, uz, ux);
    lemma_mul_is_distributive_sub(uz, y0, py);
    lemma_mul_is_distributive_sub(uy, y1, y0);
    lemma_mul_is_distributive_sub(ux, y2, y0);
    lemma_mul_is_distributive_sub_other_way(y0, uz - ux, uy);
    lemma_mul_is_distributive_sub_other_way(y0, uz, ux);
}

/// A coordinate that is the positive weighted mean of three values lies
/// strictly between their minimum and maximum, unless all three are equal.
proof fn lemma_weighted_between(
    w0: int,
    w1: int,
    w2: int,
    z: int,
    c0: u32,
    c1: u32,
    c2: u32,
    c: u32,
)
    requires
        same_sign(w0, z),
        same_sign(w1, z),
        same_sign(w2, z),
        z == w0 + w1 + w2,
        z * c == w0 * c0 + w1 * c1 + w2 * c2,
        !(c0 == c1 && c1 == c2),
    ensures
        min3(c0, c1, c2) < c < max3(c0, c1, c2),
{
    let lo = min3(c0, c1, c2) as int;
    let hi = max3(c0, c1, c2) as int;
    if z > 0 {
        lemma_weighted_above(w0, w1, w2, c0 as int, c1 as int, c2 as int, c as int, lo);
        assert((w0 + w1 + w2) * (-c) == w0 * (-c0) + w1 * (-c1) + w2 * (-c2)) by (nonlinear_arith)
            requires
                (w0 + w1 + w2) * c == w0 * c0 + w1 * c1 + w2 * c2,
        ;
        lemma_weighted_above(w0, w1, w2, -c0, -c1, -c2, -c, -hi);
    } else {
        assert((-w0 + -w1 + -w2) * c == (-w0) * c0 + (-w1) * c1 + (-w2) * c2) by (nonlinear_arith)
            requires
                (w0 + w1 + w2) * c == w0 * c0 + w1 * c1 + w2 * c2,
        ;
        lemma_weighted_above(-w0, -w1, -w2, c0 as int, c1 as int, c2 as int, c as int, lo);
        assert((-w0 + -w1 + -w2) * (-c) == (-w0) * (-c0) + (-w1) * (-c1) + (-w2) * (-c2))
            by (nonlinear_arith)
            requires
                (w0 + w1 + w2) * c == w0 * c0 + w1 * c1 + w2 * c2,
        ;
        lemma_weighted_above(-w0, -w1, -w2, -c0, -c1, -c2, -c, -hi);
    }
}

/// A point strictly inside a triangle lies strictly inside its bounding box:
/// no point on the box's border or beyond it is contained.
pub proof fn lemma_inside_within_bbox(v0: Point, v1: Point, v2: Point, p: Point)
    requires
        inside(v0, v1, v2, p),
    ensures
        bbox_of(v0, v1, v2).origin.x < p.x < bbox_of(v0, v1, v2).extent.x,
        bbox_of(v0, v1, v2).origin.y < p.y < bbox_of(v0, v1, v2).extent.y,
{
    let ux = cross_x(v0, v1, v2, p);
    let uy = cross_y(v0, v1, v2, p);
    let uz = cross_z(v0, v1, v2);
    lemma_barycentric_identity(v0, v1, v2, p);
    let (x0, y0, x1, y1, x2, y2) = (
        v0.x as int,
        v0.y as int,
        v1.x as int,
        v1.y as int,
        v2.x as int,
        v2.y as int,
    );
    assert(!(x0 == x1 && x1 == x2)) by {
        if x0 == x1 && x1 == x2 {
            assert((x2 - x0) * (y1 - y0) - (x1 - x0) * (y2 - y0) == 0) by (nonlinear_arith)
                requires
                    x0 == x1 && x1 == x2,
            ;
        }
    }
    assert(!(y0 == y1 && y1 == y2)) by {
        if y0 == y1 && y1 == y2 {
            assert((x2 - x0) * (y1 - y0) - (x1 - x0) * (y2 - y0) == 0) by (nonlinear_arith)
                requires
                    y0 == y1 && y1 == y2,
            ;
        }
    }
    lemma_weighted_between(uz - ux - uy, uy, ux, uz, v0.x, v1.x, v2.x, p.x);
    lemma_weighted_between(uz - ux - uy, uy, ux, uz, v0.y, v1.y, v2.y, p.y);
}

/// A triangle with non-zero area contains its centroid.
pub proof fn lemma_inside_centroid(v0: Point, v1: Point, v2: Point, p: Point)
    requires
        cross_z(v0, v1, v2) != 0,
        3 * p.x == v0.x + v1.x + v2.x,
        3 * p.y == v0.y + v1.y + v2.y,
    ensures
        inside(v0, v1, v2, p),
{
    let (x0, y0, x1, y1, x2, y2, px, py) = (
        v0.x as int,
        v0.y as int,
        v1.x as int,
        v1.y as int,
        v2.x as int,
        v2.y as int,
        p.x as int,
        p.y as int,
    );
    let ux = (x1 - x0) * (y0 - py) - (x0 - px) * (y1 - y0);
    let uy = (x0 - px) * (y2 - y0) - (x2 - x0) * (y0 - py);
    let uz = (x2 - x0) * (y1 - y0) - (x1 - x0) * (y2 - y0);
    assert(3 * ux == uz && 3 * uy == uz) by (nonlinear_arith)
        requires
            ux == (x1 - x0) * (y0 - py) - (x0 - px) * (y1 - y0),
            uy == (x0 - px) * (y2 - y0) - (x2 - x0) * (y0 - py),
            uz == (x2 - x0) * (y1 - y0) - (x1 - x0) * (y2 - y0),
            3 * px == x0 + x1 + x2,
            3 * py == y0 + y1 + y2,
    ;
}

/// No corner of a triangle lies strictly inside it.
pub proof fn lemma_corners_not_inside(v0: Point, v1: Point, v2: Point)
    ensures
        !inside(v0, v1, v2, v0),
        !inside(v0, v1, v2, v1),
        !inside(v0, v1, v2, v2),
{
    let (x0, y0, x1, y1, x2, y2) = (
        v0.x as int,
        v0.y as int,
        v1.x as int,
        v1.y as int,
        v2.x as int,
        v2.y as int,
    );
    assert(cross_x(v0, v1, v2, v0) == 0) by (nonlinear_arith)
        requires
            cross_x(v0, v1, v2, v0) == (x1 - x0) * (y0 - y0) - (x0 - x0) * (y1 - y0),
    ;
    assert(cross_y(v0, v1, v2, v1) == 0 || cross_x(v0, v1, v2, v1) == 0 || cross_z(v0, v1, v2)
        - cross_x(v0, v1, v2, v1) - cross_y(v0, v1, v2, v1) == 0) by (nonlinear_arith)
        requires
            cross_x(v0, v1, v2, v1) == (x1 - x0) * (y0 - y1) - (x0 - x1) * (y1 - y0),
            cross_y(v0, v1, v2, v1) == (x0 - x1) * (y2 - y0) - (x2 - x0) * (y0 - y1),
            cross_z(v0, v1, v2) == (x2 - x0) * (y1 - y0) - (x1 - x0) * (y2 - y0),
    ;
    assert(cross_y(v0, v1, v2, v2) == 0 || cross_x(v0, v1, v2, v2) == 0 || cross_z(v0, v1, v2)
        - cross_x(v0, v1, v2, v2) - cross_y(v0, v1, v2, v2) == 0) by (nonlinear_arith)
        requires
            cross_x(v0, v1, v2, v2) == (x1 - x0) * (y0 - y2) - (x0 - x2) * (y1 - y0),
            cross_y(v0, v1, v2, v2) == (x0 - x2) * (y2 - y0) - (x2 - x0) * (y0 - y2),
            cross_z(v0, v1, v2) == (x2 - x0) * (y1 - y0) - (x1 - x0) * (y2 - y0),
    ;
}

impl Triangle {
    pub open spec fn contains_spec(self, p: Point) -> bool {
        inside(self.v0, self.v1, self.v2, p)
    }

    pub open spec fn wf(self) -> bool {
        self.bbox == bbox_of(self.v0, self.v1, self.v2)
    }

    /// The triangle with the given corners.
    pub fn new(v0x: u32, v0y: u32, v1x: u32, v1y: u32, v2x: u32, v2y: u32) -> (r: Triangle)
        ensures
            r.v0 == (Point { x: v0x, y: v0y }),
            r.v1 == (Point { x: v1x, y: v1y }),
            r.v2 == (Point { x: v2x, y: v2y }),
            r.wf(),
    {
        let v0 = Point::new(v0x, v0y);
        let v1 = Point::new(v1x, v1y);
        let v2 = Point::new(v2x, v2y);
        let bbox = BBox::new(&v0, &v1, &v2);
        Triangle { v0, v1, v2, bbox }
    }

    /// Barycentric weights of `p`, or `None` where the triangle has no area.
    pub fn barycentric(&self, p: &Point) -> (r: Option<Barycentric>)
        ensures
            match r {
                None => cross_z(self.v0, self.v1, self.v2) == 0,
                Some(w) => {
                    &&& w.denom == cross_z(self.v0, self.v1, self.v2)
                    &&& w.denom != 0
                    &&& w.w2 == cross_x(self.v0, self.v1, self.v2, *p)
                    &&& w.w1 == cross_y(self.v0, self.v1, self.v2, *p)
                    &&& w.w0 == w.denom - w.w1 - w.w2
                },
            },
    {
        let ax = self.v2.x as i128 - self.v0.x as i128;
        let ay = self.v1.x as i128 - self.v0.x as i128;
        let az = self.v0.x as i128 - p.x as i128;
        let bx = self.v2.y as i128 - self.v0.y as i128;
        let by = self.v1.y as i128 - self.v0.y as i128;
        let bz = self.v0.y as i128 - p.y as i128;
        proof {
            lemma_product_bound(ay as int, bz as int);
            lemma_product_bound(az as int, by as int);
            lemma_product_bound(az as int, bx as int);
            lemma_product_bound(ax as int, bz as int);
            lemma_product_bound(ax as int, by as int);
            lemma_product_bound(ay as int, bx as int);
        }
        let ux = ay * bz - az * by;
        let uy = az * bx - ax * bz;
        let uz = ax * by - ay * bx;
        if uz == 0 {
            None
        } else {
            Some(Barycentric { w0: uz - ux - uy, w1: uy, w2: ux, denom: uz })
        }
    }

    /// Whether `p` lies strictly inside the triangle.
    pub fn contains(&self, p: &Point) -> (r: bool)
        ensures
            r == self.contains_spec(*p),
    {
        match self.barycentric(p) {
            Some(w) => {
                let pos = w.denom > 0;
                if pos {
                    w.w0 > 0 && w.w1 > 0 && w.w2 > 0
                } else {
                    w.w0 < 0 && w.w1 < 0 && w.w2 < 0
                }
            },
            None => false,
        }
    }
}

/// Rows moved by the `k`-th point of a line that advances `dx > 0` columns
/// and `dy` rows. The error `k * dy / dx` accumulates and the row moves once
/// it reaches one half, so the count is `k * dy / dx` rounded half up, but
/// never more than one row per column.
pub open spec fn line_steps(dx: int, dy: int, k: int) -> int {
    let rounded = (2 * (k * dy) + dx) / (2 * dx);
    if rounded < k {
        rounded
    } else {
        k
    }
}

pub open spec fn distance(a: u32, b: u32) -> int {
    if a >= b {
        a - b
    } else {
        b - a
    }
}

/// The points of the segment from `a` to `b`. Horizontal and vertical
/// segments list every point between the ends; any other segment runs from
/// its left end to its right end, one point per column, its row following
/// `line_steps`.
pub open spec fn segment(a: Point, b: Point) -> Seq<Point> {
    if a.y == b.y {
        let x0 = if a.x <= b.x {
            a.x
        } else {
            b.x
        };
        Seq::new((distance(a.x, b.x) + 1) as nat, |k: int| Point { x: (x0 + k) as u32, y: a.y })
    } else if a.x == b.x {
        let y0 = if a.y <= b.y {
            a.y
        } else {
            b.y
        };
        Seq::new((distance(a.y, b.y) + 1) as nat, |k: int| Point { x: a.x, y: (y0 + k) as u32 })
    } else {
        let p = if a.x < b.x {
            a
        } else {
            b
        };
        let q = if a.x < b.x {
            b
        } else {
            a
        };
        let dx = q.x - p.x;
        let dy = distance(p.y, q.y);
        Seq::new(
            (dx + 1) as nat,
            |k: int|
                Point {
                    x: (p.x + k) as u32,
                    y: (if q.y > p.y {
                        p.y + line_steps(dx, dy, k)
                    } else {
                        p.y - line_steps(dx, dy, k)
                    }) as u32,
                },
        )
    }
}

/// `n / d >= m` exactly when `n >= m * d`.
proof fn lemma_floor_ge(n: int, d: int, m: int)
    requires
        d > 0,
        n >= 0,
    ensures
        n / d >= m <==> n >= m * d,
{
    lemma_fundamental_div_mod(n, d);
    lemma_mod_pos_bound(n, d);
    let q = n / d;
    lemma_mul_is_commutative(d, q);
    if q >= m {
        lemma_mul_inequality(m, q, d);
    } else {
        lemma_mul_inequality(q + 1, m, d);
        lemma_mul_is_distributive_add_other_way(d, q, 1);
    }
}

/// One step of the error accumulation: with `e = 2 * (k * dy) - 2 * dx * s`
/// for the rows `s` moved so far, the next point moves one more row exactly
/// when `e + 2 * dy` reaches `dx`.
proof fn lemma_line_step(dx: int, dy: int, k: int)
    requires
        dx > 0,
        dy >= 0,
        k >= 0,
    ensures
        line_steps(dx, dy, k + 1) == if 2 * ((k + 1) * dy) - 2 * dx * line_steps(dx, dy, k) >= dx {
            line_steps(dx, dy, k) + 1
        } else {
            line_steps(dx, dy, k)
        },
        0 <= line_steps(dx, dy, k) <= k,
{
    let d = 2 * dx;
    let n0 = 2 * (k * dy) + dx;
    let n1 = 2 * ((k + 1) * dy) + dx;
    lemma_mul_is_distributive_add_other_way(dy, k, 1);
    assert(n1 == n0 + 2 * dy);
    lemma_mul_nonnegative(k, dy);
    let f0 = n0 / d;
    let f1 = n1 / d;
    lemma_div_is_ordered(n0, n1, d);
    lemma_div_pos_is_pos(n0, d);
    let s = line_steps(dx, dy, k);
    assert(s == if f0 < k { f0 } else { k });
    lemma_floor_ge(n1, d, s + 1);
    lemma_mul_is_distributive_add_other_way(d, s, 1);
    assert(2 * dx * s == d * s);
    lemma_mul_is_commutative(d, s);
    lemma_mul_is_commutative(d, s + 1);
    if f0 < k {
        if dy >= dx {
            lemma_mul_inequality(dx, dy, k);
            lemma_mul_is_commutative(dx, k);
            lemma_mul_is_commutative(dy, k);
            assert(k * d == 2 * (k * dx)) by (nonlinear_arith)
                requires
                    d == 2 * dx,
            ;
            lemma_floor_ge(n0, d, k);
        }
        lemma_floor_ge(n0, d, f0 + 1);
        lemma_floor_ge(n1, d, f0 + 2);
        lemma_mul_is_distributive_add_other_way(d, f0 + 1, 1);
        lemma_mul_is_commutative(d, f0 + 1);
        lemma_mul_is_commutative(d, f0 + 2);
    }
}

/// Rows moved along a segment stay within its height.
proof fn lemma_line_steps_bound(dx: int, dy: int, k: int)
    requires
        dx > 0,
        dy >= 0,
        0 <= k <= dx,
    ensures
        0 <= line_steps(dx, dy, k) <= dy,
{
    let d = 2 * dx;
    lemma_mul_inequality(k, dx, dy);
    lemma_mul_is_commutative(dx, dy);
    lemma_mul_nonnegative(k, dy);
    lemma_div_is_ordered(2 * (k * dy) + dx, 2 * (dx * dy) + dx, d);
    lemma_div_pos_is_pos(2 * (k * dy) + dx, d);
    lemma_floor_ge(2 * (dx * dy) + dx, d, dy + 1);
    assert((dy + 1) * d == 2 * (dx * dy) + 2 * dx) by (nonlinear_arith)
        requires
            d == 2 * dx,
    ;
}

/// No point of a segment is listed twice.
pub proof fn lemma_segment_distinct(a: Point, b: Point)
    ensures
        forall|j: int, k: int|
            0 <= j < k < segment(a, b).len() ==> #[trigger] segment(a, b)[j] != #[trigger] segment(
                a,
                b,
            )[k],
{
}

/// The points of the segment from `a` to `b`, in the order they are drawn.
pub fn line_points(a: &Point, b: &Point) -> (r: Vec<Point>)
    ensures
        r@ == segment(*a, *b),
{
    let ghost seg = segment(*a, *b);
    let mut pts: Vec<Point> = Vec::new();
    if a.y == b.y || a.x == b.x {
        let horizontal = a.y == b.y;
        let (lo, hi) = if horizontal {
            if a.x <= b.x {
                (a.x, b.x)
            } else {
                (b.x, a.x)
            }
        } else if a.y <= b.y {
            (a.y, b.y)
        } else {
            (b.y, a.y)
        };
        let n: u64 = (hi - lo) as u64 + 1;
        assert(seg.len() == n);
        let mut k: u64 = 0;
        while k < n
            invariant
                horizontal == (a.y == b.y),
                horizontal || a.x == b.x,
                horizontal ==> lo == (if a.x <= b.x { a.x } else { b.x }),
                !horizontal ==> lo == (if a.y <= b.y { a.y } else { b.y }),
                n == hi - lo + 1,
                seg == segment(*a, *b),
                seg.len() == n,
                pts@.len() == k,
                k <= n,
                forall|j: int| 0 <= j < k ==> #[trigger] pts@[j] == seg[j],
            decreases n - k,
        {
            let c = (lo as u64 + k) as u32;
            if horizontal {
                pts.push(Point { x: c, y: a.y });
            } else {
                pts.push(Point { x: a.x, y: c });
            }
            k = k + 1;
        }
    } else {
        let p = if a.x < b.x {
            *a
        } else {
            *b
        };
        let q = if a.x < b.x {
            *b
        } else {
            *a
        };
        let up = q.y > p.y;
        let dx = (q.x - p.x) as u64;
        let dy = (if up {
            q.y - p.y
        } else {
            p.y - q.y
        }) as u64;
        assert(seg.len() == dx + 1);
        let mut steps: u64 = 0;
        let mut e: i128 = 0;
        let mut k: u64 = 0;
        while k <= dx
            invariant
                a.y != b.y,
                a.x != b.x,
                p == (if a.x < b.x { *a } else { *b }),
                q == (if a.x < b.x { *b } else { *a }),
                up == (q.y > p.y),
                dx == q.x - p.x,
                dx > 0,
                dy == distance(p.y, q.y),
                seg == segment(*a, *b),
                seg.len() == dx + 1,
                k <= dx + 1,
                steps == line_steps(dx as int, dy as int, k as int),
                steps <= k,
                e == 2 * (k * dy) - 2 * dx * steps,
                pts@.len() == k,
                forall|j: int| 0 <= j < k ==> #[trigger] pts@[j] == seg[j],
            decreases dx + 1 - k,
        {
            proof {
                lemma_line_steps_bound(dx as int, dy as int, k as int);
                lemma_line_step(dx as int, dy as int, k as int);
                lemma_mul_inequality(k as int, dx as int + 1, dy as int);
                lemma_mul_nonnegative(k as int, dy as int);
                lemma_mul_upper_bound(2 * dx as int, 0x2_0000_0000, steps as int, 0x1_0000_0000);
                lemma_mul_upper_bound(dx as int + 1, 0x1_0000_0000, dy as int, 0x1_0000_0000);
                lemma_mul_is_distributive_add_other_way(dy as int, k as int, 1);
                lemma_mul_is_distributive_add(2 * dx as int, steps as int, 1);
            }
            let y = if up {
                p.y + steps as u32
            } else {
                p.y - steps as u32
            };
            pts.push(Point { x: p.x + k as u32, y });
            e = e + 2 * (dy as i128);
            if e >= dx as i128 {
                steps = steps + 1;
                e = e - 2 * (dx as i128);
            }
            k = k + 1;
        }
    }
    assert(pts@ =~= seg);
    pts
}

} // verus!
