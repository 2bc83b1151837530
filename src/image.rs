//! Candidate images: a gene list, the pixels it renders to, the tiling
//! downsampler and the squared-error score against a reference.

use crate::color::{blend, lemma_blend_opaque_top, square_difference, white, Color, Pixel};
use crate::gene::{drawn_color, genes_mutated, genes_within, Gene};
use crate::geometry::{
    inside, lemma_inside_within_bbox, lemma_segment_distinct, line_points, segment, Point, Triangle,
};
use rand::rngs::StdRng;
use vstd::arithmetic::div_mod::*;
use vstd::arithmetic::mul::*;
use vstd::prelude::*;

verus! {

/// Number of genes in a freshly created candidate.
pub const GENE_COUNT: usize = 10;

/// The point of the pixel stored at index `i` of a row-major buffer of
/// rows `w` pixels wide.
pub open spec fn point_of(i: int, w: int) -> Point {
    Point { x: (i % w) as u32, y: (i / w) as u32 }
}

/// `px` with every pixel strictly inside the triangle composited with `c`.
pub open spec fn paint(px: Seq<Pixel>, w: int, v0: Point, v1: Point, v2: Point, c: Color) -> Seq<
    Pixel,
> {
    Seq::new(
        px.len(),
        |i: int|
            if inside(v0, v1, v2, point_of(i, w)) {
                Pixel::of(blend(px[i].color(), c))
            } else {
                px[i]
            },
    )
}

/// `px` with every pixel at one of `pts` composited with `c` once.
pub open spec fn paint_points(px: Seq<Pixel>, w: int, pts: Seq<Point>, c: Color) -> Seq<Pixel> {
    Seq::new(
        px.len(),
        |i: int|
            if pts.contains(point_of(i, w)) {
                Pixel::of(blend(px[i].color(), c))
            } else {
                px[i]
            },
    )
}

/// `q` is one of the first `n` of `pts`.
spec fn among(pts: Seq<Point>, n: int, q: Point) -> bool {
    exists|j: int| 0 <= j < n && pts[j] == q
}

/// `n` white pixels.
pub open spec fn blank(n: nat) -> Seq<Pixel> {
    Seq::new(n, |i: int| Pixel::of(white()))
}

/// `px` with one gene painted over it.
pub open spec fn paint_gene(px: Seq<Pixel>, w: int, g: Gene) -> Seq<Pixel> {
    match g {
        Gene::Triangle { v0, v1, v2, color } => paint(px, w, v0, v1, v2, color),
        Gene::Line { a, b, color } => paint_points(px, w, segment(a, b), color),
    }
}

/// A white buffer of `n` pixels with the first `k` genes painted in order.
pub open spec fn render_first(genes: Seq<Gene>, w: int, n: nat, k: int) -> Seq<Pixel>
    decreases k,
{
    if k <= 0 {
        blank(n)
    } else {
        paint_gene(render_first(genes, w, n, k - 1), w, genes[k - 1])
    }
}

/// The pixels that `genes` render to on a `w` by `h` image.
pub open spec fn rendered(genes: Seq<Gene>, w: int, h: int) -> Seq<Pixel> {
    render_first(genes, w, (w * h) as nat, genes.len() as int)
}

/// The score of a candidate: `1 - error / (samples² · 256²)`, where `error` is
/// the sum of squared channel differences and `samples` the number of
/// reference bytes compared. Higher is better; zero error is a perfect match.
#[derive(Clone, Copy, Debug, PartialEq, Eq, Structural)]
pub struct Fitness {
    pub error: u64,
    pub samples: u64,
}

/// A candidate image: genes, the pixel buffer they were rendered to, and the
/// fitness of the last scoring.
pub struct RandomImage {
    width: u32,
    height: u32,
    pixels: Vec<Pixel>,
    genes: Vec<Gene>,
    fitness: Option<Fitness>,
}

/// What a `RandomImage` holds.
pub struct ImageModel {
    pub width: u32,
    pub height: u32,
    pub pixels: Seq<Pixel>,
    pub genes: Seq<Gene>,
    pub fitness: Option<Fitness>,
}

impl View for RandomImage {
    type V = ImageModel;

    closed spec fn view(&self) -> ImageModel {
        ImageModel {
            width: self.width,
            height: self.height,
            pixels: self.pixels@,
            genes: self.genes@,
            fitness: self.fitness,
        }
    }
}

/// Channel `c` of a pixel: red, green, blue, then alpha.
pub open spec fn channel(p: Pixel, c: int) -> int {
    if c == 0 {
        p.r as int
    } else if c == 1 {
        p.g as int
    } else if c == 2 {
        p.b as int
    } else {
        p.a as int
    }
}

/// Sum of channel `c` over the `n` pixels of row `y` that start at column `x0`.
pub open spec fn row_sum(px: Seq<Pixel>, w: int, x0: int, y: int, n: int, c: int) -> int
    decreases n,
{
    if n <= 0 {
        0
    } else {
        row_sum(px, w, x0, y, n - 1, c) + channel(px[y * w + x0 + n - 1], c)
    }
}

/// Sum of channel `c` over the first `rows` rows of the `tw` wide tile whose
/// top-left corner is `(x0, y0)`.
pub open spec fn tile_sum(px: Seq<Pixel>, w: int, x0: int, y0: int, tw: int, rows: int, c: int) -> int
    decreases rows,
{
    if rows <= 0 {
        0
    } else {
        tile_sum(px, w, x0, y0, tw, rows - 1, c) + row_sum(px, w, x0, y0 + rows - 1, tw, c)
    }
}

/// The opaque pixel holding the truncated mean colour of tile `(col, row)`
/// of size `tw` by `th`.
pub open spec fn tile_average(px: Seq<Pixel>, w: int, tw: int, th: int, col: int, row: int) -> Pixel {
    let n = tw * th;
    Pixel {
        r: (tile_sum(px, w, col * tw, row * th, tw, th, 0) / n) as u8,
        g: (tile_sum(px, w, col * tw, row * th, tw, th, 1) / n) as u8,
        b: (tile_sum(px, w, col * tw, row * th, tw, th, 2) / n) as u8,
        a: 255,
    }
}

/// A `w` by `h` buffer shrunk to `sw` by `sh` by averaging tiles of
/// `w / sw` by `h / sh` pixels; pixels beyond the last whole tile are dropped.
pub open spec fn shrunk(px: Seq<Pixel>, w: int, h: int, sw: int, sh: int) -> Seq<Pixel> {
    Seq::new((sw * sh) as nat, |k: int| tile_average(px, w, w / sw, h / sh, k % sw, k / sw))
}

pub open spec fn sq(d: int) -> int {
    d * d
}

/// Squared channel differences of one pixel against the four bytes of `v`
/// from `base`.
pub open spec fn pixel_error(p: Pixel, v: Seq<u8>, base: int) -> int {
    sq(p.r - v[base]) + sq(p.g - v[base + 1]) + sq(p.b - v[base + 2]) + sq(p.a - v[base + 3])
}

/// Squared error of the first `n` pixels against RGBA bytes `v`.
pub open spec fn squared_error(px: Seq<Pixel>, v: Seq<u8>, n: int) -> int
    decreases n,
{
    if n <= 0 {
        0
    } else {
        squared_error(px, v, n - 1) + pixel_error(px[n - 1], v, 4 * (n - 1))
    }
}

/// Score of pixels against reference bytes, four per pixel.
pub open spec fn comparison(px: Seq<Pixel>, v: Seq<u8>) -> Fitness {
    Fitness { error: squared_error(px, v, px.len() as int) as u64, samples: v.len() as u64 }
}

/// Score of `genes` on a `w` by `h` image against a `rw` by `rh` reference.
pub open spec fn score(genes: Seq<Gene>, w: int, h: int, rw: int, rh: int, reference: Seq<u8>) -> Fitness {
    comparison(shrunk(rendered(genes, w, h), w, h, rw, rh), reference)
}

/// The RGBA bytes of a pixel buffer.
pub open spec fn pixel_bytes(px: Seq<Pixel>) -> Seq<u8> {
    Seq::new(4 * px.len(), |i: int| channel(px[i / 4], i % 4) as u8)
}

/// Painting a fully opaque colour sets every pixel strictly inside the
/// triangle to exactly that colour and leaves every other pixel as it was;
/// on a white buffer, opaque black paints `{0, 0, 0, 255}` inside and keeps
/// `{255, 255, 255, 255}` outside.
pub proof fn lemma_opaque_paint(px: Seq<Pixel>, w: int, v0: Point, v1: Point, v2: Point, c: Color)
    requires
        c.a == 255,
    ensures
        paint(px, w, v0, v1, v2, c).len() == px.len(),
        forall|i: int|
            0 <= i < px.len() ==> #[trigger] paint(px, w, v0, v1, v2, c)[i] == if inside(
                v0,
                v1,
                v2,
                point_of(i, w),
            ) {
                Pixel::of(c)
            } else {
                px[i]
            },
{
    assert forall|i: int| 0 <= i < px.len() implies #[trigger] paint(px, w, v0, v1, v2, c)[i] == if inside(
        v0,
        v1,
        v2,
        point_of(i, w),
    ) {
        Pixel::of(c)
    } else {
        px[i]
    } by {
        lemma_blend_opaque_top(px[i].color(), c);
    }
}

/// Rendering depends on the genes and the dimensions alone: two rendered
/// candidates with equal genes and dimensions hold equal pixels.
pub proof fn lemma_render_deterministic(a: RandomImage, b: RandomImage)
    requires
        a.is_rendered(),
        b.is_rendered(),
        a@.genes == b@.genes,
        a@.width == b@.width,
        a@.height == b@.height,
    ensures
        a@.pixels == b@.pixels,
{
}

proof fn lemma_squared_error_self(px: Seq<Pixel>, n: int)
    requires
        0 <= n <= px.len(),
    ensures
        squared_error(px, pixel_bytes(px), n) == 0,
    decreases n,
{
    if n > 0 {
        lemma_squared_error_self(px, n - 1);
        let v = pixel_bytes(px);
        let b = 4 * (n - 1);
        assert(b / 4 == n - 1 && (b + 1) / 4 == n - 1 && (b + 2) / 4 == n - 1 && (b + 3) / 4 == n - 1);
        assert(b % 4 == 0 && (b + 1) % 4 == 1 && (b + 2) % 4 == 2 && (b + 3) % 4 == 3);
        assert(v[b] == px[n - 1].r && v[b + 1] == px[n - 1].g && v[b + 2] == px[n - 1].b && v[b + 3]
            == px[n - 1].a);
        assert(pixel_error(px[n - 1], v, b) == 0);
    }
}

/// A candidate scored against the bytes of its own rendered and shrunk
/// pixels has zero error, a fitness of exactly 1.
pub proof fn lemma_self_score_is_perfect(genes: Seq<Gene>, w: int, h: int, rw: int, rh: int)
    requires
        0 < rw,
        0 < rh,
    ensures
        score(genes, w, h, rw, rh, pixel_bytes(shrunk(rendered(genes, w, h), w, h, rw, rh))) == (Fitness {
            error: 0,
            samples: (4 * (rw * rh)) as u64,
        }),
{
    let s = shrunk(rendered(genes, w, h), w, h, rw, rh);
    lemma_mul_strictly_positive(rw, rh);
    lemma_squared_error_self(s, s.len() as int);
}

/// A truncated mean of values of at most 255 is at most 255.
proof fn lemma_mean_bound(sum: int, n: int)
    requires
        0 <= sum <= 255 * n,
        n > 0,
    ensures
        0 <= sum / n <= 255,
{
    lemma_div_is_ordered(sum, 255 * n, n);
    lemma_div_by_multiple(255, n);
    lemma_div_pos_is_pos(sum, n);
}

/// Two points of a row-major buffer are the same exactly when their
/// indices are.
proof fn lemma_point_of_index(i: int, w: int, x: u32, y: u32)
    requires
        0 <= i <= u32::MAX,
        0 < w,
        x < w,
    ensures
        point_of(i, w) == (Point { x, y }) <==> i == y * w + x,
{
    lemma_fundamental_div_mod(i, w);
    lemma_mul_is_commutative(w, i / w);
    if i == y * w + x {
        lemma_fundamental_div_mod_converse(i, w, y as int, x as int);
    }
    assert(0 <= i / w <= i) by {
        lemma_div_pos_is_pos(i, w);
        lemma_div_is_ordered_by_denominator(i, 1, w);
    }
}

/// Index `y * w + x` of a point on a `w` by `h` image lies in the buffer.
proof fn lemma_index_in_buffer(x: int, y: int, w: int, h: int)
    requires
        0 <= x < w,
        0 <= y < h,
    ensures
        0 <= y * w + x < w * h,
        y * w <= w * h,
{
    lemma_mul_inequality(y + 1, h, w);
    lemma_mul_is_distributive_add_other_way(w, y, 1);
    lemma_mul_is_commutative(w, h);
    lemma_mul_nonnegative(y, w);
}

/// A pixel of the buffer has its point on the image.
proof fn lemma_point_on_image(i: int, w: int, h: int)
    requires
        0 <= i < w * h,
        0 < w,
        0 < h,
        w * h <= u32::MAX,
    ensures
        point_of(i, w).x == i % w < w,
        point_of(i, w).y == i / w < h,
{
    lemma_mod_pos_bound(i, w);
    lemma_div_pos_is_pos(i, w);
    lemma_multiply_divide_lt(i, w, h);
    lemma_mul_inequality(1, h, w);
    lemma_mul_is_commutative(w, h);
}

/// Where the raster loop has reached: whole rows `ys..y` of the clipped box,
/// and row `y` up to column `x`.
spec fn swept(p: Point, xs: int, xe: int, ys: int, y: int, x: int) -> bool {
    (ys <= p.y < y && xs <= p.x < xe) || (p.y == y && xs <= p.x < x)
}

impl RandomImage {
    /// Dimensions are positive, their product fits in `u32`, and the buffer
    /// holds one pixel per point.
    pub open spec fn wf(&self) -> bool {
        &&& self@.width > 0
        &&& self@.height > 0
        &&& self@.width * self@.height <= u32::MAX
        &&& self@.pixels.len() == self@.width * self@.height
    }

    /// The buffer shows exactly the genes.
    pub open spec fn is_rendered(&self) -> bool {
        self@.pixels == rendered(self@.genes, self@.width as int, self@.height as int)
    }

    pub fn width(&self) -> (r: u32)
        ensures
            r == self@.width,
    {
        self.width
    }

    pub fn height(&self) -> (r: u32)
        ensures
            r == self@.height,
    {
        self.height
    }

    /// Number of pixels.
    pub fn size(&self) -> (r: usize)
        requires
            self.wf(),
        ensures
            r == self@.width * self@.height,
    {
        (self.width as usize) * (self.height as usize)
    }

    /// The pixel buffer, row-major.
    pub fn pixels(&self) -> (r: &[Pixel])
        ensures
            r@ == self@.pixels,
    {
        self.pixels.as_slice()
    }

    /// The genes, in painting order.
    pub fn genes(&self) -> (r: &[Gene])
        ensures
            r@ == self@.genes,
    {
        self.genes.as_slice()
    }

    /// The score of the last scoring, if any.
    pub fn fitness(&self) -> (r: Option<Fitness>)
        ensures
            r == self@.fitness,
    {
        self.fitness
    }

    /// Whether `(x, y)` is a point of the image.
    pub fn in_bounds(&self, x: i32, y: i32) -> (r: bool)
        ensures
            r == (0 <= x < self@.width && 0 <= y < self@.height),
    {
        x >= 0 && (x as u32) < self.width && y >= 0 && (y as u32) < self.height
    }

    /// Index of point `(x, y)` in the row-major buffer.
    fn pixel_index(&self, x: u32, y: u32) -> (r: usize)
        requires
            self.wf(),
            x < self@.width,
            y < self@.height,
        ensures
            r == y * self@.width + x,
            r < self@.pixels.len(),
            point_of(r as int, self@.width as int) == (Point { x, y }),
    {
        proof {
            lemma_index_in_buffer(x as int, y as int, self.width as int, self.height as int);
            lemma_point_of_index(y * self.width + x, self.width as int, x, y);
        }
        (y as usize) * (self.width as usize) + (x as usize)
    }

    /// The pixel at `(x, y)`.
    pub fn get_pixel(&self, x: u32, y: u32) -> (r: Pixel)
        requires
            self.wf(),
            x < self@.width,
            y < self@.height,
        ensures
            r == self@.pixels[y * self@.width + x],
    {
        self.pixels[self.pixel_index(x, y)]
    }

    /// Composites `color` onto every pixel strictly inside the triangle.
    fn triangle(
        &mut self,
        v0x: u32,
        v0y: u32,
        v1x: u32,
        v1y: u32,
        v2x: u32,
        v2y: u32,
        color: &Color,
    )
        requires
            old(self).wf(),
        ensures
            final(self)@ == (ImageModel {
                pixels: paint(
                    old(self)@.pixels,
                    old(self)@.width as int,
                    Point { x: v0x, y: v0y },
                    Point { x: v1x, y: v1y },
                    Point { x: v2x, y: v2y },
                    *color,
                ),
                ..old(self)@
            }),
    {
        let t = Triangle::new(v0x, v0y, v1x, v1y, v2x, v2y);
        let ghost old_px = self.pixels@;
        let ghost w = self.width as int;
        let ghost h = self.height as int;
        let xs = t.bbox.xmin();
        let ys = t.bbox.ymin();
        let mut xe = if t.bbox.xmax() < self.width {
            t.bbox.xmax()
        } else {
            self.width
        };
        if xe < xs {
            xe = xs;
        }
        let mut ye = if t.bbox.ymax() < self.height {
            t.bbox.ymax()
        } else {
            self.height
        };
        if ye < ys {
            ye = ys;
        }
        let ghost target = paint(old_px, w, t.v0, t.v1, t.v2, *color);
        assert(target.len() == old_px.len());
        let mut y = ys;
        while y < ye
            invariant
                self.wf(),
                self@ == (ImageModel { pixels: self@.pixels, ..old(self)@ }),
                w == self@.width,
                h == self@.height,
                old_px.len() == self@.pixels.len(),
                target == paint(old_px, w, t.v0, t.v1, t.v2, *color),
                target.len() == old_px.len(),
                t.wf(),
                xs == t.bbox.origin.x,
                ys == t.bbox.origin.y,
                xs <= xe,
                xe <= w || xe == xs,
                ys <= y <= ye,
                ye <= h || ye == ys,
                forall|i: int|
                    0 <= i < old_px.len() ==> #[trigger] self@.pixels[i] == if swept(
                        point_of(i, w),
                        xs as int,
                        xe as int,
                        ys as int,
                        y as int,
                        xs as int,
                    ) {
                        target[i]
                    } else {
                        old_px[i]
                    },
            decreases ye - y,
        {
            let mut x = xs;
            while x < xe
                invariant
                    self.wf(),
                    self@ == (ImageModel { pixels: self@.pixels, ..old(self)@ }),
                    w == self@.width,
                    h == self@.height,
                    old_px.len() == self@.pixels.len(),
                    target == paint(old_px, w, t.v0, t.v1, t.v2, *color),
                target.len() == old_px.len(),
                    t.wf(),
                    xs == t.bbox.origin.x,
                    ys == t.bbox.origin.y,
                    xe <= w || xe == xs,
                    ys <= y < ye,
                    ye <= h || ye == ys,
                    xs <= x <= xe,
                    forall|i: int|
                        0 <= i < old_px.len() ==> #[trigger] self@.pixels[i] == if swept(
                            point_of(i, w),
                            xs as int,
                            xe as int,
                            ys as int,
                            y as int,
                            x as int,
                        ) {
                            target[i]
                        } else {
                            old_px[i]
                        },
                decreases xe - x,
            {
                let p = Point::new(x, y);
                let idx = self.pixel_index(x, y);
                proof {
                    assert forall|i: int| 0 <= i < old_px.len() && i != idx implies point_of(i, w)
                        != p by {
                        lemma_point_on_image(i, w, h);
                        lemma_point_of_index(i, w, x, y);
                    }
                }
                let ghost before = self@.pixels;
                assert(!swept(p, xs as int, xe as int, ys as int, y as int, x as int));
                assert(before[idx as int] == old_px[idx as int]);
                if t.contains(&p) {
                    let mut px = self.pixels[idx];
                    px.add_color(color);
                    self.pixels.set(idx, px);
                }
                proof {
                    assert(self@.pixels[idx as int] == target[idx as int]);
                    assert forall|i: int| 0 <= i < old_px.len() && i != idx implies #[trigger] self@.pixels[i]
                        == before[i] by {}
                }
                x += 1;
            }
            y += 1;
        }
        proof {
            assert forall|i: int| 0 <= i < old_px.len() implies #[trigger] self@.pixels[i]
                == target[i] by {
                lemma_point_on_image(i, w, h);
                let q = point_of(i, w);
                if inside(t.v0, t.v1, t.v2, q) {
                    lemma_inside_within_bbox(t.v0, t.v1, t.v2, q);
                }
            }
            assert(self@.pixels =~= paint(
                old_px,
                w,
                Point { x: v0x, y: v0y },
                Point { x: v1x, y: v1y },
                Point { x: v2x, y: v2y },
                *color,
            ));
        }
    }

    /// Clears the buffer to white and paints every gene in list order.
    pub fn render(&mut self)
        requires
            old(self).wf(),
        ensures
            final(self)@ == (ImageModel {
                pixels: rendered(old(self)@.genes, old(self)@.width as int, old(self)@.height as int),
                ..old(self)@
            }),
            final(self).wf(),
            final(self).is_rendered(),
    {
        let ghost w = self.width as int;
        let ghost h = self.height as int;
        let n = self.pixels.len();
        let paper = Color::white();
        for i in 0..n
            invariant
                self.wf(),
                self@ == (ImageModel { pixels: self@.pixels, ..old(self)@ }),
                n == self@.pixels.len(),
                paper == white(),
                forall|j: int| 0 <= j < i ==> #[trigger] self@.pixels[j] == Pixel::of(white()),
        {
            let mut p = self.pixels[i];
            p.set_color(&paper);
            self.pixels.set(i, p);
        }
        assert(self@.pixels =~= blank(n as nat));
        let count = self.genes.len();
        for k in 0..count
            invariant
                self.wf(),
                self@ == (ImageModel { pixels: self@.pixels, ..old(self)@ }),
                w == self@.width,
                h == self@.height,
                n == w * h,
                count == self@.genes.len(),
                self@.pixels == render_first(self@.genes, w, n as nat, k as int),
        {
            match self.genes[k] {
                Gene::Triangle { v0, v1, v2, color } => {
                    self.triangle(v0.x, v0.y, v1.x, v1.y, v2.x, v2.y, &color);
                },
                Gene::Line { a, b, color } => {
                    self.line(a.x, a.y, b.x, b.y, &color);
                },
            }
        }
    }

    /// A `width` by `height` candidate with `GENE_COUNT` random triangle
    /// genes, rendered once and not yet scored.
    pub fn new(width: u32, height: u32, rng: &mut StdRng) -> (r: RandomImage)
        requires
            width > 0,
            height > 0,
            width * height <= u32::MAX,
        ensures
            r.wf(),
            r.is_rendered(),
            r@.width == width,
            r@.height == height,
            r@.genes.len() == GENE_COUNT,
            forall|k: int| 0 <= k < GENE_COUNT ==> #[trigger] r@.genes[k] is Triangle,
            forall|k: int| 0 <= k < GENE_COUNT ==> drawn_color(#[trigger] r@.genes[k].color_spec()),
            genes_within(r@.genes, width as int, height as int),
            r@.fitness is None,
    {
        let mut genes: Vec<Gene> = Vec::new();
        for k in 0..GENE_COUNT
            invariant
                genes@.len() == k,
                width > 0,
                height > 0,
                forall|j: int| 0 <= j < k ==> #[trigger] genes@[j] is Triangle,
                forall|j: int| 0 <= j < k ==> drawn_color(#[trigger] genes@[j].color_spec()),
                genes_within(genes@, width as int, height as int),
        {
            genes.push(Gene::random(width, height, rng));
        }
        RandomImage::from_genes(width, height, genes)
    }

    /// A `width` by `height` candidate showing the given genes, rendered and
    /// not yet scored.
    pub fn from_genes(width: u32, height: u32, genes: Vec<Gene>) -> (r: RandomImage)
        requires
            width > 0,
            height > 0,
            width * height <= u32::MAX,
            genes_within(genes@, width as int, height as int),
        ensures
            r.wf(),
            r.is_rendered(),
            r@.width == width,
            r@.height == height,
            r@.genes == genes@,
            r@.fitness is None,
    {
        let size = (width as usize) * (height as usize);
        let paper = Color::white();
        let mut pixels: Vec<Pixel> = Vec::with_capacity(size);
        for i in 0..size
            invariant
                pixels@.len() == i,
        {
            pixels.push(Pixel::of_color(&paper));
        }
        let mut img = RandomImage { width, height, pixels, genes, fitness: None };
        img.render();
        img
    }

    /// Mutates every gene and renders the result; the fitness is left as it
    /// was.
    pub fn mutate(&mut self, rng: &mut StdRng)
        requires
            old(self).wf(),
            genes_within(old(self)@.genes, old(self)@.width as int, old(self)@.height as int),
        ensures
            final(self).wf(),
            final(self).is_rendered(),
            final(self)@.width == old(self)@.width,
            final(self)@.height == old(self)@.height,
            final(self)@.fitness == old(self)@.fitness,
            genes_mutated(
                final(self)@.genes,
                old(self)@.genes,
                old(self)@.width as int,
                old(self)@.height as int,
            ),
            genes_within(final(self)@.genes, old(self)@.width as int, old(self)@.height as int),
    {
        let ghost w = self.width as int;
        let ghost h = self.height as int;
        let n = self.genes.len();
        for k in 0..n
            invariant
                self.wf(),
                self@ == (ImageModel { genes: self@.genes, ..old(self)@ }),
                w == self@.width,
                h == self@.height,
                n == self@.genes.len(),
                forall|j: int|
                    0 <= j < k ==> #[trigger] self@.genes[j].mutation_of(old(self)@.genes[j], w, h),
                forall|j: int| k <= j < n ==> #[trigger] self@.genes[j] == old(self)@.genes[j],
                genes_within(self@.genes, w, h),
        {
            let mut g = self.genes[k];
            g.mutate(self.width, self.height, rng);
            self.genes.set(k, g);
        }
        self.render();
    }

    /// Per-channel sums of red, green and blue over the `tw` by `th` tile at
    /// `(x0, y0)`.
    fn tile_sums(&self, x0: u32, y0: u32, tw: u32, th: u32) -> (r: (u64, u64, u64))
        requires
            self.wf(),
            x0 + tw <= self@.width,
            y0 + th <= self@.height,
        ensures
            r.0 == tile_sum(self@.pixels, self@.width as int, x0 as int, y0 as int, tw as int, th as int, 0),
            r.1 == tile_sum(self@.pixels, self@.width as int, x0 as int, y0 as int, tw as int, th as int, 1),
            r.2 == tile_sum(self@.pixels, self@.width as int, x0 as int, y0 as int, tw as int, th as int, 2),
            r.0 <= 255 * (tw * th),
            r.1 <= 255 * (tw * th),
            r.2 <= 255 * (tw * th),
    {
        let ghost px = self@.pixels;
        let ghost w = self@.width as int;
        proof {
            lemma_mul_upper_bound(tw as int, self.width as int, th as int, self.height as int);
        }
        let mut sr: u64 = 0;
        let mut sg: u64 = 0;
        let mut sb: u64 = 0;
        for dy in 0..th
            invariant
                self.wf(),
                px == self@.pixels,
                w == self@.width,
                x0 + tw <= self@.width,
                y0 + th <= self@.height,
                tw * th <= u32::MAX,
                sr == tile_sum(px, w, x0 as int, y0 as int, tw as int, dy as int, 0),
                sg == tile_sum(px, w, x0 as int, y0 as int, tw as int, dy as int, 1),
                sb == tile_sum(px, w, x0 as int, y0 as int, tw as int, dy as int, 2),
                sr <= 255 * (tw * dy),
                sg <= 255 * (tw * dy),
                sb <= 255 * (tw * dy),
        {
            proof {
                lemma_mul_inequality(dy + 1, th as int, tw as int);
                lemma_mul_is_distributive_add_other_way(tw as int, dy as int, 1);
                lemma_mul_is_commutative(tw as int, dy as int);
                lemma_mul_is_commutative(tw as int, dy + 1);
                lemma_mul_is_commutative(tw as int, th as int);
            }
            for dx in 0..tw
                invariant
                    self.wf(),
                    px == self@.pixels,
                    w == self@.width,
                    x0 + tw <= self@.width,
                    y0 + th <= self@.height,
                    dy < th,
                    tw * (dy + 1) <= u32::MAX,
                    tw * (dy + 1) == tw * dy + tw,
                    sr == tile_sum(px, w, x0 as int, y0 as int, tw as int, dy as int, 0) + row_sum(
                        px,
                        w,
                        x0 as int,
                        y0 + dy,
                        dx as int,
                        0,
                    ),
                    sg == tile_sum(px, w, x0 as int, y0 as int, tw as int, dy as int, 1) + row_sum(
                        px,
                        w,
                        x0 as int,
                        y0 + dy,
                        dx as int,
                        1,
                    ),
                    sb == tile_sum(px, w, x0 as int, y0 as int, tw as int, dy as int, 2) + row_sum(
                        px,
                        w,
                        x0 as int,
                        y0 + dy,
                        dx as int,
                        2,
                    ),
                    sr <= 255 * (tw * dy) + 255 * dx,
                    sg <= 255 * (tw * dy) + 255 * dx,
                    sb <= 255 * (tw * dy) + 255 * dx,
            {
                let p = self.get_pixel(x0 + dx, y0 + dy);
                sr = sr + p.r as u64;
                sg = sg + p.g as u64;
                sb = sb + p.b as u64;
            }
        }
        (sr, sg, sb)
    }

    /// Shrinks the image to `width` by `height`: the same as
    /// `shrink_via_tiling`.
    pub fn shrink(&self, width: u32, height: u32) -> (r: RandomImage)
        requires
            self.wf(),
            0 < width <= self@.width,
            0 < height <= self@.height,
        ensures
            r.wf(),
            r@.pixels.len() == width * height,
            r@ == (ImageModel {
                width,
                height,
                pixels: shrunk(
                    self@.pixels,
                    self@.width as int,
                    self@.height as int,
                    width as int,
                    height as int,
                ),
                genes: Seq::empty(),
                fitness: None,
            }),
    {
        self.shrink_via_tiling(width, height)
    }

    /// Shrinks the image to `width` by `height`, each output pixel the
    /// truncated mean red, green and blue of one tile of
    /// `self.width / width` by `self.height / height` pixels, fully opaque.
    /// Pixels beyond the last whole tile take no part.
    pub fn shrink_via_tiling(&self, width: u32, height: u32) -> (r: RandomImage)
        requires
            self.wf(),
            0 < width <= self@.width,
            0 < height <= self@.height,
        ensures
            r.wf(),
            r@ == (ImageModel {
                width,
                height,
                pixels: shrunk(
                    self@.pixels,
                    self@.width as int,
                    self@.height as int,
                    width as int,
                    height as int,
                ),
                genes: Seq::empty(),
                fitness: None,
            }),
    {
        let ghost px = self@.pixels;
        let ghost w = self.width as int;
        let ghost h = self.height as int;
        let ghost target = shrunk(px, w, h, width as int, height as int);
        let tile_width = self.width / width;
        let tile_height = self.height / height;
        proof {
            lemma_div_is_ordered(width as int, w, width as int);
            lemma_div_is_ordered(height as int, h, height as int);
            lemma_div_basics(width as int);
            lemma_div_basics(height as int);
            lemma_fundamental_div_mod(w, width as int);
            lemma_fundamental_div_mod(h, height as int);
            lemma_mod_pos_bound(w, width as int);
            lemma_mod_pos_bound(h, height as int);
            lemma_mul_is_commutative(width as int, tile_width as int);
            lemma_mul_is_commutative(height as int, tile_height as int);
            lemma_mul_upper_bound(width as int, w, height as int, h);
            lemma_mul_is_commutative(width as int, height as int);
            lemma_mul_strictly_positive(tile_width as int, tile_height as int);
            lemma_mul_upper_bound(tile_width as int, w, tile_height as int, h);
            lemma_mul_basics(width as int);
        }
        assert(target.len() == width * height);
        let size: u64 = tile_width as u64 * tile_height as u64;
        let mut pixels: Vec<Pixel> = Vec::new();
        for tile_row in 0..height
            invariant
                self.wf(),
                px == self@.pixels,
                w == self@.width,
                h == self@.height,
                target == shrunk(px, w, h, width as int, height as int),
                target.len() == width * height,
                0 < width <= w,
                0 < height <= h,
                tile_width == w / width as int,
                tile_height == h / height as int,
                tile_width * width <= w,
                tile_height * height <= h,
                size == tile_width * tile_height,
                size > 0,
                width * height <= u32::MAX,
                pixels@.len() == tile_row * width,
                forall|k: int| 0 <= k < pixels@.len() ==> #[trigger] pixels@[k] == target[k],
        {
            proof {
                lemma_mul_is_distributive_add_other_way(width as int, tile_row as int, 1);
                lemma_mul_inequality(tile_row + 1, height as int, width as int);
                lemma_mul_is_commutative(width as int, height as int);
                lemma_mul_inequality(tile_row + 1, height as int, tile_height as int);
                lemma_mul_is_distributive_add_other_way(tile_height as int, tile_row as int, 1);
                lemma_mul_is_commutative(tile_height as int, height as int);
            }
            for tile_col in 0..width
                invariant
                    self.wf(),
                    px == self@.pixels,
                    w == self@.width,
                    h == self@.height,
                    target == shrunk(px, w, h, width as int, height as int),
                    target.len() == width * height,
                    0 < width <= w,
                    0 < height <= h,
                    tile_width == w / width as int,
                    tile_height == h / height as int,
                    tile_width * width <= w,
                    tile_height * height <= h,
                    size == tile_width * tile_height,
                    size > 0,
                    width * height <= u32::MAX,
                    tile_row < height,
                    (tile_row + 1) * width == tile_row * width + width,
                    (tile_row + 1) * width <= width * height,
                    (tile_row + 1) * tile_height <= tile_height * height,
                    (tile_row + 1) * tile_height == tile_row * tile_height + tile_height,
                    pixels@.len() == tile_row * width + tile_col,
                    forall|k: int| 0 <= k < pixels@.len() ==> #[trigger] pixels@[k] == target[k],
            {
                proof {
                    lemma_mul_inequality(tile_col + 1, width as int, tile_width as int);
                    lemma_mul_is_distributive_add_other_way(tile_width as int, tile_col as int, 1);
                    lemma_mul_is_commutative(tile_width as int, width as int);
                    lemma_mul_is_commutative(tile_height as int, height as int);
                }
                let x0 = tile_col * tile_width;
                let y0 = tile_row * tile_height;
                let (sr, sg, sb) = self.tile_sums(x0, y0, tile_width, tile_height);
                proof {
                    lemma_mean_bound(sr as int, size as int);
                    lemma_mean_bound(sg as int, size as int);
                    lemma_mean_bound(sb as int, size as int);
                }
                let avg = Pixel {
                    r: (sr / size) as u8,
                    g: (sg / size) as u8,
                    b: (sb / size) as u8,
                    a: 255,
                };
                proof {
                    let k = tile_row * width + tile_col;
                    lemma_fundamental_div_mod_converse(
                        k,
                        width as int,
                        tile_row as int,
                        tile_col as int,
                    );
                    assert(avg == target[k]);
                }
                pixels.push(avg);
            }
        }
        proof {
            lemma_mul_is_commutative(width as int, height as int);
            assert(pixels@ =~= target);
        }
        RandomImage { width, height, pixels, genes: Vec::new(), fitness: None }
    }

    /// Scores the pixels against RGBA reference bytes, four per pixel. A
    /// reference of any other length is a caller's error.
    pub fn compare_values(&self, values: &[u8]) -> (r: Fitness)
        requires
            self.wf(),
            values@.len() == 4 * self@.pixels.len(),
        ensures
            r == comparison(self@.pixels, values@),
    {
        let n = self.pixels.len();
        let samples = values.len();
        let ghost px = self@.pixels;
        let mut err: u64 = 0;
        for i in 0..n
            invariant
                px == self@.pixels,
                n == px.len(),
                n <= u32::MAX,
                values@.len() == 4 * n,
                values@.len() == samples,
                err == squared_error(px, values@, i as int),
                err <= 260100 * i,
        {
            let p = self.pixels[i];
            let base = 4 * i;
            err = err + square_difference(p.r, values[base]) as u64;
            err = err + square_difference(p.g, values[base + 1]) as u64;
            err = err + square_difference(p.b, values[base + 2]) as u64;
            err = err + square_difference(p.a, values[base + 3]) as u64;
        }
        Fitness { error: err, samples: samples as u64 }
    }

    /// Scores the pixels against RGBA reference bytes: `compare_values`.
    pub fn calculate_fitness_with_values(&self, values: &[u8]) -> (r: Fitness)
        requires
            self.wf(),
            values@.len() == 4 * self@.pixels.len(),
        ensures
            r == comparison(self@.pixels, values@),
    {
        self.compare_values(values)
    }

    /// Renders, shrinks to the reference's `reference_w` by `reference_h`,
    /// scores against the reference bytes and keeps the result as the
    /// candidate's fitness. The reference must hold four bytes per pixel of
    /// that size.
    pub fn calculate_fitness(&mut self, reference_values: &[u8], reference_w: u32, reference_h: u32) -> (r:
        Fitness)
        requires
            old(self).wf(),
            0 < reference_w <= old(self)@.width,
            0 < reference_h <= old(self)@.height,
            reference_values@.len() == 4 * (reference_w * reference_h),
        ensures
            r == score(
                old(self)@.genes,
                old(self)@.width as int,
                old(self)@.height as int,
                reference_w as int,
                reference_h as int,
                reference_values@,
            ),
            final(self)@ == (ImageModel {
                pixels: rendered(old(self)@.genes, old(self)@.width as int, old(self)@.height as int),
                fitness: Some(r),
                ..old(self)@
            }),
            final(self).wf(),
            final(self).is_rendered(),
    {
        self.render();
        let shrunk = self.shrink(reference_w, reference_h);
        let fitness = shrunk.calculate_fitness_with_values(reference_values);
        self.fitness = Some(fitness);
        fitness
    }

    /// The buffer as RGBA bytes, row-major.
    pub fn to_bytes(&self) -> (r: Vec<u8>)
        requires
            4 * self@.pixels.len() <= usize::MAX,
        ensures
            r@ == pixel_bytes(self@.pixels),
    {
        let ghost px = self@.pixels;
        let n = self.pixels.len();
        let mut bytes: Vec<u8> = Vec::with_capacity(4 * n);
        for i in 0..n
            invariant
                px == self@.pixels,
                n == px.len(),
                4 * n <= usize::MAX,
                bytes@.len() == 4 * i,
                forall|j: int| 0 <= j < 4 * i ==> #[trigger] bytes@[j] == channel(px[j / 4], j % 4) as u8,
        {
            let p = self.pixels[i];
            bytes.push(p.r);
            bytes.push(p.g);
            bytes.push(p.b);
            bytes.push(p.a);
        }
        assert(bytes@ =~= pixel_bytes(px));
        bytes
    }

    /// Composites `color` onto every point of the segment from `(x0, y0)` to
    /// `(x1, y1)` that lies on the image; points off the image are skipped.
    pub fn line(&mut self, x0: u32, y0: u32, x1: u32, y1: u32, color: &Color)
        requires
            old(self).wf(),
        ensures
            final(self)@ == (ImageModel {
                pixels: paint_points(
                    old(self)@.pixels,
                    old(self)@.width as int,
                    segment(Point { x: x0, y: y0 }, Point { x: x1, y: y1 }),
                    *color,
                ),
                ..old(self)@
            }),
    {
        let pts = line_points(&Point::new(x0, y0), &Point::new(x1, y1));
        let ghost old_px = self.pixels@;
        let ghost w = self.width as int;
        let ghost h = self.height as int;
        let ghost target = paint_points(old_px, w, pts@, *color);
        proof {
            lemma_segment_distinct(Point { x: x0, y: y0 }, Point { x: x1, y: y1 });
        }
        let n = pts.len();
        for k in 0..n
            invariant
                self.wf(),
                self@ == (ImageModel { pixels: self@.pixels, ..old(self)@ }),
                w == self@.width,
                h == self@.height,
                n == pts@.len(),
                old_px.len() == self@.pixels.len(),
                target == paint_points(old_px, w, pts@, *color),
                target.len() == old_px.len(),
                forall|j: int, l: int| 0 <= j < l < n ==> #[trigger] pts@[j] != #[trigger] pts@[l],
                forall|i: int|
                    0 <= i < old_px.len() ==> #[trigger] self@.pixels[i] == if among(
                        pts@,
                        k as int,
                        point_of(i, w),
                    ) {
                        Pixel::of(blend(old_px[i].color(), *color))
                    } else {
                        old_px[i]
                    },
        {
            let p = pts[k];
            let ghost before = self@.pixels;
            proof {
                assert forall|i: int| 0 <= i < old_px.len() implies among(pts@, k + 1, point_of(i, w))
                    == (among(pts@, k as int, point_of(i, w)) || point_of(i, w) == p) by {
                    if point_of(i, w) == p {
                        assert(pts@[k as int] == p);
                    }
                    if among(pts@, k + 1, point_of(i, w)) && point_of(i, w) != p {
                        let j = choose|j: int| 0 <= j < k + 1 && pts@[j] == point_of(i, w);
                        assert(0 <= j < k);
                    }
                }
            }
            if p.x < self.width && p.y < self.height {
                let idx = self.pixel_index(p.x, p.y);
                proof {
                    assert forall|i: int| 0 <= i < old_px.len() && i != idx implies point_of(i, w)
                        != p by {
                        lemma_point_on_image(i, w, h);
                        lemma_point_of_index(i, w, p.x, p.y);
                    }
                    if among(pts@, k as int, p) {
                        let j = choose|j: int| 0 <= j < k && pts@[j] == p;
                        assert(pts@[j] != pts@[k as int]);
                    }
                    assert(before[idx as int] == old_px[idx as int]);
                }
                let mut px = self.pixels[idx];
                px.add_color(color);
                self.pixels.set(idx, px);
            } else {
                proof {
                    assert forall|i: int| 0 <= i < old_px.len() implies point_of(i, w) != p by {
                        lemma_point_on_image(i, w, h);
                    }
                }
            }
        }
        proof {
            assert forall|i: int| 0 <= i < old_px.len() implies #[trigger] self@.pixels[i]
                == target[i] by {
                if pts@.contains(point_of(i, w)) {
                    let j = choose|j: int| 0 <= j < n && pts@[j] == point_of(i, w);
                    assert(among(pts@, n as int, point_of(i, w)));
                }
            }
            assert(self@.pixels =~= target);
        }
    }
}

} // verus!
