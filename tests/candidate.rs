use image_evol::{Color, Fitness, Gene, Pixel, Point, RandomImage, GENE_COUNT};
use rand::rngs::StdRng;
use rand::SeedableRng;

fn rng(seed: u64) -> StdRng {
    StdRng::seed_from_u64(seed)
}

fn white() -> Pixel {
    Pixel { r: 255, g: 255, b: 255, a: 255 }
}

#[test]
fn test_image() {
    let i = RandomImage::new(1, 2, &mut rng(1));
    assert_eq!(i.size(), 2);

    let p = i.get_pixel(0, 0);
    assert_eq!(p.r, 255);
    assert_eq!(p, white());
}

#[test]
fn narrow_candidate_stays_white() {
    let i = RandomImage::new(1, 5, &mut rng(2));
    assert_eq!((i.width(), i.height()), (1, 5));
    assert!(i.pixels().iter().all(|p| *p == white()));
    assert_eq!(i.fitness(), None);
}

#[test]
fn render_is_deterministic() {
    let mut a = RandomImage::new(40, 30, &mut rng(3));
    let first: Vec<Pixel> = a.pixels().to_vec();
    a.render();
    assert_eq!(a.pixels(), &first[..]);
    a.render();
    assert_eq!(a.pixels(), &first[..]);
    let b = RandomImage::new(40, 30, &mut rng(3));
    assert_eq!(b.pixels(), &first[..]);
}

#[test]
fn render_paints_something() {
    let painted = (0..20u64).any(|s| {
        let i = RandomImage::new(50, 50, &mut rng(s));
        i.pixels().iter().any(|p| *p != white())
    });
    assert!(painted);
}

#[test]
fn bounds_and_indexing() {
    let i = RandomImage::new(4, 3, &mut rng(4));
    assert!(i.in_bounds(0, 0));
    assert!(i.in_bounds(3, 2));
    assert!(!i.in_bounds(4, 0));
    assert!(!i.in_bounds(0, 3));
    assert!(!i.in_bounds(-1, 0));
    assert!(!i.in_bounds(0, -1));
    assert_eq!(i.get_pixel(2, 1), i.pixels()[6]);
}

#[test]
fn shrink_has_target_size() {
    let i = RandomImage::new(20, 30, &mut rng(5));
    let s = i.shrink(10, 10);
    assert_eq!((s.width(), s.height(), s.size(), s.pixels().len()), (10, 10, 100, 100));
    let t = i.shrink_via_tiling(4, 5);
    assert_eq!(t.pixels().len(), 20);
}

#[test]
fn shrink_drops_remainder_pixels() {
    let i = RandomImage::new(25, 23, &mut rng(6));
    let s = i.shrink(10, 10);
    assert_eq!((s.width(), s.height(), s.pixels().len()), (10, 10, 100));
}

#[test]
fn shrink_averages_tiles() {
    for seed in 0..5u64 {
        let i = RandomImage::new(30, 20, &mut rng(seed));
        let (tw, th) = (3usize, 2usize);
        let s = i.shrink_via_tiling(10, 10);
        for row in 0..10usize {
            for col in 0..10usize {
                let (mut r, mut g, mut b) = (0u64, 0u64, 0u64);
                for y in row * th..(row + 1) * th {
                    for x in col * tw..(col + 1) * tw {
                        let p = i.pixels()[y * 30 + x];
                        r += p.r as u64;
                        g += p.g as u64;
                        b += p.b as u64;
                    }
                }
                let n = (tw * th) as u64;
                let expected =
                    Pixel { r: (r / n) as u8, g: (g / n) as u8, b: (b / n) as u8, a: 255 };
                assert_eq!(s.pixels()[row * 10 + col], expected);
            }
        }
    }
}

#[test]
fn white_image_shrinks_to_white() {
    let i = RandomImage::new(2, 2, &mut rng(7));
    let s = i.shrink(1, 1);
    assert_eq!(s.pixels(), &[white()][..]);
}

#[test]
fn compare_values_exact() {
    let i = RandomImage::new(1, 1, &mut rng(8));
    assert_eq!(i.compare_values(&[255, 255, 255, 255]), Fitness { error: 0, samples: 4 });
    assert_eq!(i.compare_values(&[0, 0, 0, 0]), Fitness { error: 260100, samples: 4 });
    assert_eq!(
        i.calculate_fitness_with_values(&[250, 255, 255, 0]),
        Fitness { error: 65050, samples: 4 }
    );
}

#[test]
fn own_shrunk_output_scores_perfectly() {
    for seed in 0..5u64 {
        let mut i = RandomImage::new(30, 20, &mut rng(seed));
        let reference = i.shrink(10, 10).to_bytes();
        assert_eq!(reference.len(), 400);
        let f = i.calculate_fitness(&reference, 10, 10);
        assert_eq!(f, Fitness { error: 0, samples: 400 });
        assert_eq!(i.fitness(), Some(Fitness { error: 0, samples: 400 }));
    }
}

#[test]
fn calculate_fitness_renders_and_stores() {
    let mut i = RandomImage::new(20, 20, &mut rng(10));
    assert_eq!(i.fitness(), None);
    let reference = i.shrink(10, 5).to_bytes();
    let f = i.calculate_fitness(&reference, 10, 5);
    assert_eq!(f, Fitness { error: 0, samples: 200 });
    assert_eq!(i.fitness(), Some(f));
    let other = vec![0u8; 200];
    let g = i.calculate_fitness(&other, 10, 5);
    assert!(g.error > 0);
    assert_eq!(i.fitness(), Some(g));
}

#[test]
fn fitness_against_black() {
    let mut i = RandomImage::new(1, 1, &mut rng(11));
    let f = i.calculate_fitness(&[0, 0, 0, 255], 1, 1);
    assert_eq!(f, Fitness { error: 3 * 255 * 255, samples: 4 });
}

#[test]
fn to_bytes_is_rgba() {
    let i = RandomImage::new(1, 2, &mut rng(12));
    assert_eq!(i.to_bytes(), vec![255; 8]);
}

#[test]
fn mutate_keeps_shape() {
    let mut i = RandomImage::new(30, 30, &mut rng(13));
    let mut r = rng(14);
    for _ in 0..5 {
        i.mutate(&mut r);
        assert_eq!((i.width(), i.height(), i.pixels().len()), (30, 30, 900));
    }
    let mut j = RandomImage::new(30, 30, &mut rng(13));
    j.mutate(&mut rng(14));
    let mut k = RandomImage::new(30, 30, &mut rng(13));
    k.mutate(&mut rng(14));
    assert_eq!(j.pixels(), k.pixels());
}

#[test]
fn gene_count_is_fixed() {
    assert_eq!(GENE_COUNT, 10);
}

fn corners(g: &Gene) -> Vec<Point> {
    match *g {
        Gene::Triangle { v0, v1, v2, .. } => vec![v0, v1, v2],
        Gene::Line { a, b, .. } => vec![a, b],
    }
}

#[test]
fn random_genes_lie_on_the_image() {
    let mut r = rng(15);
    let genes: Vec<Gene> = (0..50).map(|_| Gene::random(7, 3, &mut r)).collect();
    for g in &genes {
        assert!(matches!(g, Gene::Triangle { .. }));
        for p in corners(g) {
            assert!(p.x < 7 && p.y < 3);
        }
        let c = g.color();
        assert!(c.r < 255 && c.g < 255 && c.b < 255 && c.a < 255);
    }
    assert!(genes.iter().any(|g| corners(g).iter().any(|p| p.x != 0)));
    assert!(genes.iter().any(|g| g.color().r != 0));
    let lines: Vec<Gene> = (0..50).map(|_| Gene::random_line(7, 3, &mut r)).collect();
    for g in &lines {
        assert!(matches!(g, Gene::Line { .. }));
        for p in corners(g) {
            assert!(p.x < 7 && p.y < 3);
        }
    }
}

#[test]
fn new_candidate_has_triangle_genes() {
    let i = RandomImage::new(20, 20, &mut rng(18));
    assert_eq!(i.genes().len(), GENE_COUNT);
    assert!(i.genes().iter().all(|g| matches!(g, Gene::Triangle { .. })));
}

#[test]
fn gene_mutation_stays_in_window() {
    let mut r = rng(16);
    let color = Color { r: 1, g: 2, b: 3, a: 4 };
    let start = Gene::Triangle {
        v0: Point::new(50, 50),
        v1: Point::new(0, 0),
        v2: Point::new(99, 99),
        color,
    };
    let mut moved = false;
    for _ in 0..50 {
        let mut g = start;
        g.mutate(100, 100, &mut r);
        let Gene::Triangle { v0, v1, v2, color: c } = g else { panic!("kind changed") };
        assert_eq!(c, color);
        assert!((40..60).contains(&v0.x) && (40..60).contains(&v0.y));
        assert!((0..10).contains(&v1.x) && (0..10).contains(&v1.y));
        assert!((89..99).contains(&v2.x) && (89..99).contains(&v2.y));
        moved |= v0 != Point::new(50, 50);
    }
    assert!(moved);
}

#[test]
fn line_mutation_window_is_narrower() {
    let mut r = rng(19);
    let color = Color { r: 5, g: 6, b: 7, a: 8 };
    let start = Gene::Line { a: Point::new(50, 20), b: Point::new(99, 0), color };
    for _ in 0..50 {
        let mut g = start;
        g.mutate(100, 40, &mut r);
        let Gene::Line { a, b, color: c } = g else { panic!("kind changed") };
        assert_eq!(c, color);
        assert!((45..55).contains(&a.x) && (18..22).contains(&a.y));
        assert!((94..99).contains(&b.x) && (0..2).contains(&b.y));
    }
}

#[test]
fn empty_window_takes_lower_end() {
    let mut r = rng(17);
    let start = Gene::Triangle {
        v0: Point::new(0, 0),
        v1: Point::new(3, 3),
        v2: Point::new(1, 2),
        color: Color::white(),
    };
    let mut g = start;
    g.mutate(4, 4, &mut r);
    assert_eq!(corners(&g), vec![Point::new(0, 0), Point::new(2, 2), Point::new(0, 1)]);
}

fn black() -> Color {
    Color { r: 0, g: 0, b: 0, a: 255 }
}

#[test]
fn opaque_triangle_paints_its_interior_black() {
    let genes = vec![Gene::Triangle {
        v0: Point::new(0, 0),
        v1: Point::new(9, 0),
        v2: Point::new(0, 9),
        color: black(),
    }];
    let i = RandomImage::from_genes(10, 10, genes.clone());
    assert_eq!(i.genes(), &genes[..]);
    let painted = Pixel { r: 0, g: 0, b: 0, a: 255 };
    assert_eq!(i.get_pixel(3, 3), painted);
    assert_eq!(i.get_pixel(1, 7), painted);
    assert_eq!(i.get_pixel(0, 0), white());
    assert_eq!(i.get_pixel(4, 5), white());
    assert_eq!(i.get_pixel(9, 9), white());
    assert_eq!(i.pixels().iter().filter(|p| **p == painted).count(), 28);
}

#[test]
fn later_genes_paint_over_earlier_ones() {
    let half_red = Color { r: 255, g: 0, b: 0, a: 128 };
    let tri = |color| Gene::Triangle {
        v0: Point::new(0, 0),
        v1: Point::new(9, 0),
        v2: Point::new(0, 9),
        color,
    };
    let i = RandomImage::from_genes(10, 10, vec![tri(black()), tri(half_red)]);
    assert_eq!(i.get_pixel(2, 2), Pixel { r: 128, g: 0, b: 0, a: 255 });
    let j = RandomImage::from_genes(10, 10, vec![tri(half_red), tri(black())]);
    assert_eq!(j.get_pixel(2, 2), Pixel { r: 0, g: 0, b: 0, a: 255 });
}

#[test]
fn line_gene_paints_its_segment() {
    let genes = vec![Gene::Line { a: Point::new(4, 2), b: Point::new(0, 0), color: black() }];
    let i = RandomImage::from_genes(5, 5, genes);
    let painted = Pixel { r: 0, g: 0, b: 0, a: 255 };
    let expected = [(0, 0), (1, 1), (2, 1), (3, 2), (4, 2)];
    for y in 0..5u32 {
        for x in 0..5u32 {
            let want = if expected.contains(&(x, y)) { painted } else { white() };
            assert_eq!(i.get_pixel(x, y), want);
        }
    }
}

#[test]
fn equal_genes_render_equal_pixels() {
    let genes = RandomImage::new(25, 25, &mut rng(20)).genes().to_vec();
    let a = RandomImage::from_genes(25, 25, genes.clone());
    let mut b = RandomImage::from_genes(25, 25, genes);
    assert_eq!(a.pixels(), b.pixels());
    b.render();
    assert_eq!(a.pixels(), b.pixels());
}
