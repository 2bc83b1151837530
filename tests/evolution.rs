use image_evol::{Population, REFERENCE_LEN, REFERENCE_SIDE};
use rand::rngs::StdRng;
use rand::SeedableRng;

fn reference() -> Vec<u8> {
    (0..REFERENCE_LEN).map(|i| if i % 4 == 3 { 255 } else { (i * 7 % 256) as u8 }).collect()
}

#[test]
fn empty_population_has_no_best() {
    let mut p = Population::new(20, 20, &reference());
    assert_eq!(p.len(), 0);
    assert_eq!(p.best_fitness(), None);
    assert!(p.best_pixels().is_none());
    p.evolve(&mut StdRng::seed_from_u64(1));
    assert_eq!(p.len(), 0);
}

#[test]
fn evolve_keeps_population_size() {
    let mut r = StdRng::seed_from_u64(2);
    let mut p = Population::new(30, 20, &reference());
    for n in 1..=12 {
        p.add_member(&mut r);
        assert_eq!(p.len(), n);
    }
    for _ in 0..5 {
        p.evolve(&mut r);
        assert_eq!(p.len(), 12);
    }
}

#[test]
fn small_population_evolves_without_culling() {
    let mut r = StdRng::seed_from_u64(3);
    let mut p = Population::new(10, 10, &reference());
    for _ in 0..4 {
        p.add_member(&mut r);
    }
    p.evolve(&mut r);
    assert_eq!(p.len(), 4);
}

#[test]
fn best_is_scored_against_reference() {
    let mut r = StdRng::seed_from_u64(4);
    let mut p = Population::new(20, 10, &reference());
    for _ in 0..6 {
        p.add_member(&mut r);
    }
    p.evolve(&mut r);
    let best = p.best_fitness().expect("members exist");
    assert_eq!(best.samples, (REFERENCE_SIDE * REFERENCE_SIDE * 4) as u64);
    assert!(best.error <= 400 * 255 * 255);
    let pixels = p.best_pixels().expect("members exist");
    assert_eq!(pixels.len(), 200);
}

#[test]
fn perfect_reference_gives_zero_error() {
    let white = vec![255u8; REFERENCE_LEN];
    let mut r = StdRng::seed_from_u64(5);
    let mut p = Population::new(10, 10, &white);
    let mut found = false;
    for _ in 0..30 {
        p.add_member(&mut r);
        if p.best_fitness().map(|f| f.error) == Some(0) {
            found = true;
            break;
        }
    }
    if found {
        let px = p.best_pixels().expect("members exist");
        assert!(px.iter().all(|q| (q.r, q.g, q.b, q.a) == (255, 255, 255, 255)));
    }
}
