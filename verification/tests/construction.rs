use rand::SeedableRng;
use screaming_inscts::fixed::{cos_fixed, sin_fixed};
use screaming_inscts::{Foraging, Grid, GridError, LandmarkKind};

fn rng(seed: u64) -> rand::rngs::StdRng {
    rand::rngs::StdRng::seed_from_u64(seed)
}

#[test]
fn zero_dimension_is_rejected() {
    let mut r = rng(1);
    assert!(matches!(
        Grid::new(30, [0, 5], 1, 1, 6, 10, &mut r),
        Err(GridError::ZeroDimension)
    ));
    assert!(matches!(
        Grid::new(30, [5, 0], 1, 1, 6, 10, &mut r),
        Err(GridError::ZeroDimension)
    ));
}

#[test]
fn empty_placement_range_is_rejected() {
    let mut r = rng(2);
    assert!(matches!(
        Grid::new(0, [2, 2], 1, 1, 6, 10, &mut r),
        Err(GridError::EmptyPlacementRange)
    ));
}

#[test]
fn zero_agents_is_legal() {
    let mut r = rng(3);
    let g = Grid::new(30, [2, 2], 0, 0, 6, 0, &mut r).unwrap();
    assert_eq!(g.get_insects().len(), 0);
}

#[test]
fn construction_places_everything() {
    let mut r = rng(4);
    let g = Grid::new(30, [3, 2], 2, 1, 6, 25, &mut r).unwrap();
    assert_eq!(g.width, 3);
    assert_eq!(g.height, 2);
    assert_eq!(g.cell_size, 30);
    assert_eq!(g.grid.len(), 6);
    // ceil(25 / 6) agents per cell: 5 each, 30 in total.
    for cell in &g.grid {
        assert_eq!(cell.insects.len(), 5);
    }
    let insects = g.get_insects();
    assert_eq!(insects.len(), 30);
    for i in &insects {
        assert_eq!(i.steps_from_food, 0);
        assert_eq!(i.steps_from_base, 0);
        assert_eq!(i.state, Foraging::SearchingFood);
        assert!(0 <= i.x && i.x < 90_000);
        assert!(0 <= i.y && i.y < 60_000);
        assert!(0 <= i.angle && i.angle < 3_600);
        assert_eq!(i.dir_x, cos_fixed(i.angle));
        assert_eq!(i.dir_y, sin_fixed(i.angle));
    }
    let foods = g.get_food_sources();
    let bases = g.get_bases();
    assert_eq!(foods.len(), 2);
    assert_eq!(bases.len(), 1);
    for lm in foods.iter().chain(bases.iter()) {
        assert_eq!(lm.radius, 6);
        assert!(0 <= lm.x && lm.x <= 90_000);
        assert!(0 <= lm.y && lm.y <= 60_000);
    }
    for lm in foods {
        assert_eq!(lm.kind, LandmarkKind::Food);
    }
}

#[test]
fn landmarks_are_inset_from_cell_edges() {
    let mut r = rng(5);
    // One cell, so the landmark must land inset by a quarter cell (7.5
    // units) from every edge of the 30-unit cell.
    let g = Grid::new(30, [1, 1], 1, 0, 6, 0, &mut r).unwrap();
    let foods = g.get_food_sources();
    assert_eq!(foods.len(), 1);
    assert!(7_500 <= foods[0].x && foods[0].x < 22_500);
    assert!(7_500 <= foods[0].y && foods[0].y < 22_500);
}

#[test]
fn empty_grid_counters_rise_without_reset() {
    // With zero landmarks the Collide phase is a no-op, and with all
    // counters equal the relay never fires: after every tick all counters
    // equal the tick count and every heading cache stays consistent.
    let mut r = rng(6);
    let mut g = Grid::new(30, [2, 2], 0, 0, 6, 8, &mut r).unwrap();
    for tick in 1..=5u32 {
        g = g.move_insects(1_000, &mut r);
        g = g.collisions();
        g = g.screaming();
        g = g.settle_insects();
        let insects = g.get_insects();
        assert_eq!(insects.len(), 8);
        for i in insects {
            assert_eq!(i.steps_from_food, tick);
            assert_eq!(i.steps_from_base, tick);
            assert!(0 <= i.x && i.x < 60_000);
            assert!(0 <= i.y && i.y < 60_000);
            assert_eq!(i.dir_x, cos_fixed(i.angle));
            assert_eq!(i.dir_y, sin_fixed(i.angle));
        }
    }
}

#[test]
fn tick_pipeline_keeps_population_with_landmarks() {
    let mut r = rng(7);
    let mut g = Grid::new(30, [3, 3], 2, 2, 6, 18, &mut r).unwrap();
    for _ in 0..10 {
        g = g.move_insects(1_000, &mut r);
        g = g.collisions();
        g = g.screaming();
        g = g.settle_insects();
    }
    let insects = g.get_insects();
    assert_eq!(insects.len(), 18);
    for i in insects {
        assert!(0 <= i.x && i.x < 90_000);
        assert!(0 <= i.y && i.y < 90_000);
        assert_eq!(i.dir_x, cos_fixed(i.angle));
        assert_eq!(i.dir_y, sin_fixed(i.angle));
    }
    assert_eq!(g.get_food_sources().len(), 2);
    assert_eq!(g.get_bases().len(), 2);
}
