use screaming_inscts::{Cell, Foraging, Grid, Insect, Landmark, LandmarkKind};

fn one_cell_grid(insects: Vec<Insect>, landmarks: Vec<Landmark>) -> Grid {
    Grid {
        grid: vec![Cell { insects, landmarks, x: 0, y: 0 }],
        width: 1,
        height: 1,
        cell_size: 30,
    }
}

#[test]
fn moved_advances_along_heading() {
    // Heading 0 is the positive x axis; one step of speed 2.0 moves the
    // agent 2 world units along x and not at all along y.
    let a = Insect::new(5_000, 15_000, 0, 3, 4, Foraging::SearchingFood);
    let m = a.moved(0, 2_000, 30_000, 30_000);
    assert_eq!(m.x, 7_000);
    assert_eq!(m.y, 15_000);
    assert_eq!(m.angle, 0);
    assert_eq!(m.steps_from_food, 4);
    assert_eq!(m.steps_from_base, 5);
    assert_eq!(m.state, Foraging::SearchingFood);
}

#[test]
fn moved_wraps_at_world_edge() {
    // An agent near the world edge moving outward wraps to near zero.
    let a = Insect::new(29_000, 15_000, 0, 0, 0, Foraging::SearchingFood);
    let m = a.moved(0, 2_000, 30_000, 30_000);
    assert_eq!(m.x, 1_000);
    assert_eq!(m.y, 15_000);
    assert!(0 <= m.x && m.x < 30_000);
}

#[test]
fn moved_wraps_below_zero() {
    let a = Insect::new(500, 15_000, 1800, 0, 0, Foraging::SearchingFood);
    let m = a.moved(0, 2_000, 30_000, 30_000);
    assert_eq!(m.x, 28_500);
}

#[test]
fn moved_turn_updates_heading_cache() {
    let a = Insect::new(15_000, 15_000, 3_550, 0, 0, Foraging::SearchingFood);
    let m = a.moved(100, 0, 30_000, 30_000);
    assert_eq!(m.angle, 50);
    assert_eq!(m.dir_x, screaming_inscts::fixed::cos_fixed(50));
    assert_eq!(m.dir_y, screaming_inscts::fixed::sin_fixed(50));
}

#[test]
fn food_collision_resets_base_counter() {
    // An agent standing exactly at a Food landmark's center: after one
    // Collide pass its steps-from-base counter is zero and it is
    // returning to base, reflected by half a turn and pushed out by the
    // radius plus the five-unit margin.
    let a = Insect::new(15_000, 15_000, 0, 7, 9, Foraging::SearchingFood);
    let food = Landmark::new(15_000, 15_000, 6, LandmarkKind::Food);
    let g = one_cell_grid(vec![a], vec![food]).collisions();
    let hit = g.grid[0].insects[0];
    assert_eq!(hit.steps_from_base, 0);
    assert_eq!(hit.state, Foraging::ReturningToBase);
    assert_eq!(hit.steps_from_food, 7);
    assert_eq!(hit.angle, 1_800);
    assert_eq!(hit.x, 4_000);
    assert_eq!(hit.y, 15_000);
}

#[test]
fn base_collision_resets_food_counter_only() {
    // A Base landmark of radius 5 at the cell center, an agent at
    // distance 2 searching for food: the collision fires on contact
    // (distance within the radius), resets steps-from-food, reflects the
    // heading by half a turn, and leaves the foraging state searching.
    let a = Insect::new(13_000, 15_000, 0, 9, 9, Foraging::SearchingFood);
    let base = Landmark::new(15_000, 15_000, 5, LandmarkKind::Base);
    let g = one_cell_grid(vec![a], vec![base]).collisions();
    let hit = g.grid[0].insects[0];
    assert_eq!(hit.steps_from_food, 0);
    assert_eq!(hit.steps_from_base, 9);
    assert_eq!(hit.state, Foraging::SearchingFood);
    assert_eq!(hit.angle, 1_800);
    assert_eq!(hit.x, 5_000);
    assert_eq!(hit.y, 15_000);
}

#[test]
fn food_collision_outside_radius_is_noop() {
    let a = Insect::new(25_000, 15_000, 0, 7, 9, Foraging::SearchingFood);
    let food = Landmark::new(15_000, 15_000, 6, LandmarkKind::Food);
    let g = one_cell_grid(vec![a], vec![food]).collisions();
    let hit = g.grid[0].insects[0];
    assert_eq!(hit, a);
}

#[test]
fn food_boundary_is_exclusive_base_inclusive() {
    // Food fires strictly inside the radius; Base fires on the boundary
    // too.
    let at_radius = Insect::new(21_000, 15_000, 0, 3, 3, Foraging::SearchingFood);
    let food = Landmark::new(15_000, 15_000, 6, LandmarkKind::Food);
    let g = one_cell_grid(vec![at_radius], vec![food]).collisions();
    assert_eq!(g.grid[0].insects[0], at_radius);

    let at_radius2 = Insect::new(21_000, 15_000, 0, 3, 3, Foraging::SearchingFood);
    let base = Landmark::new(15_000, 15_000, 6, LandmarkKind::Base);
    let g2 = one_cell_grid(vec![at_radius2], vec![base]).collisions();
    assert_eq!(g2.grid[0].insects[0].steps_from_food, 0);
    assert_eq!(g2.grid[0].insects[0].state, Foraging::SearchingFood);
}

#[test]
fn relay_lowers_hearers_counter() {
    // The screamer's counter plus the hearing radius (the cell size, 30)
    // replaces the hearer's when strictly lower; the hearer, returning to
    // base, turns toward the screamer. No counter ever increases.
    let screamer = Insect::new(14_000, 15_000, 0, 0, 0, Foraging::SearchingFood);
    let mut hearer = Insect::new(16_000, 15_000, 0, 0, 0, Foraging::ReturningToBase);
    hearer.steps_from_base = 100;
    let g = one_cell_grid(vec![screamer, hearer], vec![]).screaming();
    let a = g.grid[0].insects[0];
    let b = g.grid[0].insects[1];
    assert_eq!(a.steps_from_base, 0);
    assert_eq!(b.steps_from_base, 30);
    assert!(b.steps_from_base <= 100);
    assert_eq!(b.angle, 1_800);
    assert_eq!(b.dir_x, -1_000);
    assert_eq!(b.dir_y, 0);
    // Positions and states are untouched by the relay.
    assert_eq!(b.x, 16_000);
    assert_eq!(b.y, 15_000);
    assert_eq!(b.state, Foraging::ReturningToBase);
}

#[test]
fn relay_out_of_earshot_is_noop() {
    // Hearing radius is one cell size (30 units); these two agents are 40
    // units apart in a 2-by-1 grid, so nothing is relayed.
    let screamer = Insect::new(10_000, 15_000, 0, 0, 0, Foraging::SearchingFood);
    let mut hearer = Insect::new(50_000, 15_000, 0, 0, 0, Foraging::ReturningToBase);
    hearer.steps_from_base = 100;
    let g = Grid {
        grid: vec![
            Cell { insects: vec![screamer], landmarks: vec![], x: 0, y: 0 },
            Cell { insects: vec![hearer], landmarks: vec![], x: 1, y: 0 },
        ],
        width: 2,
        height: 1,
        cell_size: 30,
    };
    let g = g.screaming();
    let all = g.get_insects();
    assert_eq!(all.len(), 2);
    for i in all {
        if i.state == Foraging::ReturningToBase {
            assert_eq!(i.steps_from_base, 100);
            assert_eq!(i.angle, 0);
        }
    }
}

#[test]
fn relay_searching_hearer_keeps_heading_on_base_rule() {
    // The base-direction rule lowers the counter of any hearer, but only
    // reorients one that is returning to base.
    let screamer = Insect::new(14_000, 15_000, 0, 0, 0, Foraging::SearchingFood);
    let mut hearer = Insect::new(16_000, 15_000, 450, 0, 0, Foraging::SearchingFood);
    hearer.steps_from_base = 100;
    let g = one_cell_grid(vec![screamer, hearer], vec![]).screaming();
    let b = g.grid[0].insects[1];
    assert_eq!(b.steps_from_base, 30);
    assert_eq!(b.angle, 450);
}

#[test]
fn relay_chains_through_intermediate_agent() {
    // Pairs are visited in lexicographic order, so an improvement can
    // travel through an intermediate agent within one pass: the first
    // agent lowers the second's counter, and the second, already lowered,
    // lowers the third's, even though the third is out of the first's
    // earshot.
    let mut a = Insect::new(1_000, 15_000, 0, 0, 0, Foraging::SearchingFood);
    a.steps_from_food = 1_000;
    let mut b = Insect::new(25_000, 15_000, 0, 0, 0, Foraging::SearchingFood);
    b.steps_from_base = 1_000;
    b.steps_from_food = 1_000;
    let mut c = Insect::new(50_000, 15_000, 0, 0, 0, Foraging::SearchingFood);
    c.steps_from_base = 1_000;
    c.steps_from_food = 1_000;
    let g = Grid {
        grid: vec![
            Cell { insects: vec![a, b], landmarks: vec![], x: 0, y: 0 },
            Cell { insects: vec![c], landmarks: vec![], x: 1, y: 0 },
        ],
        width: 2,
        height: 1,
        cell_size: 30,
    };
    let g = g.screaming();
    let all = g.get_insects();
    assert_eq!(all.len(), 3);
    assert_eq!(all[0].steps_from_base, 0);
    assert_eq!(all[1].steps_from_base, 30);
    assert_eq!(all[2].steps_from_base, 60);
}

#[test]
fn rebucket_moves_agent_to_containing_cell() {
    // An agent whose position lies in the second cell's bounds is owned
    // by the first: after Rebucket it belongs to the second cell, and an
    // agent exactly on the shared boundary belongs to the right-hand cell
    // alone (half-open bounds).
    let stray = Insect::new(45_000, 15_000, 0, 0, 0, Foraging::SearchingFood);
    let boundary = Insect::new(30_000, 5_000, 0, 0, 0, Foraging::SearchingFood);
    let g = Grid {
        grid: vec![
            Cell { insects: vec![stray], landmarks: vec![], x: 0, y: 0 },
            Cell { insects: vec![boundary], landmarks: vec![], x: 1, y: 0 },
        ],
        width: 2,
        height: 1,
        cell_size: 30,
    };
    let g = g.settle_insects();
    assert_eq!(g.grid[0].insects.len(), 0);
    assert_eq!(g.grid[1].insects.len(), 2);
    assert_eq!(g.get_insects().len(), 2);
}
