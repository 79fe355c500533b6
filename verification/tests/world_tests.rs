use std::sync::Arc;

use cubes::events::EventQueue;
use cubes::grid::{Cube, Grid};
use cubes::render::Sprite;
use cubes::resources::load_animations;
use cubes::world_generation::{
    build_terrain, carve_crater, find_ground_spawn_z, place_workers, prepare_grid, random_craters,
    shape_world, Crater, PerlinNoise,
};
use cubes::{
    EMPTY_CUBE, GRASS_CUBE, GRID_HEIGHT, GRID_WIDTH, MUD_CUBE, STONE_CUBE,
};

fn flat() -> PerlinNoise {
    PerlinNoise { pixels: vec![0; 1], width: 1, height: 1, z_scale: 7 }
}

#[test]
fn integer_noise_cuts_the_ground_where_the_float_formula_does() {
    for red in 0..=255u8 {
        let noise = PerlinNoise { pixels: vec![red], width: 1, height: 1, z_scale: 7 };
        let value = noise.get_noise(5, 9);
        assert_eq!(value, red as u32 * 7);
        let by_float = (40.0f32 + red as f32 * 0.07f32) as usize;
        assert_eq!(40 + (value / 100) as usize, by_float);
    }
}

#[test]
fn the_noise_image_repeats() {
    let noise = PerlinNoise { pixels: vec![1, 2, 3, 4], width: 2, height: 2, z_scale: 7 };
    assert_eq!(noise.get_noise(0, 0), 7);
    assert_eq!(noise.get_noise(3, 1), 28);
    assert_eq!(noise.get_noise(2, 3), 21);
}

#[test]
fn a_column_of_terrain_is_grass_over_mud_over_stone() {
    let t = build_terrain(&PerlinNoise { pixels: vec![100], width: 1, height: 1, z_scale: 7 });
    let at = |z: usize| t[3 + 4 * GRID_WIDTH + z * GRID_WIDTH * GRID_WIDTH];
    assert_eq!(at(48).cube_type, EMPTY_CUBE);
    assert_eq!(at(47).cube_type, GRASS_CUBE);
    assert_eq!(at(46).cube_type, MUD_CUBE);
    assert_eq!(at(43).cube_type, MUD_CUBE);
    assert_eq!(at(42).cube_type, STONE_CUBE);
    assert_eq!(at(0).cube_type, STONE_CUBE);
}

#[test]
fn a_crater_empties_the_cells_near_its_epicentre() {
    let mut g = Grid::new(GRID_WIDTH, GRID_HEIGHT, EventQueue::new());
    carve_crater(&mut g, &Crater { epicentre: (100, 100, 30), size: 30 });
    assert_eq!(g.get_cube((100, 100, 30)).cube_type, EMPTY_CUBE);
    assert_eq!(g.get_cube((105, 100, 30)).cube_type, EMPTY_CUBE);
    assert_eq!(g.get_cube((106, 100, 30)).cube_type, STONE_CUBE);
    assert_eq!(g.get_cube((103, 102, 31)).cube_type, EMPTY_CUBE);
    assert_eq!(g.get_cube((104, 103, 32)).cube_type, EMPTY_CUBE);
    assert_eq!(g.get_cube((104, 104, 32)).cube_type, STONE_CUBE);
    let mut edge = Grid::new(GRID_WIDTH, GRID_HEIGHT, EventQueue::new());
    carve_crater(&mut edge, &Crater { epicentre: (0, 0, 0), size: 99 });
    assert_eq!(edge.get_cube((0, 0, 0)).cube_type, EMPTY_CUBE);
    assert_eq!(edge.get_cube((9, 0, 0)).cube_type, EMPTY_CUBE);
    assert_eq!(edge.get_cube((10, 0, 0)).cube_type, STONE_CUBE);
}

#[test]
fn craters_are_drawn_at_random_inside_the_world() {
    let c = random_craters();
    assert_eq!(c.len(), 20);
    for k in &c {
        assert!(k.epicentre.0 < GRID_WIDTH && k.epicentre.1 < GRID_WIDTH && k.epicentre.2 < GRID_HEIGHT);
        assert!(30 <= k.size && k.size < 100);
    }
    assert!(c.iter().any(|k| k.epicentre != c[0].epicentre || k.size != c[0].size));
}

#[test]
fn a_new_world_has_ground_and_no_moving_water() {
    let g = prepare_grid(EventQueue::new(), &flat());
    assert_eq!(g.grid.len(), GRID_WIDTH * GRID_WIDTH * GRID_HEIGHT);
    assert_eq!(g.width, GRID_WIDTH);
    assert_eq!(g.height, GRID_HEIGHT);
    assert!(g.active_water.is_empty());
    assert!(g.events.cube_events.is_empty());
    assert!(g.grid.iter().all(|c| c.cube_type != cubes::WATER_CUBE));
}

#[test]
fn workers_spawn_just_above_the_ground() {
    let mut g = shape_world(EventQueue::new(), &flat(), &vec![]);
    assert_eq!(find_ground_spawn_z(&g, 10, 10), 41);
    for z in 0..GRID_HEIGHT {
        *g.get_cube_mut((5, 5, z)) = Cube::new(EMPTY_CUBE);
        *g.get_cube_mut((6, 6, z)) = Cube::new(STONE_CUBE);
    }
    assert_eq!(find_ground_spawn_z(&g, 5, 5), 0);
    assert_eq!(find_ground_spawn_z(&g, 6, 6), GRID_HEIGHT - 1);
}

#[test]
fn two_workers_are_placed_near_the_far_corner() {
    let mut g = shape_world(EventQueue::new(), &flat(), &vec![]);
    let s = Sprite { pixels: [1; 576] };
    let pool = Arc::new(load_animations(
        vec![Sprite { pixels: [1; 576] }],
        vec![Sprite { pixels: [1; 576] }],
        vec![Sprite { pixels: [1; 576] }],
        vec![Sprite { pixels: [1; 576] }],
        vec![Sprite { pixels: [1; 576] }],
        vec![Sprite { pixels: [1; 576] }],
        s,
    ));
    let workers = place_workers(&mut g, pool);
    assert_eq!(workers.len(), 2);
    assert_eq!(workers[0].name, "man");
    assert_eq!(workers[1].name, "man2");
    assert_eq!(workers[0].position, (GRID_WIDTH - 40, GRID_WIDTH - 30, 41));
    assert_eq!(workers[1].position, (GRID_WIDTH - 35, GRID_WIDTH - 31, 41));
    assert_eq!(workers[0].id, 0);
    assert_eq!(workers[1].id, 1);
    assert_eq!(workers[0].animation.name(), "idle");
    assert!(workers[0].tasks.is_empty() && workers[0].active_task.is_none());
    assert_eq!(g.get_cube((GRID_WIDTH - 40, GRID_WIDTH - 30, 41)).agent, Some(0));
    assert_eq!(g.get_cube((GRID_WIDTH - 35, GRID_WIDTH - 31, 41)).agent, Some(1));
}

#[test]
fn blasting_craters_one_by_one_is_blasting_them_together() {
    let a = Crater { epicentre: (50, 50, 20), size: 40 };
    let b = Crater { epicentre: (53, 50, 22), size: 60 };
    let mut one_by_one = Grid::new(GRID_WIDTH, GRID_HEIGHT, EventQueue::new());
    carve_crater(&mut one_by_one, &a);
    carve_crater(&mut one_by_one, &b);
    let mut together = Grid::new(GRID_WIDTH, GRID_HEIGHT, EventQueue::new());
    cubes::world_generation::carve_craters(&mut together, &vec![b, a]);
    assert!(one_by_one.grid == together.grid);
    assert_eq!(together.get_cube((53, 50, 22)).cube_type, EMPTY_CUBE);
    assert_eq!(together.get_cube((40, 50, 20)).cube_type, STONE_CUBE);
}
