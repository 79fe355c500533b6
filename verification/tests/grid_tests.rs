use cubes::events::{EventQueue, GridChangeEvent};
use cubes::grid::{
    find_face_neighbours, find_horizontal_neighbours, get_manhattan_distance,
    is_horizontal_neighbour, Cube, Grid, Light, FULL_WATER,
};
use cubes::render::CubeFace;
use cubes::{Compass, EMPTY_CUBE, GRID_HEIGHT, GRID_WIDTH, LANTERN_CUBE, STONE_CUBE, WATER_CUBE};

fn world() -> Grid {
    Grid::new(GRID_WIDTH, GRID_HEIGHT, EventQueue::new())
}

fn index(p: (usize, usize, usize)) -> usize {
    p.0 + p.1 * GRID_WIDTH + p.2 * GRID_WIDTH * GRID_WIDTH
}

#[test]
fn light_levels_interpolate_between_min_and_max() {
    assert_eq!(Light::new(1, 2, 3), Light { x_level: 1, y_level: 2, z_level: 3 });
    assert_eq!(Light::min_level(), Light { x_level: 100, y_level: 100, z_level: 100 });
    assert_eq!(Light::max_level(), Light { x_level: 220, y_level: 245, z_level: 255 });
    assert_eq!(Light::from_level(0), Light::min_level());
    assert_eq!(Light::from_level(10), Light::max_level());
    assert_eq!(Light::from_level(200), Light::max_level());
    assert_eq!(Light::from_level(5), Light::new(160, 172, 177));
    assert_eq!(Light::from_level(7), Light::new(184, 201, 208));
    for l in 0..10u8 {
        let a = Light::from_level(l);
        let b = Light::from_level(l + 1);
        assert!(a.x_level <= b.x_level && a.y_level <= b.y_level && a.z_level <= b.z_level);
    }
}

#[test]
fn adding_lights_takes_the_brighter_face() {
    let a = Light::new(1, 5, 3);
    let b = Light::new(2, 4, 3);
    assert_eq!(a + b, Light::new(2, 5, 3));
    assert_eq!(a + b, b + a);
    assert_eq!(a + a, a);
}

#[test]
fn cubes_know_whether_they_can_be_stood_on_and_seen_through() {
    let stone = Cube::new(STONE_CUBE);
    assert_eq!(stone.cube_type, STONE_CUBE);
    assert_eq!(stone.agent, None);
    assert_eq!(stone.light_level, Light::min_level());
    assert_eq!(stone.water_level, 0);
    assert!(stone.is_walkable());
    assert!(!stone.is_transparent());
    assert!(!Cube::new(WATER_CUBE).is_walkable());
    assert!(Cube::new(WATER_CUBE).is_transparent());
    assert!(!Cube::new(EMPTY_CUBE).is_walkable());
    assert!(Cube::new(EMPTY_CUBE).is_transparent());
    assert!(Cube::new(LANTERN_CUBE).is_transparent());
    let man = Cube::with_agent(3);
    assert_eq!(man.cube_type, EMPTY_CUBE);
    assert_eq!(man.agent, Some(3));
    assert!(!man.is_walkable());
    assert!(man.is_transparent());
}

#[test]
fn vector_positions_and_their_errors() {
    let g = Grid::new(2, 2, EventQueue::new());
    assert_eq!(g.grid.len(), 8);
    assert_eq!(g.get_vector_pos((1, 1, 1)), Ok(7));
    assert_eq!(g.get_vector_pos((1, 0, 1)), Ok(5));
    assert_eq!(g.get_vector_pos((0, 0, 2)), Err("Index out of bounds: 8".to_string()));
    assert_eq!(g.get_vector_pos((3, 3, 3)), Err("Index out of bounds: 21".to_string()));
}

#[test]
fn deleting_a_cube_empties_it_and_publishes_the_change() {
    let mut g = world();
    let p = (5, 6, 7);
    g.get_cube_mut(p).light_level = Light::new(1, 2, 3);
    g.delete_cube(p);
    let c = *g.get_cube(p);
    assert_eq!(c.cube_type, EMPTY_CUBE);
    assert_eq!(c.light_level, Light::new(1, 2, 3));
    assert_eq!(g.get_cube((5, 6, 8)).cube_type, STONE_CUBE);
    let mut events = g.take_events();
    assert!(matches!(events.next_event(), Some(GridChangeEvent::Delete((5, 6, 7)))));
    assert!(events.next_event().is_none());
    assert_eq!(g.events.cube_events.len(), 0);
}

#[test]
fn deleting_where_an_agent_stands_publishes_nothing() {
    let mut g = world();
    *g.get_cube_mut((1, 1, 1)) = Cube::with_agent(0);
    g.delete_cube((1, 1, 1));
    assert_eq!(g.get_cube((1, 1, 1)).agent, None);
    assert_eq!(g.events.cube_events.len(), 0);
}

#[test]
fn moving_a_cube_carries_it_and_leaves_an_empty_cell() {
    let mut g = world();
    *g.get_cube_mut((10, 10, 10)) = Cube::with_agent(1);
    *g.get_cube_mut((11, 10, 10)) = Cube::new(EMPTY_CUBE);
    g.move_cube((10, 10, 10), (11, 10, 10));
    assert_eq!(g.get_cube((11, 10, 10)).agent, Some(1));
    assert_eq!(g.get_cube((10, 10, 10)).agent, None);
    assert_eq!(g.get_cube((10, 10, 10)).cube_type, EMPTY_CUBE);
    assert!(g.is_occupied((11, 10, 10)));
    assert!(!g.is_occupied((10, 10, 10)));
    assert!(g.is_occupied((12, 10, 10)));
}

#[test]
fn moving_a_cube_onto_itself_changes_nothing() {
    let mut g = world();
    g.move_cube((3, 3, 3), (3, 3, 3));
    assert_eq!(g.get_cube((3, 3, 3)).cube_type, STONE_CUBE);
    assert_eq!(g.events.cube_events.len(), 0);
}

#[test]
fn horizontal_neighbours_stay_inside_the_world() {
    assert_eq!(
        find_horizontal_neighbours((10, 10, 5)),
        vec![(9, 10, 5), (11, 10, 5), (10, 9, 5), (10, 11, 5)]
    );
    assert_eq!(find_horizontal_neighbours((0, 0, 5)), vec![(1, 0, 5), (0, 1, 5)]);
    assert_eq!(
        find_horizontal_neighbours((GRID_WIDTH - 1, GRID_WIDTH - 1, 0)),
        vec![(GRID_WIDTH - 2, GRID_WIDTH - 1, 0), (GRID_WIDTH - 1, GRID_WIDTH - 2, 0)]
    );
}

#[test]
fn face_neighbours_stay_inside_the_world() {
    assert_eq!(find_face_neighbours((0, 0, 0)), vec![(1, 0, 0), (0, 1, 0), (0, 0, 1)]);
    assert_eq!(
        find_face_neighbours((4, 5, 6)),
        vec![(3, 5, 6), (5, 5, 6), (4, 4, 6), (4, 6, 6), (4, 5, 5), (4, 5, 7)]
    );
    assert_eq!(find_face_neighbours((4, 5, GRID_HEIGHT - 1)).len(), 5);
}

#[test]
fn neighbourhood_is_symmetric() {
    let a = (7, 8, 9);
    for b in find_face_neighbours(a) {
        assert!(find_face_neighbours(b).contains(&a));
    }
    for b in find_horizontal_neighbours(a) {
        assert!(find_horizontal_neighbours(b).contains(&a));
    }
    assert_eq!(is_horizontal_neighbour((5, 5, 1), (6, 4, 1)), is_horizontal_neighbour((6, 4, 1), (5, 5, 1)));
}

#[test]
fn manhattan_distance_adds_the_steps_along_each_axis() {
    assert_eq!(get_manhattan_distance((1, 2, 3), (4, 6, 8)), 12);
    assert_eq!(get_manhattan_distance((1, 2, 3), (1, 2, 3)), 0);
}

#[test]
fn horizontal_neighbours_are_on_one_level_and_one_step_apart() {
    assert!(is_horizontal_neighbour((5, 5, 1), (6, 4, 1)));
    assert!(is_horizontal_neighbour((5, 5, 1), (5, 5, 1)));
    assert!(!is_horizontal_neighbour((5, 5, 1), (7, 5, 1)));
    assert!(!is_horizontal_neighbour((5, 5, 1), (5, 5, 2)));
}

#[test]
fn blocking_cubes_are_found_by_index() {
    let mut g = world();
    *g.get_cube_mut((1, 5, 5)) = Cube::new(WATER_CUBE);
    let i = index((0, 5, 5));
    assert_eq!(g.get_blocking_cube(&CubeFace::nX, i), None);
    assert_eq!(g.get_blocking_cube(&CubeFace::pX, i).map(|c| c.cube_type), Some(WATER_CUBE));
    assert_eq!(g.get_blocking_cube(&CubeFace::nY, index((3, 0, 5))), None);
    assert_eq!(g.get_blocking_cube(&CubeFace::Z, index((3, 3, GRID_HEIGHT - 1))), None);
    assert_eq!(g.neighbour_cube(&CubeFace::pX, (0, 5, 5)).map(|c| c.cube_type), Some(WATER_CUBE));
    assert_eq!(g.get_blocking_cube_x(&Compass::North, i).map(|c| c.cube_type), Some(WATER_CUBE));
    assert_eq!(g.get_blocking_cube_x(&Compass::West, i), None);
    assert_eq!(g.get_cube_above(index((2, 2, GRID_HEIGHT - 1))), None);
    assert_eq!(g.get_cube_above(index((1, 5, 4))).map(|c| c.cube_type), Some(WATER_CUBE));
}

#[test]
fn a_lantern_lights_the_cubes_around_it() {
    let mut g = world();
    g.place_cube((150, 150, 30), Cube::new(LANTERN_CUBE));
    assert_eq!(g.get_cube((150, 150, 30)).cube_type, LANTERN_CUBE);
    assert_eq!(g.get_cube((150, 150, 30)).light_level, Light::max_level());
    assert_eq!(g.get_cube((151, 151, 31)).light_level, Light::from_level(7));
    assert_eq!(g.get_cube((150, 150, 39)).light_level, Light::from_level(1));
    assert_eq!(g.get_cube((150, 150, 40)).light_level, Light::min_level());
    assert_eq!(g.get_cube((160, 150, 30)).light_level, Light::min_level());
}

#[test]
fn placing_a_plain_cube_lights_nothing() {
    let mut g = world();
    let mut c = Cube::new(WATER_CUBE);
    c.water_level = FULL_WATER;
    g.place_cube((3, 4, 5), c);
    assert_eq!(*g.get_cube((3, 4, 5)), c);
    assert_eq!(g.get_cube((3, 4, 6)).light_level, Light::min_level());
}

#[test]
fn water_next_to_a_deleted_cube_starts_to_move() {
    let mut g = world();
    let mut w = Cube::new(WATER_CUBE);
    w.water_level = FULL_WATER;
    *g.get_cube_mut((21, 20, 20)) = w;
    *g.get_cube_mut((20, 20, 21)) = w;
    g.delete_cube((20, 20, 20));
    let mut events = g.take_events();
    let e = events.next_event().unwrap();
    g.handle_grid_change_event(&e);
    assert_eq!(g.active_water.len(), 2);
    assert_eq!(g.active_water[0], (21, 20, 20));
    assert_eq!(g.active_water[1], (20, 20, 21));
}

#[test]
fn water_falls_into_the_empty_cell_below() {
    let mut g = world();
    let mut w = Cube::new(WATER_CUBE);
    w.water_level = FULL_WATER;
    *g.get_cube_mut((20, 20, 21)) = w;
    *g.get_cube_mut((20, 20, 20)) = Cube::new(EMPTY_CUBE);
    g.active_water.push_back((20, 20, 21));
    g.update_active_water();
    assert_eq!(g.get_cube((20, 20, 20)).cube_type, WATER_CUBE);
    assert_eq!(g.get_cube((20, 20, 20)).water_level, FULL_WATER);
    assert_eq!(g.get_cube((20, 20, 21)).cube_type, EMPTY_CUBE);
    assert_eq!(g.active_water.len(), 1);
    assert_eq!(g.active_water[0], (20, 20, 20));
}

#[test]
fn spawning_an_agent_marks_its_cell() {
    let mut g = world();
    *g.get_cube_mut((2, 2, 2)) = Cube::new(EMPTY_CUBE);
    let pool = std::sync::Arc::new(cubes::animation::AnimationPool { animations: vec![] });
    let anim = std::sync::Arc::new(cubes::animation::Animation::CameraFacingAnimation {
        frames: vec![],
        name: "idle".to_string(),
    });
    let agent = cubes::agents::Agent {
        name: "a".to_string(),
        animation: anim,
        animation_state: 0,
        animation_pool: pool,
        position: (2, 2, 2),
        destination: None,
        tasks: vec![],
        active_task: None,
        id: 258,
        direction: cubes::agents::Direction::Px,
    };
    g.spawn_agent(&agent);
    assert_eq!(*g.get_cube((2, 2, 2)), Cube::with_agent(2));
}

#[test]
fn events_come_out_in_the_order_they_were_published() {
    let mut q = EventQueue::new();
    assert!(q.next_event().is_none());
    q.publish_event(GridChangeEvent::Delete((1, 2, 3)));
    q.publish_event(GridChangeEvent::Delete((4, 5, 6)));
    assert!(matches!(q.next_event(), Some(GridChangeEvent::Delete((1, 2, 3)))));
    assert!(matches!(q.next_event(), Some(GridChangeEvent::Delete((4, 5, 6)))));
    assert!(q.next_event().is_none());
}


#[test]
fn the_grid_can_be_indexed_by_cube_number() {
    let mut g = Grid::new(2, 2, EventQueue::new());
    *g.get_cube_mut((1, 1, 1)) = Cube::new(WATER_CUBE);
    assert_eq!(g[7].cube_type, WATER_CUBE);
    assert_eq!(g[6].cube_type, STONE_CUBE);
}

#[test]
fn the_bounds_error_writes_the_index_in_decimal() {
    let g = Grid::new(1, 0, EventQueue::new());
    assert_eq!(g.get_vector_pos((0, 0, 0)), Err("Index out of bounds: 0".to_string()));
    let h = Grid::new(2, 2, EventQueue::new());
    assert_eq!(h.get_vector_pos((1, 0, 1234)), Err("Index out of bounds: 4937".to_string()));
}

#[test]
fn checked_water_update_moves_water_above_the_floor() {
    let mut g = world();
    let mut w = Cube::new(WATER_CUBE);
    w.water_level = FULL_WATER;
    *g.get_cube_mut((20, 20, 21)) = w;
    *g.get_cube_mut((20, 20, 20)) = Cube::new(EMPTY_CUBE);
    g.active_water.push_back((20, 20, 21));
    assert!(g.try_update_active_water());
    assert_eq!(g.get_cube((20, 20, 20)).cube_type, WATER_CUBE);
    assert_eq!(g.get_cube((20, 20, 21)).cube_type, EMPTY_CUBE);
    assert_eq!(g.active_water.len(), 1);
    assert_eq!(g.active_water[0], (20, 20, 20));
}

#[test]
fn checked_water_update_stops_at_water_on_the_floor() {
    let mut g = world();
    let mut w = Cube::new(WATER_CUBE);
    w.water_level = FULL_WATER;
    *g.get_cube_mut((20, 20, 0)) = w;
    g.active_water.push_back((20, 20, 0));
    assert!(!g.try_update_active_water());
    assert_eq!(g.active_water.len(), 1);
    assert_eq!(g.active_water[0], (20, 20, 0));
    assert_eq!(*g.get_cube((20, 20, 0)), w);
}

#[test]
fn the_cube_above_is_found_in_a_grid_of_width_zero() {
    let g = Grid::new(0, 3, EventQueue::new());
    assert_eq!(g.get_blocking_cube(&CubeFace::Z, 0), None);
}
