use std::sync::Arc;

use cubes::agents::{find_path, Agent, AgentCoroutine, AgentEvent, AgentTask, Direction};
use cubes::animation::{Animation, AnimationPool};
use cubes::events::EventQueue;
use cubes::game::{
    advance_task, handle_agent_event, handle_grid_events, is_valid_task, run_tick,
    start_next_task, update_agent,
};
use cubes::grid::{Cube, Grid};
use cubes::render::Sprite;
use cubes::resources::load_animations;
use cubes::world_generation::{shape_world, PerlinNoise};
use cubes::{Compass, EMPTY_CUBE, GRID_WIDTH, LANTERN_CUBE, PLOUGHED_CUBE, STONE_CUBE};

fn sprite(v: u32) -> Sprite {
    Sprite { pixels: [v; 576] }
}

fn pool() -> Arc<AnimationPool> {
    Arc::new(load_animations(
        vec![sprite(1), sprite(2)],
        vec![sprite(3), sprite(4), sprite(5)],
        vec![sprite(6), sprite(7)],
        vec![sprite(8), sprite(9)],
        vec![sprite(10), sprite(11)],
        vec![sprite(12), sprite(13)],
        sprite(14),
    ))
}

/// Flat ground: grass at level 40, air from level 41 up.
fn flat_world() -> Grid {
    let noise = PerlinNoise { pixels: vec![0; 4], width: 2, height: 2, z_scale: 7 };
    shape_world(EventQueue::new(), &noise, &vec![])
}

fn worker(pool: &Arc<AnimationPool>, position: (usize, usize, usize), id: usize) -> Agent {
    Agent {
        name: "worker".to_string(),
        animation: pool.get("idle").unwrap(),
        animation_state: 0,
        animation_pool: Arc::clone(pool),
        position,
        destination: None,
        tasks: vec![],
        active_task: None,
        id,
        direction: Direction::Px,
    }
}

fn leads_back(g: &Grid, start: (usize, usize, usize), path: &Vec<(usize, usize, usize)>) -> bool {
    let mut prev = start;
    for p in path.iter().rev() {
        let dx = (p.0 as i64 - prev.0 as i64).abs();
        let dy = (p.1 as i64 - prev.1 as i64).abs();
        let dz = (p.2 as i64 - prev.2 as i64).abs();
        if dx + dy != 1 || dz > 1 || g.get_cube(*p).cube_type != EMPTY_CUBE {
            return false;
        }
        prev = *p;
    }
    true
}

#[test]
fn a_path_on_flat_ground_goes_straight() {
    let g = flat_world();
    let path = find_path((10, 10, 41), (13, 10, 41), &g).unwrap();
    assert_eq!(path.len(), 3);
    assert_eq!(path[0], (13, 10, 41));
    assert_eq!(*path.last().unwrap(), (11, 10, 41));
    assert!(leads_back(&g, (10, 10, 41), &path));
}

#[test]
fn a_path_climbs_a_step() {
    let mut g = flat_world();
    *g.get_cube_mut((12, 10, 41)) = Cube::new(STONE_CUBE);
    let path = find_path((10, 10, 41), (12, 10, 42), &g).unwrap();
    assert_eq!(path[0], (12, 10, 42));
    assert!(leads_back(&g, (10, 10, 41), &path));
}

#[test]
fn no_path_to_where_one_stands_or_to_a_walled_in_cell() {
    let mut g = flat_world();
    assert!(find_path((10, 10, 41), (10, 10, 41), &g).is_none());
    for p in [(49, 50, 41), (51, 50, 41), (50, 49, 41), (50, 51, 41)] {
        for z in 41..44 {
            *g.get_cube_mut((p.0, p.1, z)) = Cube::new(STONE_CUBE);
        }
    }
    assert!(find_path((10, 10, 41), (50, 50, 41), &g).is_none());
}

#[test]
fn tasks_name_where_the_agent_must_stand() {
    assert_eq!(AgentTask::FindPath { destination: (1, 2, 3) }.get_required_position(), None);
    assert_eq!(
        AgentTask::Plough { target: (5, 6, 7) }.get_required_position(),
        Some(vec![(5, 6, 8)])
    );
    assert_eq!(
        AgentTask::Dig { target: (5, 6, 7) }.get_required_position(),
        Some(vec![(4, 6, 8), (6, 6, 8), (5, 5, 8), (5, 7, 8)])
    );
    assert_eq!(
        AgentTask::Place { target: (0, 0, 1), cube: Cube::new(LANTERN_CUBE) }.get_required_position(),
        Some(vec![(1, 0, 2), (0, 1, 2)])
    );
}

#[test]
fn animations_switch_by_name_and_cycle() {
    let pool = pool();
    let mut a = worker(&pool, (10, 10, 41), 0);
    assert_eq!(a.animation.name(), "idle");
    a.change_animation("mining");
    assert_eq!(a.animation.name(), "mining");
    assert_eq!(a.animation.length(), 3);
    assert_eq!(a.animation_state, 0);
    a.advance_animation_state();
    a.advance_animation_state();
    assert_eq!(a.animation_state, 2);
    a.change_animation("mining");
    assert_eq!(a.animation_state, 2);
    a.advance_animation_state();
    assert_eq!(a.animation_state, 0);
}

#[test]
fn the_frame_follows_the_heading_on_screen() {
    let pool = pool();
    let mut a = worker(&pool, (10, 10, 41), 0);
    a.change_animation("running");
    a.direction = Direction::Px;
    assert_eq!(a.get_current_animation_frame(&Compass::North).pixels[0], 8);
    assert_eq!(a.get_current_animation_frame(&Compass::East).pixels[0], 10);
    assert_eq!(a.get_current_animation_frame(&Compass::South).pixels[0], 12);
    assert_eq!(a.get_current_animation_frame(&Compass::West).pixels[0], 6);
    a.change_animation("idle");
    assert_eq!(a.get_current_animation_frame(&Compass::North).pixels[0], 14);
}

#[test]
fn a_move_takes_the_next_step() {
    let pool = pool();
    let mut g = flat_world();
    let mut a = worker(&pool, (10, 10, 41), 0);
    g.spawn_agent(&a);
    a.active_task = Some(AgentCoroutine {
        end_tick: 0,
        task: AgentTask::Move { path: vec![(12, 10, 41), (11, 10, 41)], destination: (12, 10, 41) },
        completed: false,
    });
    advance_task(&mut a, &mut g);
    assert_eq!(a.position, (11, 10, 41));
    assert_eq!(a.direction, Direction::Px);
    assert_eq!(g.get_cube((11, 10, 41)).agent, Some(0));
    assert_eq!(g.get_cube((10, 10, 41)).agent, None);
    assert!(!a.active_task.as_ref().unwrap().completed);
    advance_task(&mut a, &mut g);
    assert_eq!(a.position, (12, 10, 41));
    assert!(a.active_task.as_ref().unwrap().completed);
}

#[test]
fn a_blocked_move_ends() {
    let pool = pool();
    let mut g = flat_world();
    let mut a = worker(&pool, (10, 10, 41), 0);
    *g.get_cube_mut((11, 10, 41)) = Cube::new(STONE_CUBE);
    a.active_task = Some(AgentCoroutine {
        end_tick: 0,
        task: AgentTask::Move { path: vec![(12, 10, 41), (11, 10, 41)], destination: (12, 10, 41) },
        completed: false,
    });
    advance_task(&mut a, &mut g);
    assert_eq!(a.position, (10, 10, 41));
    assert!(a.active_task.as_ref().unwrap().completed);
    assert!(a.tasks.is_empty());
}

#[test]
fn ploughing_digging_and_placing_change_the_target() {
    let pool = pool();
    let mut g = flat_world();
    let mut a = worker(&pool, (10, 10, 41), 0);
    a.active_task = Some(AgentCoroutine { end_tick: 0, task: AgentTask::Plough { target: (11, 10, 40) }, completed: false });
    advance_task(&mut a, &mut g);
    assert_eq!(g.get_cube((11, 10, 40)).cube_type, PLOUGHED_CUBE);
    assert!(a.active_task.as_ref().unwrap().completed);
    a.active_task = Some(AgentCoroutine { end_tick: 0, task: AgentTask::Dig { target: (12, 10, 40) }, completed: false });
    advance_task(&mut a, &mut g);
    assert_eq!(g.get_cube((12, 10, 40)).cube_type, EMPTY_CUBE);
    assert_eq!(g.events.cube_events.len(), 1);
    a.active_task = Some(AgentCoroutine {
        end_tick: 0,
        task: AgentTask::Place { target: (13, 10, 41), cube: Cube::new(LANTERN_CUBE) },
        completed: false,
    });
    advance_task(&mut a, &mut g);
    assert_eq!(g.get_cube((13, 10, 41)).cube_type, LANTERN_CUBE);
    assert_eq!(g.get_cube((13, 10, 42)).light_level, cubes::grid::Light::from_level(9));
}

#[test]
fn finding_a_path_queues_a_walk() {
    let pool = pool();
    let g0 = flat_world();
    let mut g = flat_world();
    let mut a = worker(&pool, (10, 10, 41), 0);
    a.tasks.push(AgentTask::Dig { target: (1, 1, 1) });
    a.active_task = Some(AgentCoroutine { end_tick: 0, task: AgentTask::FindPath { destination: (10, 14, 41) }, completed: false });
    advance_task(&mut a, &mut g);
    assert_eq!(a.tasks.len(), 2);
    match &a.tasks[0] {
        AgentTask::Move { path, destination } => {
            assert_eq!(*destination, (10, 14, 41));
            assert_eq!(path.len(), 4);
            assert!(leads_back(&g0, (10, 10, 41), path));
        },
        _ => panic!("expected a walk"),
    }
    assert!(a.active_task.as_ref().unwrap().completed);
}

#[test]
fn an_idle_agent_takes_up_its_next_task() {
    let pool = pool();
    let g = flat_world();
    let mut a = worker(&pool, (10, 10, 41), 0);
    a.tasks.push(AgentTask::FindPath { destination: (10, 12, 41) });
    start_next_task(&mut a, &g, 5);
    assert!(a.tasks.is_empty());
    let c = a.active_task.as_ref().unwrap();
    assert_eq!(c.end_tick, 5);
    assert!(matches!(c.task, AgentTask::FindPath { destination: (10, 12, 41) }));
}

#[test]
fn a_task_elsewhere_is_preceded_by_a_walk_there() {
    let pool = pool();
    let g = flat_world();
    let mut a = worker(&pool, (10, 10, 41), 0);
    a.tasks.push(AgentTask::Plough { target: (12, 10, 40) });
    start_next_task(&mut a, &g, 3);
    assert_eq!(a.tasks.len(), 1);
    assert!(matches!(a.tasks[0], AgentTask::Plough { target: (12, 10, 40) }));
    let c = a.active_task.as_ref().unwrap();
    assert_eq!(c.end_tick, 4);
    match &c.task {
        AgentTask::Move { path, destination } => {
            assert_eq!(*destination, (12, 10, 41));
            assert_eq!(path[0], (12, 10, 41));
        },
        _ => panic!("expected a walk"),
    }
    assert_eq!(a.animation.name(), "running");
}

#[test]
fn a_task_that_cannot_be_reached_is_dropped() {
    let pool = pool();
    let g = flat_world();
    let mut a = worker(&pool, (10, 10, 41), 0);
    a.tasks.push(AgentTask::Plough { target: (12, 10, 30) });
    start_next_task(&mut a, &g, 3);
    assert!(a.tasks.is_empty());
    assert!(a.active_task.is_none());
    assert_eq!(a.animation.name(), "ploughing");
}

#[test]
fn with_nothing_to_do_an_agent_idles() {
    let pool = pool();
    let g = flat_world();
    let mut a = worker(&pool, (10, 10, 41), 0);
    a.change_animation("mining");
    start_next_task(&mut a, &g, 3);
    assert_eq!(a.animation.name(), "idle");
    assert!(a.active_task.is_none());
}

#[test]
fn a_task_not_yet_due_waits() {
    let pool = pool();
    let mut g = flat_world();
    let mut a = worker(&pool, (10, 10, 41), 0);
    a.active_task = Some(AgentCoroutine { end_tick: 10, task: AgentTask::Dig { target: (11, 10, 40) }, completed: false });
    update_agent(&mut a, &mut g, 9);
    assert_eq!(g.get_cube((11, 10, 40)).cube_type, cubes::GRASS_CUBE);
    assert!(a.active_task.is_some());
    update_agent(&mut a, &mut g, 10);
    assert_eq!(g.get_cube((11, 10, 40)).cube_type, EMPTY_CUBE);
    assert!(a.active_task.is_none());
}

#[test]
fn a_worker_sent_somewhere_walks_there_tick_by_tick() {
    let pool = pool();
    let mut g = flat_world();
    let a = worker(&pool, (10, 10, 41), 0);
    g.spawn_agent(&a);
    let mut agents = vec![a];
    let event = AgentEvent::AgentAddTask { task: AgentTask::FindPath { destination: (10, 13, 41) }, agent: 0 };
    assert!(is_valid_task(&AgentTask::FindPath { destination: (10, 13, 41) }));
    run_tick(&mut agents, &mut g, Some(event), 0);
    for tick in 1..10u32 {
        run_tick(&mut agents, &mut g, None, tick);
    }
    assert_eq!(agents[0].position, (10, 13, 41));
    assert_eq!(g.get_cube((10, 13, 41)).agent, Some(0));
    assert_eq!(agents[0].direction, Direction::Py);
}

#[test]
fn requests_are_queued_behind_an_agents_tasks() {
    let pool = pool();
    let mut agents = vec![worker(&pool, (1, 1, 41), 0), worker(&pool, (2, 2, 41), 1)];
    agents[1].tasks.push(AgentTask::Dig { target: (3, 3, 3) });
    handle_agent_event(&mut agents, AgentEvent::AgentAddTask { task: AgentTask::Plough { target: (4, 4, 4) }, agent: 1 });
    assert_eq!(agents[1].tasks.len(), 2);
    assert!(matches!(agents[1].tasks[1], AgentTask::Plough { target: (4, 4, 4) }));
    assert!(agents[0].tasks.is_empty());
}

#[test]
fn grid_events_are_handed_to_the_water() {
    let mut g = flat_world();
    g.delete_cube((5, 5, 40));
    assert_eq!(g.events.cube_events.len(), 1);
    handle_grid_events(&mut g);
    assert_eq!(g.events.cube_events.len(), 0);
    assert_eq!(g.active_water.len(), 0);
}

#[test]
fn task_validity() {
    assert!(!is_valid_task(&AgentTask::Move { path: vec![], destination: (0, 0, 0) }));
    assert!(!is_valid_task(&AgentTask::Move { path: vec![(1, 1, 0)], destination: (1, 1, 0) }));
    assert!(is_valid_task(&AgentTask::Move { path: vec![(1, 1, 1)], destination: (1, 1, 1) }));
    assert!(!is_valid_task(&AgentTask::Plough { target: (GRID_WIDTH, 0, 0) }));
    assert!(!is_valid_task(&AgentTask::Place { target: (0, 0, 60), cube: Cube::new(LANTERN_CUBE) }));
    assert!(is_valid_task(&AgentTask::FindPath { destination: (40000, 0, 0) }));
}

#[test]
fn animation_names_and_lengths() {
    let a = Animation::CompassAwareAnimation {
        frames_ne: vec![sprite(0), sprite(0)],
        frames_se: vec![],
        frames_sw: vec![],
        frames_nw: vec![],
        name: "run".to_string(),
    };
    assert_eq!(a.name(), "run");
    assert_eq!(a.length(), 2);
    let pool = pool();
    assert!(pool.get("swimming").is_none());
    assert_eq!(pool.get("ploughing").unwrap().length(), 2);
}

#[test]
fn paths_are_found_on_a_grid_of_few_levels() {
    let mut g = Grid::new(GRID_WIDTH, 3, EventQueue::new());
    g.delete_cube((0, 0, 1));
    g.delete_cube((1, 0, 1));
    g.delete_cube((2, 0, 1));
    assert_eq!(find_path((0, 0, 1), (2, 0, 1), &g), Some(vec![(2, 0, 1), (1, 0, 1)]));
}

#[test]
fn a_move_steps_on_a_grid_of_few_levels() {
    let pool = pool();
    let mut g = Grid::new(GRID_WIDTH, 3, EventQueue::new());
    g.delete_cube((1, 0, 1));
    g.delete_cube((2, 0, 1));
    g.place_cube((0, 0, 1), Cube::with_agent(0));
    let mut a = worker(&pool, (0, 0, 1), 0);
    a.destination = Some((2, 0, 1));
    a.active_task = Some(AgentCoroutine {
        end_tick: 0,
        task: AgentTask::Move { path: vec![(2, 0, 1), (1, 0, 1)], destination: (2, 0, 1) },
        completed: false,
    });
    advance_task(&mut a, &mut g);
    assert_eq!(a.position, (1, 0, 1));
    let c = a.active_task.as_ref().unwrap();
    assert!(!c.completed);
    match &c.task {
        AgentTask::Move { path, destination } => {
            assert_eq!(*path, vec![(2, 0, 1)]);
            assert_eq!(*destination, (2, 0, 1));
        },
        _ => panic!("expected a walk"),
    }
    assert_eq!(g.get_cube((1, 0, 1)).agent, Some(0));
    assert_eq!(g.get_cube((0, 0, 1)).agent, None);
    assert_eq!(g.get_cube((0, 0, 1)).cube_type, EMPTY_CUBE);
}

#[test]
fn an_end_outside_the_world_is_never_reached() {
    let g = flat_world();
    assert!(find_path((10, 10, 41), (100000, 0, 0), &g).is_none());
    assert!(find_path((10, 10, 41), (10, 10, 400), &g).is_none());
}

#[test]
fn a_path_visits_no_position_twice_and_leaves_out_the_start() {
    let mut g = flat_world();
    for y in 5..15 {
        *g.get_cube_mut((20, y, 41)) = Cube::new(STONE_CUBE);
        *g.get_cube_mut((20, y, 42)) = Cube::new(STONE_CUBE);
    }
    let start = (18, 10, 41);
    let path = find_path(start, (22, 10, 41), &g).unwrap();
    assert!(!path.contains(&start));
    for i in 0..path.len() {
        for j in i + 1..path.len() {
            assert_ne!(path[i], path[j]);
        }
    }
    assert!(leads_back(&g, start, &path));
}

#[test]
fn a_request_that_reaches_outside_the_world_is_dropped() {
    let pool = pool();
    let mut g = flat_world();
    let a = worker(&pool, (10, 10, 41), 0);
    g.spawn_agent(&a);
    let mut agents = vec![a];
    let event = AgentEvent::AgentAddTask {
        task: AgentTask::Place { target: (10, 10, 60), cube: Cube::new(LANTERN_CUBE) },
        agent: 0,
    };
    run_tick(&mut agents, &mut g, Some(event), 0);
    assert!(agents[0].tasks.is_empty());
    assert!(agents[0].active_task.is_none());
}

#[test]
fn readiness_can_be_checked() {
    let pool = pool();
    let mut a = worker(&pool, (10, 10, 41), 0);
    assert!(cubes::game::is_agent_ready(&a));
    a.animation_state = 7;
    assert!(!cubes::game::is_agent_ready(&a));
    a.animation_state = 0;
    a.tasks.push(AgentTask::Dig { target: (0, 0, 60) });
    assert!(!cubes::game::is_agent_ready(&a));
    let empty = AnimationPool { animations: vec![] };
    assert!(!cubes::game::is_pool_ready(&empty));
    let mut g = flat_world();
    g.delete_cube((1, 1, 1));
    assert!(cubes::game::are_events_inside(&g));
}

#[test]
fn digging_and_ploughing_on_the_floor_leave_the_grid_alone() {
    let pool = pool();
    let g0 = flat_world();
    let mut g = flat_world();
    let mut a = worker(&pool, (10, 10, 0), 0);
    a.active_task = Some(AgentCoroutine { end_tick: 0, task: AgentTask::Dig { target: (11, 10, 40) }, completed: false });
    advance_task(&mut a, &mut g);
    assert!(a.active_task.as_ref().unwrap().completed);
    assert_eq!(g.get_cube((11, 10, 40)).cube_type, g0.get_cube((11, 10, 40)).cube_type);
    assert!(g.events.cube_events.is_empty());
    a.active_task = Some(AgentCoroutine { end_tick: 0, task: AgentTask::Plough { target: (11, 10, 40) }, completed: false });
    advance_task(&mut a, &mut g);
    assert!(a.active_task.as_ref().unwrap().completed);
    assert_eq!(g.get_cube((11, 10, 40)).cube_type, g0.get_cube((11, 10, 40)).cube_type);
    assert_eq!(a.position, (10, 10, 0));
}

#[test]
fn placing_does_not_depend_on_where_the_worker_stands() {
    let pool = pool();
    let mut g = flat_world();
    let mut a = worker(&pool, (1000, 1000, 1000), 0);
    a.animation_state = 57;
    a.active_task = Some(AgentCoroutine {
        end_tick: 0,
        task: AgentTask::Place { target: (13, 10, 41), cube: Cube::new(STONE_CUBE) },
        completed: true,
    });
    advance_task(&mut a, &mut g);
    assert_eq!(g.get_cube((13, 10, 41)).cube_type, STONE_CUBE);
    assert!(a.active_task.as_ref().unwrap().completed);
    assert_eq!(a.position, (1000, 1000, 1000));
}
