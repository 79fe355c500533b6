use cubes::events::EventQueue;
use cubes::grid::{Cube, Grid};
use cubes::input::{ButtonState, InputBuffer, InputState};
use cubes::agents::{AgentEvent, AgentTask};
use cubes::view::{
    apply_selection_input, dot, find_sprite, get_screen_coord, handle_selection, ScreenPos,
    ViewState, WorldPos, KEY_A, KEY_D, KEY_H, KEY_K, KEY_L, KEY_N, KEY_P, KEY_R, KEY_S, KEY_SPACE,
    KEY_W, KEY_X,
};
use cubes::render::Sprite;
use cubes::{Compass, EMPTY_CUBE, GRID_HEIGHT, GRID_WIDTH, LANTERN_CUBE, STONE_CUBE};

#[test]
fn a_key_is_pressed_then_held_then_released_then_forgotten() {
    let mut b = InputBuffer::new();
    b.update_button_states(vec![KEY_N], false, false);
    assert!(b.button_pressed(KEY_N));
    assert!(b.button_pressed_or_held(KEY_N));
    assert!(!b.button_held(KEY_N));
    b.update_button_states(vec![KEY_N], false, false);
    assert!(!b.button_pressed(KEY_N));
    assert!(b.button_held(KEY_N));
    assert!(b.button_pressed_or_held(KEY_N));
    b.update_button_states(vec![], false, false);
    assert!(b.button_released(KEY_N));
    assert!(!b.button_pressed_or_held(KEY_N));
    b.update_button_states(vec![], false, false);
    assert!(!b.button_released(KEY_N));
    assert!(b.button_states.is_empty());
}

#[test]
fn a_key_listed_twice_in_one_frame_counts_as_held() {
    let mut b = InputBuffer::new();
    b.update_button_states(vec![KEY_A, KEY_A, KEY_D], false, false);
    assert_eq!(b.button_states.get(&KEY_A), Some(&ButtonState::Held));
    assert_eq!(b.button_states.get(&KEY_D), Some(&ButtonState::Pressed));
}

#[test]
fn the_left_mouse_button_cycles_and_the_right_one_is_left_alone() {
    let mut b = InputBuffer::new();
    b.update_button_states(vec![], true, true);
    assert!(b.left_mouse_pressed());
    assert!(!b.right_mouse_pressed());
    assert_eq!(b.right_mouse_state, ButtonState::Released);
    b.update_button_states(vec![], true, true);
    assert!(!b.left_mouse_pressed());
    assert_eq!(b.left_mouse_state, ButtonState::Held);
    b.update_button_states(vec![], false, false);
    assert_eq!(b.left_mouse_state, ButtonState::Released);
}

#[test]
fn screen_coordinates_for_each_camera() {
    assert_eq!(get_screen_coord(&Compass::North, (0, 0, 0)), (1000, 300));
    assert_eq!(get_screen_coord(&Compass::North, (1, 2, 3)), (988, 282));
    assert_eq!(get_screen_coord(&Compass::East, (1, 2, 3)), (1464, 558));
    assert_eq!(get_screen_coord(&Compass::South, (1, 2, 3)), (1012, 996));
    assert_eq!(get_screen_coord(&Compass::West, (1, 2, 3)), (536, 570));
    assert_eq!(dot((1, -1, 0), (4, 5, 6)), -1);
    assert_eq!(dot((1, 1, -2), (4, 5, 6)), -3);
}

#[test]
fn negative_screen_coordinates_wrap() {
    let (x, _) = get_screen_coord(&Compass::West, (0, 0, 0));
    assert_eq!(x, 500);
    let (_, y) = get_screen_coord(&Compass::North, (0, 0, 100));
    assert_eq!(y, (300i32 - 1200) as usize);
}

#[test]
fn positions_compare_by_their_fields() {
    assert_eq!(WorldPos::new(1, 2, 3), WorldPos { x: 1, y: 2, z: 3 });
    assert_ne!(WorldPos::new(1, 2, 3), WorldPos::new(1, 2, 4));
    assert_eq!(ScreenPos::new(4, 5), ScreenPos { x: 4, y: 5 });
}

#[test]
fn sprites_are_picked_by_cube_type() {
    let sprites = vec![Sprite { pixels: [1; 576] }, Sprite { pixels: [2; 576] }];
    assert_eq!(find_sprite(&Cube::new(1), &sprites).pixels[0], 2);
}

#[test]
fn selecting_an_agent_and_then_a_cube_sends_it_there() {
    let mut state = InputState::new();
    assert!(handle_selection(&Cube::new(STONE_CUBE), (1, 2, 3), &mut state).is_none());
    assert_eq!(state.selected_agent, None);
    assert!(handle_selection(&Cube::with_agent(4), (1, 2, 3), &mut state).is_none());
    assert_eq!(state.selected_agent, Some(4));
    match handle_selection(&Cube::new(STONE_CUBE), (7, 8, 9), &mut state) {
        Some(AgentEvent::AgentAddTask { task: AgentTask::FindPath { destination }, agent }) => {
            assert_eq!(destination, (7, 8, 10));
            assert_eq!(agent, 4);
        },
        _ => panic!("expected a request"),
    }
    assert_eq!(state.selected_agent, None);
}

fn keys(down: Vec<u32>) -> InputBuffer {
    let mut b = InputBuffer::new();
    b.update_button_states(down, false, false);
    b
}

#[test]
fn the_view_pans_scrolls_and_stays_inside_the_world() {
    let mut v = ViewState::new();
    assert_eq!(v.view_x, GRID_WIDTH - 60);
    assert_eq!(v.view_z, GRID_HEIGHT - 20);
    v.apply_view_input(&keys(vec![KEY_D, KEY_W, KEY_N]), 1);
    assert_eq!((v.view_x, v.view_y, v.view_z), (GRID_WIDTH - 60, GRID_WIDTH - 60, GRID_HEIGHT - 20));
    assert!(v.night_mode);
    v.apply_view_input(&keys(vec![KEY_A, KEY_S]), -1);
    assert_eq!((v.view_x, v.view_y, v.view_z), (GRID_WIDTH - 61, GRID_WIDTH - 61, GRID_HEIGHT - 21));
    let mut corner = ViewState { view_x: 0, view_y: 0, view_z: 0, compass: Compass::North, night_mode: false };
    corner.apply_view_input(&keys(vec![KEY_A, KEY_S]), -1);
    assert_eq!((corner.view_x, corner.view_y, corner.view_z), (0, 0, 0));
}

#[test]
fn selection_input_digs_builds_turns_and_asks_workers() {
    let mut g = Grid::new(GRID_WIDTH, GRID_HEIGHT, EventQueue::new());
    *g.get_cube_mut((245, 245, 46)) = Cube::new(EMPTY_CUBE);
    let mut v = ViewState::new();
    let sel = WorldPos::new(5, 5, 5);
    let mut state = InputState::new();
    let r = apply_selection_input(&mut v, &keys(vec![KEY_X, KEY_R]), sel, &mut g, &mut state);
    assert!(r.is_empty());
    assert_eq!(g.get_cube((245, 245, 45)).cube_type, EMPTY_CUBE);
    assert_eq!(v.compass, Compass::East);
    let mut right = InputBuffer::new();
    right.right_mouse_state = ButtonState::Pressed;
    *g.get_cube_mut((245, 245, 45)) = Cube::new(STONE_CUBE);
    let r = apply_selection_input(&mut v, &right, sel, &mut g, &mut state);
    assert!(r.is_empty());
    assert_eq!(g.get_cube((245, 245, 46)).cube_type, STONE_CUBE);
    state.selected_agent = Some(1);
    let r = apply_selection_input(&mut v, &keys(vec![KEY_P, KEY_K, KEY_L, KEY_H]), sel, &mut g, &mut state);
    assert_eq!(r.len(), 3);
    assert!(matches!(r[0], AgentEvent::AgentAddTask { task: AgentTask::Plough { target: (245, 245, 45) }, agent: 1 }));
    assert!(matches!(r[1], AgentEvent::AgentAddTask { task: AgentTask::Dig { target: (245, 245, 45) }, agent: 1 }));
    match &r[2] {
        AgentEvent::AgentAddTask { task: AgentTask::Place { target, cube }, agent } => {
            assert_eq!(*target, (245, 245, 46));
            assert_eq!(cube.cube_type, LANTERN_CUBE);
            assert_eq!(*agent, 1);
        },
        _ => panic!("expected a lantern"),
    }
    assert_eq!((v.view_x, v.view_y, v.view_z), (GRID_WIDTH - 60, GRID_WIDTH - 60, GRID_HEIGHT - 20));
    let mut click = InputBuffer::new();
    click.update_button_states(vec![KEY_SPACE], false, false);
    let r = apply_selection_input(&mut v, &click, sel, &mut g, &mut state);
    assert_eq!(r.len(), 1);
    assert_eq!(state.selected_agent, None);
}

#[test]
fn four_quarter_turns_come_back_to_the_start() {
    let mut v = ViewState::new();
    let mut g = Grid::new(GRID_WIDTH, GRID_HEIGHT, EventQueue::new());
    let mut state = InputState::new();
    let seen = [Compass::East, Compass::South, Compass::West, Compass::North];
    for c in seen {
        apply_selection_input(&mut v, &keys(vec![KEY_R]), WorldPos::new(0, 0, 0), &mut g, &mut state);
        assert_eq!(v.compass, c);
    }
}

#[test]
fn the_first_filled_cell_under_the_mouse_is_picked() {
    let mut g = Grid::new(GRID_WIDTH, GRID_HEIGHT, EventQueue::new());
    *g.get_cube_mut((5, 5, 30)) = Cube::new(EMPTY_CUBE);
    *g.get_cube_mut((6, 6, 29)) = Cube::with_agent(0);
    let cells = vec![(0, 0, 1000), (5, 5, 30), (6, 6, 29), (7, 7, 28)];
    assert_eq!(cubes::view::first_filled(&g, &cells), Some(2));
    assert_eq!(cubes::view::first_filled(&g, &vec![(0, 0, 1000), (5, 5, 30)]), None);
}
