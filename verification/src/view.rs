//! The camera: where cubes land on screen, and what the player's selection does.

use vstd::prelude::*;

use crate::agents::{AgentEvent, AgentTask};
use crate::game::occupied;
use crate::grid::{in_box, new_cube, Cube, Grid};
use crate::input::{ButtonState, InputBuffer, InputState};
use crate::render::Sprite;
use crate::{
    Compass, Pos, GRID_HEIGHT, GRID_WIDTH, LANTERN_CUBE, STONE_CUBE, VIEW_HEIGHT, VIEW_WIDTH,
};

verus! {

/// A pixel position on screen.
#[derive(Clone, Copy, PartialEq, Eq, Structural, Debug)]
pub struct ScreenPos {
    pub x: u32,
    pub y: u32,
}

impl ScreenPos {
    pub fn new(x: u32, y: u32) -> (s: ScreenPos)
        ensures
            s == (ScreenPos { x, y }),
    {
        ScreenPos { x, y }
    }
}

/// A cube position relative to the corner of the part of the world in view.
#[derive(Clone, Copy, PartialEq, Eq, Structural, Debug)]
pub struct WorldPos {
    pub x: usize,
    pub y: usize,
    pub z: usize,
}

impl WorldPos {
    pub fn new(x: usize, y: usize, z: usize) -> (w: WorldPos)
        ensures
            w == (WorldPos { x, y, z }),
    {
        WorldPos { x, y, z }
    }
}

/// `v` fits in an `i32`.
pub open spec fn fits_i32(v: int) -> bool {
    i32::MIN <= v <= i32::MAX
}

/// The dot product of two integer triples.
pub open spec fn dot_of(a: (int, int, int), b: (int, int, int)) -> int {
    a.0 * b.0 + a.1 * b.1 + a.2 * b.2
}

/// Every partial sum of the dot product of `a` and `b` fits in an `i32`.
pub open spec fn dot_fits(a: (i32, i32, i32), b: (i32, i32, i32)) -> bool {
    &&& fits_i32(a.0 * b.0)
    &&& fits_i32(a.1 * b.1)
    &&& fits_i32(a.2 * b.2)
    &&& fits_i32(a.0 * b.0 + a.1 * b.1)
    &&& fits_i32(a.0 * b.0 + a.1 * b.1 + a.2 * b.2)
}

/// The dot product of two triples.
pub fn dot(p0: (i32, i32, i32), p1: (i32, i32, i32)) -> (r: i32)
    requires
        dot_fits(p0, p1),
    ensures
        r == dot_of((p0.0 as int, p0.1 as int, p0.2 as int), (p1.0 as int, p1.1 as int, p1.2 as int)),
{
    p0.0 * p1.0 + p0.1 * p1.1 + p0.2 * p1.2
}

/// The screen's x and y direction in world coordinates, seen from `compass`, and the
/// offset that keeps the view on screen.
pub open spec fn camera(compass: Compass) -> ((i32, i32, i32), (i32, i32, i32), int, int) {
    match compass {
        Compass::North => ((1i32, -1i32, 0i32), (1i32, 1i32, -2i32), 0, -300),
        Compass::East => ((-1i32, -1i32, 0i32), (1i32, -1i32, -2i32), 500, 0),
        Compass::South => ((-1i32, 1i32, 0i32), (-1i32, -1i32, -2i32), 0, 450),
        Compass::West => ((1i32, 1i32, 0i32), (-1i32, 1i32, -2i32), -500, 0),
    }
}

/// `p` read as three `i32`s.
pub open spec fn as_i32s(p: Pos) -> (i32, i32, i32) {
    (p.0 as i32, p.1 as i32, p.2 as i32)
}

/// The screen x of the tile of the cube at `p`, before it is cast to `usize`.
pub open spec fn screen_x(compass: Compass, p: Pos) -> int {
    let (cx, cy, ox, oy) = camera(compass);
    dot_of((cx.0 as int, cx.1 as int, cx.2 as int), (p.0 as int, p.1 as int, p.2 as int)) * 12
        + 1000 + ox
}

/// The screen y of the tile of the cube at `p`, before it is cast to `usize`.
pub open spec fn screen_y(compass: Compass, p: Pos) -> int {
    let (cx, cy, ox, oy) = camera(compass);
    dot_of((cy.0 as int, cy.1 as int, cy.2 as int), (p.0 as int, p.1 as int, p.2 as int)) * 6
        + 600 + oy
}

/// The projection of `p` can be worked out in `i32` without overflow.
pub open spec fn projection_fits(compass: Compass, p: Pos) -> bool {
    let (cx, cy, ox, oy) = camera(compass);
    let w = as_i32s(p);
    let dx = dot_of((cx.0 as int, cx.1 as int, cx.2 as int), (p.0 as int, p.1 as int, p.2 as int));
    let dy = dot_of((cy.0 as int, cy.1 as int, cy.2 as int), (p.0 as int, p.1 as int, p.2 as int));
    &&& p.0 <= i32::MAX
    &&& p.1 <= i32::MAX
    &&& p.2 <= i32::MAX
    &&& dot_fits(cx, w)
    &&& dot_fits(cy, w)
    &&& fits_i32(dx * 12)
    &&& fits_i32(dx * 12 + 1000)
    &&& fits_i32(screen_x(compass, p))
    &&& fits_i32(dy * 6)
    &&& fits_i32(dy * 6 + 600)
    &&& fits_i32(screen_y(compass, p))
}

/// Where on screen the tile of the cube at `world_space` goes: the world position turned
/// into camera space and projected onto the screen (a negative coordinate wraps around as
/// `as usize` does).
pub fn get_screen_coord(compass: &Compass, world_space: Pos) -> (r: (usize, usize))
    requires
        projection_fits(*compass, world_space),
    ensures
        r.0 == screen_x(*compass, world_space) as usize,
        r.1 == screen_y(*compass, world_space) as usize,
{
    let w = (world_space.0 as i32, world_space.1 as i32, world_space.2 as i32);
    let (camera_x_dir, camera_y_dir, x_offset, y_offset): ((i32, i32, i32), (i32, i32, i32), i32, i32) =
        match compass {
        Compass::North => ((1i32, -1i32, 0i32), (1i32, 1i32, -2i32), 0i32, -300i32),
        Compass::East => ((-1i32, -1i32, 0i32), (1i32, -1i32, -2i32), 500i32, 0i32),
        Compass::South => ((-1i32, 1i32, 0i32), (-1i32, -1i32, -2i32), 0i32, 450i32),
        Compass::West => ((1i32, 1i32, 0i32), (-1i32, 1i32, -2i32), -500i32, 0i32),
    };
    let sx = dot(camera_x_dir, w);
    let sy = dot(camera_y_dir, w);
    let sx = sx * 12 + 1000;
    let sy = sy * 6 + 600;
    ((sx + x_offset) as usize, (sy + y_offset) as usize)
}

/// The sprite of a cube of type `cube_data.cube_type`.
pub fn find_sprite<'a>(cube_data: &Cube, sprites: &'a Vec<Sprite>) -> (s: &'a Sprite)
    requires
        (cube_data.cube_type as int) < sprites@.len(),
    ensures
        *s == sprites@[cube_data.cube_type as int],
{
    &sprites[cube_data.cube_type as usize]
}

/// What selecting the cube at `selected_cube` does: a cube with an agent in it selects
/// that agent; any other cube sends the selected agent, if there is one, to stand on it
/// and clears the selection. Returns the request for the agent loop, if any.
pub fn handle_selection(
    cube: &Cube,
    selected_cube: Pos,
    selection_state: &mut InputState,
) -> (r: Option<AgentEvent>)
    requires
        selected_cube.2 < usize::MAX,
    ensures
        cube.agent matches Some(a) ==> r is None && final(selection_state).selected_agent == Some(
            a,
        ),
        cube.agent is None ==> match old(selection_state).selected_agent {
            Some(a) => final(selection_state).selected_agent is None && r == Some(
                AgentEvent::AgentAddTask {
                    task: AgentTask::FindPath {
                        destination: (selected_cube.0, selected_cube.1, (selected_cube.2 + 1) as usize),
                    },
                    agent: a as usize,
                },
            ),
            None => final(selection_state).selected_agent is None && r is None,
        },
{
    if let Some(agent) = cube.agent {
        selection_state.selected_agent = Some(agent);
        return None;
    }
    match selection_state.selected_agent {
        Some(agent) => {
            selection_state.selected_agent = None;
            Some(
                AgentEvent::AgentAddTask {
                    task: AgentTask::FindPath {
                        destination: (selected_cube.0, selected_cube.1, selected_cube.2 + 1),
                    },
                    agent: agent as usize,
                },
            )
        },
        None => None,
    }
}

/// Key codes of the keys the game listens to, as the window library numbers them.
pub const KEY_A: u32 = 10;
pub const KEY_D: u32 = 13;
pub const KEY_H: u32 = 17;
pub const KEY_K: u32 = 20;
pub const KEY_L: u32 = 21;
pub const KEY_N: u32 = 23;
pub const KEY_P: u32 = 25;
pub const KEY_R: u32 = 27;
pub const KEY_S: u32 = 28;
pub const KEY_W: u32 = 32;
pub const KEY_X: u32 = 33;
pub const KEY_ESCAPE: u32 = 70;
pub const KEY_SPACE: u32 = 77;

/// The part of the world in view, and how it is drawn.
#[derive(Clone, Copy, PartialEq, Eq, Structural, Debug)]
pub struct ViewState {
    pub view_x: usize,
    pub view_y: usize,
    pub view_z: usize,
    pub compass: Compass,
    pub night_mode: bool,
}

/// The view the game starts with and returns to: the far corner of the world, at the top,
/// seen from the north by day.
pub open spec fn home_view() -> ViewState {
    ViewState {
        view_x: (GRID_WIDTH - VIEW_WIDTH) as usize,
        view_y: (GRID_WIDTH - VIEW_WIDTH) as usize,
        view_z: (GRID_HEIGHT - VIEW_HEIGHT) as usize,
        compass: Compass::North,
        night_mode: false,
    }
}

/// The key `code` went down this frame.
pub open spec fn pressed(input: InputBuffer, code: u32) -> bool {
    input.button_states@.contains_key(code) && input.button_states@[code] == ButtonState::Pressed
}

/// The key `code` is down this frame.
pub open spec fn down(input: InputBuffer, code: u32) -> bool {
    input.button_states@.contains_key(code) && (input.button_states@[code] == ButtonState::Pressed
        || input.button_states@[code] == ButtonState::Held)
}

/// The compass after a quarter turn: north, east, south, west.
pub open spec fn turned(c: Compass) -> Compass {
    match c {
        Compass::North => Compass::East,
        Compass::East => Compass::South,
        Compass::South => Compass::West,
        Compass::West => Compass::North,
    }
}

/// The view after the scroll wheel (`scroll` above or below 0) and the keys: scrolling
/// moves the view up or down a level, N switches night on or off, D and A move it along
/// x, W and S along y, each within the world.
pub open spec fn panned(v: ViewState, input: InputBuffer, scroll: i8) -> ViewState {
    let z1 = if scroll > 0 && v.view_z < GRID_HEIGHT - VIEW_HEIGHT {
        v.view_z + 1
    } else {
        v.view_z as int
    };
    let z2 = if scroll < 0 && z1 > 0 {
        z1 - 1
    } else {
        z1
    };
    let x1 = if down(input, KEY_D) && v.view_x < GRID_WIDTH - VIEW_WIDTH {
        v.view_x + 1
    } else {
        v.view_x as int
    };
    let x2 = if down(input, KEY_A) && x1 > 0 {
        x1 - 1
    } else {
        x1
    };
    let y1 = if down(input, KEY_S) && v.view_y > 0 {
        v.view_y - 1
    } else {
        v.view_y as int
    };
    let y2 = if down(input, KEY_W) && y1 < GRID_WIDTH - VIEW_WIDTH {
        y1 + 1
    } else {
        y1
    };
    ViewState {
        view_x: x2 as usize,
        view_y: y2 as usize,
        view_z: z2 as usize,
        compass: v.compass,
        night_mode: if pressed(input, KEY_N) {
            !v.night_mode
        } else {
            v.night_mode
        },
    }
}

impl ViewState {
    pub fn new() -> (v: ViewState)
        ensures
            v == home_view(),
    {
        ViewState {
            view_x: GRID_WIDTH - VIEW_WIDTH,
            view_y: GRID_WIDTH - VIEW_WIDTH,
            view_z: GRID_HEIGHT - VIEW_HEIGHT,
            compass: Compass::North,
            night_mode: false,
        }
    }

    /// Moves the view as the scroll wheel and keys ask (see `panned`).
    pub fn apply_view_input(&mut self, input: &InputBuffer, scroll: i8)
        ensures
            *final(self) == panned(*old(self), *input, scroll),
    {
        if scroll > 0 && self.view_z < GRID_HEIGHT - VIEW_HEIGHT {
            self.view_z = self.view_z + 1;
        }
        if scroll < 0 && self.view_z > 0 {
            self.view_z = self.view_z - 1;
        }
        if input.button_pressed(KEY_N) {
            self.night_mode = !self.night_mode;
        }
        if input.button_pressed_or_held(KEY_D) && self.view_x < GRID_WIDTH - VIEW_WIDTH {
            self.view_x = self.view_x + 1;
        }
        if input.button_pressed_or_held(KEY_A) && self.view_x > 0 {
            self.view_x = self.view_x - 1;
        }
        if input.button_pressed_or_held(KEY_S) && self.view_y > 0 {
            self.view_y = self.view_y - 1;
        }
        if input.button_pressed_or_held(KEY_W) && self.view_y < GRID_WIDTH - VIEW_WIDTH {
            self.view_y = self.view_y + 1;
        }
    }
}

/// The world position of the cube at `sel` in the view `v`.
pub open spec fn world_of(v: ViewState, sel: WorldPos) -> Pos {
    ((sel.x + v.view_x) as usize, (sel.y + v.view_y) as usize, (sel.z + v.view_z) as usize)
}

/// The requests that keys P, K and L make for the selected agent `agent` (if any) about
/// the cube at `pos`: plough it, dig it, put a lantern on top of it.
pub open spec fn task_requests(input: InputBuffer, agent: Option<u8>, pos: Pos) -> Seq<AgentEvent> {
    match agent {
        None => Seq::empty(),
        Some(a) => {
            let s1: Seq<AgentEvent> = if pressed(input, KEY_P) {
                seq![AgentEvent::AgentAddTask { task: AgentTask::Plough { target: pos }, agent: a as usize }]
            } else {
                Seq::empty()
            };
            let s2 = if pressed(input, KEY_K) {
                s1.push(AgentEvent::AgentAddTask { task: AgentTask::Dig { target: pos }, agent: a as usize })
            } else {
                s1
            };
            if pressed(input, KEY_L) {
                s2.push(
                    AgentEvent::AgentAddTask {
                        task: AgentTask::Place {
                            target: (pos.0, pos.1, (pos.2 + 1) as usize),
                            cube: new_cube(LANTERN_CUBE),
                        },
                        agent: a as usize,
                    },
                )
            } else {
                s2
            }
        },
    }
}

/// The player selects this frame: Space or a left click.
pub open spec fn selecting(input: InputBuffer) -> bool {
    pressed(input, KEY_SPACE) || input.left_mouse_state == ButtonState::Pressed
}

/// The selected agent after the selection of `cube` this frame (see `handle_selection`).
pub open spec fn agent_selected(input: InputBuffer, cube: Cube, agent: Option<u8>) -> Option<u8> {
    if !selecting(input) {
        agent
    } else if cube.agent is Some {
        cube.agent
    } else {
        None
    }
}

/// The request the selection of `cube` at `pos` makes this frame, if any.
pub open spec fn selection_requests(input: InputBuffer, cube: Cube, agent: Option<u8>, pos: Pos) -> Seq<AgentEvent> {
    if selecting(input) && cube.agent is None && agent is Some {
        seq![
            AgentEvent::AgentAddTask {
                task: AgentTask::FindPath { destination: (pos.0, pos.1, (pos.2 + 1) as usize) },
                agent: agent->0 as usize,
            },
        ]
    } else {
        Seq::empty()
    }
}

/// X digs away the cube at `pos` this frame: no agent stands there.
pub open spec fn digs(input: InputBuffer, g: Grid, pos: Pos) -> bool {
    pressed(input, KEY_X) && g.cube_at(pos).agent is None
}

/// The cubes after a right click with `agent` selected: with no agent selected, a stone is
/// put on top of the cube at `pos` when that cell lies in the world and is free.
pub open spec fn built(input: InputBuffer, agent: Option<u8>, cubes: Seq<Cube>, pos: Pos) -> Seq<Cube> {
    let above = (pos.0, pos.1, (pos.2 + 1) as usize);
    let i = crate::grid::pos_index(above, GRID_WIDTH as int);
    if input.right_mouse_state == ButtonState::Pressed && agent is None && pos.2 + 1 < GRID_HEIGHT
        && cubes[i].agent is None && cubes[i].cube_type == crate::EMPTY_CUBE {
        cubes.update(i, new_cube(STONE_CUBE))
    } else {
        cubes
    }
}

/// What the player does to the selected cube `sel` in one frame, in this order: Space or a
/// left click selects it (see `handle_selection`); X digs it away unless an agent stands
/// there; a right click drops the selected agent, or when none is selected puts a stone on
/// top of the cube if that cell is free; R turns the camera; P, K and L ask the selected
/// agent to plough, dig or put a lantern (see `task_requests`); H brings the view home.
/// Returns the requests for the agent loop, in order.
pub fn apply_selection_input(
    view: &mut ViewState,
    input: &InputBuffer,
    sel: WorldPos,
    grid: &mut Grid,
    selection_state: &mut InputState,
) -> (r: Vec<AgentEvent>)
    requires
        old(grid).is_standard(),
        sel.x + old(view).view_x < GRID_WIDTH,
        sel.y + old(view).view_y < GRID_WIDTH,
        sel.z + old(view).view_z < GRID_HEIGHT,
    ensures
        final(grid).is_standard(),
        final(grid).water_of() == old(grid).water_of(),
        final(grid).events_of() == if digs(*input, *old(grid), world_of(*old(view), sel)) {
            old(grid).events_after_delete(world_of(*old(view), sel))
        } else {
            old(grid).events_of()
        },
        final(grid).grid@ == built(
            *input,
            agent_selected(*input, old(grid).cube_at(world_of(*old(view), sel)), old(selection_state).selected_agent),
            if digs(*input, *old(grid), world_of(*old(view), sel)) {
                old(grid).cubes_after_delete(world_of(*old(view), sel))
            } else {
                old(grid).grid@
            },
            world_of(*old(view), sel),
        ),
        final(selection_state).selected_agent == if input.right_mouse_state == ButtonState::Pressed {
            None
        } else {
            agent_selected(*input, old(grid).cube_at(world_of(*old(view), sel)), old(selection_state).selected_agent)
        },
        r@ == selection_requests(*input, old(grid).cube_at(world_of(*old(view), sel)), old(selection_state).selected_agent, world_of(*old(view), sel))
            + task_requests(*input, final(selection_state).selected_agent, world_of(*old(view), sel)),
        *final(view) == if pressed(*input, KEY_H) {
            ViewState {
                compass: if pressed(*input, KEY_R) {
                    turned(old(view).compass)
                } else {
                    old(view).compass
                },
                night_mode: old(view).night_mode,
                ..home_view()
            }
        } else if pressed(*input, KEY_R) {
            ViewState { compass: turned(old(view).compass), ..*old(view) }
        } else {
            *old(view)
        },
{
    let pos = (sel.x + view.view_x, sel.y + view.view_y, sel.z + view.view_z);
    proof {
        crate::grid::lemma_in_box_index(pos);
    }
    let mut requests: Vec<AgentEvent> = Vec::new();
    if input.button_pressed(KEY_SPACE) || input.left_mouse_pressed() {
        let cube_data = *grid.get_cube(pos);
        match handle_selection(&cube_data, pos, selection_state) {
            Some(e) => requests.push(e),
            None => {},
        }
    }
    if input.button_pressed(KEY_X) {
        if grid.get_cube(pos).agent.is_none() {
            grid.delete_cube(pos);
        }
    }
    if input.right_mouse_pressed() {
        if selection_state.selected_agent.is_some() {
            selection_state.selected_agent = None;
        } else {
            let above = (pos.0, pos.1, pos.2 + 1);
            if above.2 < GRID_HEIGHT {
                proof {
                    crate::grid::lemma_in_box_index(above);
                }
                if !grid.is_occupied(above) {
                    grid.place_cube(above, Cube::new(STONE_CUBE));
                }
            }
        }
    }
    if input.button_pressed(KEY_R) {
        view.compass = match view.compass {
            Compass::North => Compass::East,
            Compass::East => Compass::South,
            Compass::South => Compass::West,
            Compass::West => Compass::North,
        };
    }
    let ghost before = requests@;
    if input.button_pressed(KEY_P) {
        if let Some(agent_id) = selection_state.selected_agent {
            requests.push(AgentEvent::AgentAddTask { task: AgentTask::Plough { target: pos }, agent: agent_id as usize });
        }
    }
    if input.button_pressed(KEY_K) {
        if let Some(agent_id) = selection_state.selected_agent {
            requests.push(AgentEvent::AgentAddTask { task: AgentTask::Dig { target: pos }, agent: agent_id as usize });
        }
    }
    if input.button_pressed(KEY_L) {
        if let Some(agent_id) = selection_state.selected_agent {
            requests.push(
                AgentEvent::AgentAddTask {
                    task: AgentTask::Place { target: (pos.0, pos.1, pos.2 + 1), cube: Cube::new(LANTERN_CUBE) },
                    agent: agent_id as usize,
                },
            );
        }
    }
    proof {
        assert(requests@ =~= before + task_requests(*input, selection_state.selected_agent, pos));
    }
    if input.button_pressed(KEY_H) {
        view.view_x = GRID_WIDTH - VIEW_WIDTH;
        view.view_y = GRID_WIDTH - VIEW_WIDTH;
        view.view_z = GRID_HEIGHT - VIEW_HEIGHT;
    }
    requests
}

/// The cell at `p` can be looked up by index and holds a cube or an agent.
pub open spec fn filled_at(g: Grid, p: Pos) -> bool {
    g.holds(p) && (g.cube_at(p).cube_type != crate::EMPTY_CUBE || g.cube_at(p).agent is Some)
}

/// Of the cells under the mouse, listed from the top of the view down, the first that holds
/// a cube or an agent, by its place in `candidates`.
pub fn first_filled(grid: &Grid, candidates: &Vec<Pos>) -> (r: Option<usize>)
    requires
        forall|i: int| 0 <= i < candidates@.len() ==> grid.index_of(#[trigger] candidates@[i]) <= usize::MAX,
    ensures
        r matches Some(k) ==> k < candidates@.len() && filled_at(*grid, candidates@[k as int]) && forall|j: int|
            0 <= j < k ==> !filled_at(*grid, #[trigger] candidates@[j]),
        r is None ==> forall|j: int| 0 <= j < candidates@.len() ==> !filled_at(*grid, #[trigger] candidates@[j]),
{
    let mut k: usize = 0;
    while k < candidates.len()
        invariant
            k <= candidates@.len(),
            forall|i: int| 0 <= i < candidates@.len() ==> grid.index_of(#[trigger] candidates@[i]) <= usize::MAX,
            forall|j: int| 0 <= j < k ==> !filled_at(*grid, #[trigger] candidates@[j]),
        decreases candidates@.len() - k,
    {
        let c = candidates[k];
        if grid.get_vector_pos(c).is_ok() {
            let cube = grid.get_cube(c);
            if cube.cube_type != crate::EMPTY_CUBE || cube.agent.is_some() {
                return Some(k);
            }
        }
        k = k + 1;
    }
    None
}

} // verus!
