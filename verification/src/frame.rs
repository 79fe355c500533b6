//! Drawing the part of the world in view: cube by cube, back to front, into a screen buffer.

use vstd::prelude::*;

use crate::agents::{frame_at, frames_ok, screen_heading, Agent};
use crate::grid::{in_box, transparent, Cube, Grid, Light};
use crate::render::{
    draw_face, draw_sprite, in_left_face, in_right_face, in_tile, in_top_face, shaded,
    tile_addressable, tile_base, tile_pixel, CubeFace, Face, Sprite,
};
use crate::view::{get_screen_coord, projection_fits, screen_x, screen_y, ViewState, WorldPos};
use crate::{
    Compass, Pos, EMPTY_CUBE, GRID_HEIGHT, GRID_WIDTH, SCREEN_HEIGHT, SCREEN_WIDTH, VIEW_HEIGHT,
    VIEW_WIDTH,
};

verus! {

/// The colour the screen is cleared to.
pub const BACKGROUND: u32 = 0xFFFFFF;

/// Number of cells in view.
pub const VIEW_CELLS: usize = 72000;

/// `buf` after the part `part` of `sprite`, painted by `paint`, is drawn at `pos`.
pub open spec fn drawn(
    buf: Seq<u32>,
    part: spec_fn(int, int) -> bool,
    paint: spec_fn(u32) -> u32,
    pos: (usize, usize),
    sprite: Seq<u32>,
) -> Seq<u32> {
    Seq::new(buf.len(), |p: int| tile_pixel(part, paint, tile_base(pos), sprite, buf[p], p))
}

/// The pixels of a tile that belong to face `f`.
pub open spec fn face_part(f: Face) -> spec_fn(int, int) -> bool {
    |x: int, y: int|
        match f {
            Face::LEFT => in_left_face(x, y),
            Face::RIGHT => in_right_face(x, y),
            Face::TOP => in_top_face(x, y),
        }
}

/// `buf` after face `f` of `sprite` is drawn at `pos` at light level `l`.
pub open spec fn face_drawn(buf: Seq<u32>, f: Face, l: u8, pos: (usize, usize), sprite: Seq<u32>) -> Seq<u32> {
    drawn(buf, face_part(f), |v: u32| shaded(v, (l, l, l)), pos, sprite)
}

/// `buf` after the whole of `sprite` is drawn at `pos`.
pub open spec fn sprite_drawn(buf: Seq<u32>, pos: (usize, usize), sprite: Seq<u32>) -> Seq<u32> {
    drawn(buf, |x: int, y: int| in_tile(x, y), |v: u32| v, pos, sprite)
}

/// The pixels a face of cube `c` is drawn with: the sprite `face` names, else the sprite of
/// the cube's type.
pub open spec fn face_sprite(sprites: Seq<Sprite>, c: Cube, face: Option<u8>) -> Seq<u32> {
    match face {
        Some(f) => sprites[f as int].pixels@,
        None => sprites[c.cube_type as int].pixels@,
    }
}

/// A face is drawn unless a cube that light does not pass covers it.
pub open spec fn uncovered(o: Option<Cube>) -> bool {
    match o {
        None => true,
        Some(n) => transparent(n),
    }
}

/// The faces seen from `c`: the one drawn on the left, the one on the right, and the x and
/// y of the cells at the near edges of the view, whose outer faces are drawn too.
pub open spec fn faces_seen(c: Compass) -> (CubeFace, CubeFace, int, int) {
    match c {
        Compass::North => (CubeFace::pY, CubeFace::pX, VIEW_WIDTH - 1, VIEW_WIDTH - 1),
        Compass::East => (CubeFace::pX, CubeFace::nY, VIEW_WIDTH - 1, 0),
        Compass::South => (CubeFace::nY, CubeFace::nX, 0, 0),
        Compass::West => (CubeFace::nX, CubeFace::pY, 0, VIEW_WIDTH - 1),
    }
}

/// The cell in view drawn `n`-th: z from the bottom up, then y and x, each walked from the
/// far side as seen from `c`.
pub open spec fn view_cell(c: Compass, n: int) -> (int, int, int) {
    let x0 = n % (VIEW_WIDTH as int);
    let y0 = (n / (VIEW_WIDTH as int)) % (VIEW_WIDTH as int);
    let z = n / ((VIEW_WIDTH * VIEW_WIDTH) as int);
    let y = if c == Compass::East || c == Compass::South {
        VIEW_WIDTH - 1 - y0
    } else {
        y0
    };
    let x = if c == Compass::South || c == Compass::West {
        VIEW_WIDTH - 1 - x0
    } else {
        x0
    };
    (x, y, z)
}

/// The world position of the cell `(x, y, z)` of the view `v`.
pub open spec fn world_cell(v: ViewState, x: int, y: int, z: int) -> Pos {
    ((x + v.view_x) as usize, (y + v.view_y) as usize, (z + v.view_z) as usize)
}

/// Where on screen the cell `(x, y, z)` of the view is drawn, seen from `c`.
pub open spec fn cell_screen(c: Compass, x: int, y: int, z: int) -> (usize, usize) {
    let p = (x as usize, y as usize, z as usize);
    (screen_x(c, p) as usize, screen_y(c, p) as usize)
}

/// The light the faces of `cube` are drawn with: its own at night, full light by day.
pub open spec fn light_of(v: ViewState, cube: Cube) -> Light {
    if v.night_mode {
        cube.light_level
    } else {
        Light { x_level: 220, y_level: 245, z_level: 255 }
    }
}

/// `buf` after the cube in cell `(x, y, z)` of the view is drawn: its left, right and top
/// faces unless covered (a covered top at the top of the view shows the blank sprite), and
/// the outer faces of the cells at the near edges of the view.
pub open spec fn cube_painted(
    buf: Seq<u32>,
    g: Grid,
    sprites: Seq<Sprite>,
    v: ViewState,
    x: int,
    y: int,
    z: int,
) -> Seq<u32> {
    lit_cube_painted(buf, g, sprites, v, x, y, z, light_of(v, g.cube_at(world_cell(v, x, y, z))))
}

/// `buf` after the cube in cell `(x, y, z)` of the view is drawn as `cube_painted` does,
/// its left faces shaded with `light.x_level`, its right faces with `light.y_level` and its
/// top with `light.z_level`.
pub open spec fn lit_cube_painted(
    buf: Seq<u32>,
    g: Grid,
    sprites: Seq<Sprite>,
    v: ViewState,
    x: int,
    y: int,
    z: int,
    light: Light,
) -> Seq<u32> {
    let q = world_cell(v, x, y, z);
    let cube = g.cube_at(q);
    let pos = cell_screen(v.compass, x, y, z);
    let (lf, rf, tx, ty) = faces_seen(v.compass);
    let flip = v.compass != Compass::North && v.compass != Compass::South;
    let ys = face_sprite(sprites, cube, cube.cube_y_face);
    let xs = face_sprite(sprites, cube, cube.cube_x_face);
    let zs = face_sprite(sprites, cube, cube.cube_z_face);
    let b1 = if uncovered(g.neighbour(lf, q)) {
        face_drawn(buf, Face::LEFT, light.x_level, pos, ys)
    } else {
        buf
    };
    let b2 = if uncovered(g.neighbour(rf, q)) {
        face_drawn(b1, Face::RIGHT, light.y_level, pos, xs)
    } else {
        b1
    };
    let b3 = if uncovered(g.neighbour(CubeFace::Z, q)) {
        face_drawn(b2, Face::TOP, light.z_level, pos, zs)
    } else if z == VIEW_HEIGHT - 1 {
        face_drawn(b2, Face::TOP, light.z_level, pos, sprites[3].pixels@)
    } else {
        b2
    };
    let b4 = if x == tx {
        if flip {
            face_drawn(b3, Face::LEFT, light.x_level, pos, xs)
        } else {
            face_drawn(b3, Face::RIGHT, light.y_level, pos, xs)
        }
    } else {
        b3
    };
    if y == ty {
        if flip {
            face_drawn(b4, Face::RIGHT, light.y_level, pos, ys)
        } else {
            face_drawn(b4, Face::LEFT, light.x_level, pos, ys)
        }
    } else {
        b4
    }
}

/// The frame of agent `a` seen from `c`.
pub open spec fn agent_frame(a: Agent, c: Compass) -> Seq<u32> {
    frame_at(*a.animation, screen_heading(c, a.direction), a.animation_state as int).pixels@
}

/// `buf` after the `n`-th cell in view is drawn: the selection marker on the selected cell,
/// nothing for an empty cell, the agent standing in it, or the cube.
pub open spec fn cell_painted(
    buf: Seq<u32>,
    g: Grid,
    agents: Seq<Agent>,
    sprites: Seq<Sprite>,
    select: Sprite,
    v: ViewState,
    selected: Option<WorldPos>,
    n: int,
) -> Seq<u32> {
    let (x, y, z) = view_cell(v.compass, n);
    let pos = cell_screen(v.compass, x, y, z);
    let cube = g.cube_at(world_cell(v, x, y, z));
    if selected == Some(WorldPos { x: x as usize, y: y as usize, z: z as usize }) {
        sprite_drawn(buf, pos, select.pixels@)
    } else if cube.cube_type == EMPTY_CUBE && cube.agent is None {
        buf
    } else if cube.agent is Some {
        sprite_drawn(buf, pos, agent_frame(agents[cube.agent->0 as int], v.compass))
    } else {
        cube_painted(buf, g, sprites, v, x, y, z)
    }
}

/// The screen after the first `n` cells in view are drawn on a cleared buffer.
pub open spec fn frame_upto(
    g: Grid,
    agents: Seq<Agent>,
    sprites: Seq<Sprite>,
    select: Sprite,
    v: ViewState,
    selected: Option<WorldPos>,
    n: nat,
) -> Seq<u32>
    decreases n,
{
    if n == 0 {
        Seq::new((SCREEN_WIDTH * SCREEN_HEIGHT) as nat, |p: int| BACKGROUND)
    } else {
        cell_painted(
            frame_upto(g, agents, sprites, select, v, selected, (n - 1) as nat),
            g,
            agents,
            sprites,
            select,
            v,
            selected,
            n - 1,
        )
    }
}

/// The view lies inside the world.
pub open spec fn view_inside(v: ViewState) -> bool {
    &&& v.view_x <= GRID_WIDTH - VIEW_WIDTH
    &&& v.view_y <= GRID_WIDTH - VIEW_WIDTH
    &&& v.view_z <= GRID_HEIGHT - VIEW_HEIGHT
}

/// Cell `(x, y, z)` of the view can be drawn: an agent in it is one of `agents` with its
/// frames in order, and a cube names sprites that exist.
pub open spec fn cell_drawable(
    g: Grid,
    agents: Seq<Agent>,
    sprites_len: int,
    v: ViewState,
    x: int,
    y: int,
    z: int,
) -> bool {
    let q = world_cell(v, x, y, z);
    let cube = g.cube_at(q);
    match cube.agent {
        Some(a) => {
            &&& (a as int) < agents.len()
            &&& frames_ok(*agents[a as int].animation)
            &&& agents[a as int].animation_state < agents[a as int].animation.length_view()
        },
        None => cube.cube_type != EMPTY_CUBE ==> {
            &&& (cube.cube_type as int) < sprites_len
            &&& cube.cube_x_face matches Some(f) ==> (f as int) < sprites_len
            &&& cube.cube_y_face matches Some(f) ==> (f as int) < sprites_len
            &&& cube.cube_z_face matches Some(f) ==> (f as int) < sprites_len
            &&& z == VIEW_HEIGHT - 1 && !uncovered(g.neighbour(CubeFace::Z, q)) ==> 3 < sprites_len
        },
    }
}

/// Every cell in view but the selected one can be drawn.
pub open spec fn view_drawable(
    g: Grid,
    agents: Seq<Agent>,
    sprites_len: int,
    v: ViewState,
    selected: Option<WorldPos>,
) -> bool {
    forall|x: int, y: int, z: int|
        0 <= x < VIEW_WIDTH && 0 <= y < VIEW_WIDTH && 0 <= z < VIEW_HEIGHT && selected != Some(
            WorldPos { x: x as usize, y: y as usize, z: z as usize },
        ) ==> #[trigger] cell_drawable(g, agents, sprites_len, v, x, y, z)
}

/// Cells in view land on screen, with room for a whole tile below and to the right.
proof fn lemma_cell_on_screen(c: Compass, x: int, y: int, z: int)
    requires
        0 <= x < VIEW_WIDTH,
        0 <= y < VIEW_WIDTH,
        0 <= z < VIEW_HEIGHT,
    ensures
        projection_fits(c, (x as usize, y as usize, z as usize)),
        0 <= screen_x(c, (x as usize, y as usize, z as usize)) < SCREEN_WIDTH,
        0 <= screen_y(c, (x as usize, y as usize, z as usize)) <= 1100,
        tile_addressable(cell_screen(c, x, y, z)),
{
}

fn paint_face(buffer: &mut Vec<u32>, f: Face, pos: (usize, usize), sprite: &Sprite, l: u8)
    requires
        tile_addressable(pos),
    ensures
        final(buffer)@ == face_drawn(old(buffer)@, f, l, pos, sprite.pixels@),
{
    let ghost b0 = buffer@;
    draw_face(f, pos, sprite, buffer, (l, l, l));
    assert(buffer@ =~= face_drawn(b0, f, l, pos, sprite.pixels@));
}

fn paint_sprite(buffer: &mut Vec<u32>, pos: (usize, usize), sprite: &Sprite)
    requires
        tile_addressable(pos),
    ensures
        final(buffer)@ == sprite_drawn(old(buffer)@, pos, sprite.pixels@),
{
    let ghost b0 = buffer@;
    draw_sprite(pos, sprite, buffer);
    assert(buffer@ =~= sprite_drawn(b0, pos, sprite.pixels@));
}

fn pick_face<'a>(sprites: &'a Vec<Sprite>, c: &Cube, face: Option<u8>) -> (s: &'a Sprite)
    requires
        (c.cube_type as int) < sprites@.len(),
        face matches Some(f) ==> (f as int) < sprites@.len(),
    ensures
        s.pixels@ == face_sprite(sprites@, *c, face),
{
    match face {
        Some(f) => &sprites[f as usize],
        None => crate::view::find_sprite(c, sprites),
    }
}

/// Draws the cube in cell `(x, y, z)` of the view (see `cube_painted`).
fn paint_cube(
    buffer: &mut Vec<u32>,
    grid: &Grid,
    sprites: &Vec<Sprite>,
    view: &ViewState,
    x: usize,
    y: usize,
    z: usize,
)
    requires
        grid.is_standard(),
        view_inside(*view),
        x < VIEW_WIDTH,
        y < VIEW_WIDTH,
        z < VIEW_HEIGHT,
        grid.cube_at(world_cell(*view, x as int, y as int, z as int)).agent is None,
        grid.cube_at(world_cell(*view, x as int, y as int, z as int)).cube_type != EMPTY_CUBE,
        cell_drawable(*grid, Seq::empty(), sprites@.len() as int, *view, x as int, y as int, z as int),
    ensures
        final(buffer)@ == cube_painted(old(buffer)@, *grid, sprites@, *view, x as int, y as int, z as int),
{
    let q = (x + view.view_x, y + view.view_y, z + view.view_z);
    proof {
        lemma_cell_on_screen(view.compass, x as int, y as int, z as int);
    }
    let pos = get_screen_coord(&view.compass, (x, y, z));
    let cube = *grid.get_cube(q);
    let light = if view.night_mode {
        cube.light_level
    } else {
        Light::max_level()
    };
    let (lf, rf, tx, ty): (CubeFace, CubeFace, usize, usize) = match view.compass {
        Compass::North => (CubeFace::pY, CubeFace::pX, VIEW_WIDTH - 1, VIEW_WIDTH - 1),
        Compass::East => (CubeFace::pX, CubeFace::nY, VIEW_WIDTH - 1, 0),
        Compass::South => (CubeFace::nY, CubeFace::nX, 0, 0),
        Compass::West => (CubeFace::nX, CubeFace::pY, 0, VIEW_WIDTH - 1),
    };
    let flip = view.compass != Compass::North && view.compass != Compass::South;
    let blocking_left = grid.neighbour_cube(&lf, q);
    let blocking_right = grid.neighbour_cube(&rf, q);
    let blocking_top = grid.neighbour_cube(&CubeFace::Z, q);
    let left_open = match blocking_left {
        Some(n) => n.is_transparent(),
        None => true,
    };
    if left_open {
        paint_face(buffer, Face::LEFT, pos, pick_face(sprites, &cube, cube.cube_y_face), light.x_level);
    }
    let right_open = match blocking_right {
        Some(n) => n.is_transparent(),
        None => true,
    };
    if right_open {
        paint_face(buffer, Face::RIGHT, pos, pick_face(sprites, &cube, cube.cube_x_face), light.y_level);
    }
    match blocking_top {
        Some(n) => {
            if n.is_transparent() {
                paint_face(buffer, Face::TOP, pos, pick_face(sprites, &cube, cube.cube_z_face), light.z_level);
            } else if z == VIEW_HEIGHT - 1 {
                paint_face(buffer, Face::TOP, pos, &sprites[3], light.z_level);
            }
        },
        None => {
            paint_face(buffer, Face::TOP, pos, pick_face(sprites, &cube, cube.cube_z_face), light.z_level);
        },
    }
    if x == tx {
        let face = pick_face(sprites, &cube, cube.cube_x_face);
        if flip {
            paint_face(buffer, Face::LEFT, pos, face, light.x_level);
        } else {
            paint_face(buffer, Face::RIGHT, pos, face, light.y_level);
        }
    }
    if y == ty {
        let face = pick_face(sprites, &cube, cube.cube_y_face);
        if flip {
            paint_face(buffer, Face::RIGHT, pos, face, light.y_level);
        } else {
            paint_face(buffer, Face::LEFT, pos, face, light.x_level);
        }
    }
}

/// The cells are drawn in the order of `view_cell`.
proof fn lemma_view_cell(c: Compass, x0: int, y0: int, z: int)
    requires
        0 <= x0 < VIEW_WIDTH,
        0 <= y0 < VIEW_WIDTH,
        0 <= z < VIEW_HEIGHT,
    ensures
        ({
            let n = z * 3600 + y0 * 60 + x0;
            &&& n % 60 == x0
            &&& (n / 60) % 60 == y0
            &&& n / 3600 == z
        }),
{
    let n = z * 3600 + y0 * 60 + x0;
    assert(n % 60 == x0 && n / 60 == z * 60 + y0) by (nonlinear_arith)
        requires n == z * 3600 + y0 * 60 + x0, 0 <= x0 < 60, 0 <= y0, 0 <= z;
    assert((z * 60 + y0) % 60 == y0) by (nonlinear_arith)
        requires 0 <= y0 < 60, 0 <= z;
    assert(n / 3600 == z) by (nonlinear_arith)
        requires n == z * 3600 + y0 * 60 + x0, 0 <= x0 < 60, 0 <= y0 < 60, 0 <= z;
}

/// Draws the `n`-th cell in view, the one at `(x0, y0, z)` in drawing order (see
/// `cell_painted`).
fn paint_cell(
    buffer: &mut Vec<u32>,
    grid: &Grid,
    agents: &Vec<Agent>,
    sprites: &Vec<Sprite>,
    select_cube: &Sprite,
    view: &ViewState,
    selected: Option<WorldPos>,
    x0: usize,
    y0: usize,
    z: usize,
)
    requires
        grid.is_standard(),
        view_inside(*view),
        x0 < VIEW_WIDTH,
        y0 < VIEW_WIDTH,
        z < VIEW_HEIGHT,
        view_drawable(*grid, agents@, sprites@.len() as int, *view, selected),
    ensures
        final(buffer)@ == cell_painted(
            old(buffer)@,
            *grid,
            agents@,
            sprites@,
            *select_cube,
            *view,
            selected,
            z * 3600 + y0 * 60 + x0,
        ),
{
    proof {
        lemma_view_cell(view.compass, x0 as int, y0 as int, z as int);
    }
    let y = if view.compass == Compass::East || view.compass == Compass::South {
        (VIEW_WIDTH - 1) - y0
    } else {
        y0
    };
    let x = if view.compass == Compass::South || view.compass == Compass::West {
        (VIEW_WIDTH - 1) - x0
    } else {
        x0
    };
    proof {
        lemma_cell_on_screen(view.compass, x as int, y as int, z as int);
    }
    let pos = get_screen_coord(&view.compass, (x, y, z));
    let is_selected = match selected {
        Some(sel) => sel.x == x && sel.y == y && sel.z == z,
        None => false,
    };
    if is_selected {
        paint_sprite(buffer, pos, select_cube);
        return ;
    }
    assert(cell_drawable(*grid, agents@, sprites@.len() as int, *view, x as int, y as int, z as int));
    let q = (x + view.view_x, y + view.view_y, z + view.view_z);
    let cube = *grid.get_cube(q);
    if cube.cube_type == EMPTY_CUBE && cube.agent.is_none() {
        return ;
    }
    match cube.agent {
        Some(a) => {
            let agent = &agents[a as usize];
            let frame = agent.get_current_animation_frame(&view.compass);
            paint_sprite(buffer, pos, frame);
        },
        None => {
            paint_cube(buffer, grid, sprites, view, x, y, z);
        },
    }
}

/// Draws the part of the world in view on a cleared screen (see `frame_upto`).
pub fn render_frame(
    grid: &Grid,
    agents: &Vec<Agent>,
    sprites: &Vec<Sprite>,
    select_cube: &Sprite,
    view: &ViewState,
    selected: Option<WorldPos>,
) -> (buffer: Vec<u32>)
    requires
        grid.is_standard(),
        view_inside(*view),
        view_drawable(*grid, agents@, sprites@.len() as int, *view, selected),
    ensures
        buffer@ == frame_upto(*grid, agents@, sprites@, *select_cube, *view, selected, VIEW_CELLS as nat),
{
    let mut buffer = vec![BACKGROUND; SCREEN_WIDTH * SCREEN_HEIGHT];
    assert(buffer@ =~= frame_upto(*grid, agents@, sprites@, *select_cube, *view, selected, 0));
    let mut z: usize = 0;
    while z < VIEW_HEIGHT
        invariant
            grid.is_standard(),
            view_inside(*view),
            view_drawable(*grid, agents@, sprites@.len() as int, *view, selected),
            z <= VIEW_HEIGHT,
            buffer@ == frame_upto(*grid, agents@, sprites@, *select_cube, *view, selected, (z * 3600) as nat),
        decreases VIEW_HEIGHT - z,
    {
        let mut y0: usize = 0;
        while y0 < VIEW_WIDTH
            invariant
                grid.is_standard(),
                view_inside(*view),
                view_drawable(*grid, agents@, sprites@.len() as int, *view, selected),
                z < VIEW_HEIGHT,
                y0 <= VIEW_WIDTH,
                buffer@ == frame_upto(*grid, agents@, sprites@, *select_cube, *view, selected, (z * 3600 + y0 * 60) as nat),
            decreases VIEW_WIDTH - y0,
        {
            let mut x0: usize = 0;
            while x0 < VIEW_WIDTH
                invariant
                    grid.is_standard(),
                    view_inside(*view),
                    view_drawable(*grid, agents@, sprites@.len() as int, *view, selected),
                    z < VIEW_HEIGHT,
                    y0 < VIEW_WIDTH,
                    x0 <= VIEW_WIDTH,
                    buffer@ == frame_upto(*grid, agents@, sprites@, *select_cube, *view, selected, (z * 3600 + y0 * 60 + x0) as nat),
                decreases VIEW_WIDTH - x0,
            {
                paint_cell(&mut buffer, grid, agents, sprites, select_cube, view, selected, x0, y0, z);
                x0 = x0 + 1;
            }
            y0 = y0 + 1;
        }
        z = z + 1;
    }
    buffer
}

fn is_cell_drawable(
    grid: &Grid,
    agents: &Vec<Agent>,
    sprites_len: usize,
    view: &ViewState,
    x: usize,
    y: usize,
    z: usize,
) -> (b: bool)
    requires
        grid.is_standard(),
        view_inside(*view),
        x < VIEW_WIDTH,
        y < VIEW_WIDTH,
        z < VIEW_HEIGHT,
    ensures
        b == cell_drawable(*grid, agents@, sprites_len as int, *view, x as int, y as int, z as int),
{
    let q = (x + view.view_x, y + view.view_y, z + view.view_z);
    let cube = *grid.get_cube(q);
    match cube.agent {
        Some(a) => {
            if (a as usize) >= agents.len() {
                return false;
            }
            let agent = &agents[a as usize];
            crate::game::frames_in_order(&agent.animation) && agent.animation_state
                < agent.animation.length()
        },
        None => {
            if cube.cube_type == EMPTY_CUBE {
                return true;
            }
            let face_ok = |f: Option<u8>| -> (r: bool)
                ensures
                    r == (f matches Some(v) ==> (v as int) < sprites_len),
                {
                    match f {
                        Some(v) => (v as usize) < sprites_len,
                        None => true,
                    }
                };
            let top_ok = if z == VIEW_HEIGHT - 1 {
                match grid.neighbour_cube(&CubeFace::Z, q) {
                    Some(n) => n.is_transparent() || 3 < sprites_len,
                    None => true,
                }
            } else {
                true
            };
            (cube.cube_type as usize) < sprites_len && face_ok(cube.cube_x_face) && face_ok(
                cube.cube_y_face,
            ) && face_ok(cube.cube_z_face) && top_ok
        },
    }
}

/// Whether every cell in view but the selected one can be drawn (see `view_drawable`).
pub fn is_view_drawable(
    grid: &Grid,
    agents: &Vec<Agent>,
    sprites_len: usize,
    view: &ViewState,
    selected: Option<WorldPos>,
) -> (b: bool)
    requires
        grid.is_standard(),
        view_inside(*view),
    ensures
        b == view_drawable(*grid, agents@, sprites_len as int, *view, selected),
{
    let mut z: usize = 0;
    while z < VIEW_HEIGHT
        invariant
            grid.is_standard(),
            view_inside(*view),
            z <= VIEW_HEIGHT,
            forall|x: int, y: int, w: int|
                0 <= x < VIEW_WIDTH && 0 <= y < VIEW_WIDTH && 0 <= w < z && selected != Some(
                    WorldPos { x: x as usize, y: y as usize, z: w as usize },
                ) ==> #[trigger] cell_drawable(*grid, agents@, sprites_len as int, *view, x, y, w),
        decreases VIEW_HEIGHT - z,
    {
        let mut y: usize = 0;
        while y < VIEW_WIDTH
            invariant
                grid.is_standard(),
                view_inside(*view),
                z < VIEW_HEIGHT,
                y <= VIEW_WIDTH,
                forall|x: int, v: int, w: int|
                    0 <= x < VIEW_WIDTH && 0 <= v < VIEW_WIDTH && 0 <= w < VIEW_HEIGHT && (w < z || (w
                        == z && v < y)) && selected != Some(
                        WorldPos { x: x as usize, y: v as usize, z: w as usize },
                    ) ==> #[trigger] cell_drawable(*grid, agents@, sprites_len as int, *view, x, v, w),
            decreases VIEW_WIDTH - y,
        {
            let mut x: usize = 0;
            while x < VIEW_WIDTH
                invariant
                    grid.is_standard(),
                    view_inside(*view),
                    z < VIEW_HEIGHT,
                    y < VIEW_WIDTH,
                    x <= VIEW_WIDTH,
                    forall|u: int, v: int, w: int|
                        0 <= u < VIEW_WIDTH && 0 <= v < VIEW_WIDTH && 0 <= w < VIEW_HEIGHT && (w < z
                            || (w == z && v < y) || (w == z && v == y && u < x)) && selected != Some(
                            WorldPos { x: u as usize, y: v as usize, z: w as usize },
                        ) ==> #[trigger] cell_drawable(*grid, agents@, sprites_len as int, *view, u, v, w),
                decreases VIEW_WIDTH - x,
            {
                let is_selected = match selected {
                    Some(sel) => sel.x == x && sel.y == y && sel.z == z,
                    None => false,
                };
                if !is_selected && !is_cell_drawable(grid, agents, sprites_len, view, x, y, z) {
                    return false;
                }
                x = x + 1;
            }
            y = y + 1;
        }
        z = z + 1;
    }
    true
}

} // verus!
