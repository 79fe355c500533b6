//! The cube grid: cubes, their light, and the world they make up.

use vstd::prelude::*;

use std::collections::VecDeque;

use crate::agents::Agent;
use crate::events::{EventQueue, GridChangeEvent};
use crate::render::{lantern_lit, light_flood_fill, CubeFace};
use crate::{Compass, Pos, EMPTY_CUBE, GRID_HEIGHT, GRID_WIDTH, LANTERN_CUBE, WATER_CUBE};

verus! {

/// The light that falls on a cube, one level for each of its three visible faces.
#[derive(Clone, Copy, PartialEq, Eq, Structural, Debug)]
pub struct Light {
    pub x_level: u8,
    pub y_level: u8,
    pub z_level: u8,
}

/// The number of light levels above darkness that a light source spreads over.
pub const MAX_LIGHT_LEVEL: u8 = 10;

/// The level a face has at light level `level` (clamped to `MAX_LIGHT_LEVEL`): a linear
/// interpolation between `min_v` and `max_v`, rounded down.
pub open spec fn interpolated(min_v: int, max_v: int, level: int) -> int {
    let l = if level < MAX_LIGHT_LEVEL as int { level } else { MAX_LIGHT_LEVEL as int };
    min_v + (max_v - min_v) * l / (MAX_LIGHT_LEVEL as int)
}

/// The face levels of the light at `level`.
pub open spec fn light_at(level: int) -> Light {
    Light {
        x_level: interpolated(100, 220, level) as u8,
        y_level: interpolated(100, 245, level) as u8,
        z_level: interpolated(100, 255, level) as u8,
    }
}

/// The component-wise brighter of two lights.
pub open spec fn brighter(a: Light, b: Light) -> Light {
    Light {
        x_level: if a.x_level >= b.x_level { a.x_level } else { b.x_level },
        y_level: if a.y_level >= b.y_level { a.y_level } else { b.y_level },
        z_level: if a.z_level >= b.z_level { a.z_level } else { b.z_level },
    }
}

fn interpolate(min_v: u8, max_v: u8, level: u8) -> (r: u8)
    requires
        min_v <= max_v,
        level <= MAX_LIGHT_LEVEL,
    ensures
        r == interpolated(min_v as int, max_v as int, level as int),
        min_v <= r <= max_v,
{
    let d: u32 = (max_v - min_v) as u32;
    let l: u32 = level as u32;
    assert(d * l <= 255 * 10) by (nonlinear_arith)
        requires d <= 255, l <= 10;
    let step: u32 = d * l / 10;
    assert(step <= d) by (nonlinear_arith)
        requires step == d * l / 10, l <= 10;
    min_v + step as u8
}

impl Light {
    pub fn new(x_level: u8, y_level: u8, z_level: u8) -> (l: Self)
        ensures
            l == (Light { x_level, y_level, z_level }),
    {
        Light { x_level, y_level, z_level }
    }

    /// The light of a fully lit cube.
    pub fn max_level() -> (l: Light)
        ensures
            l == (Light { x_level: 220, y_level: 245, z_level: 255 }),
    {
        Light { x_level: 220, y_level: 245, z_level: 255 }
    }

    /// The light of an unlit cube.
    pub fn min_level() -> (l: Light)
        ensures
            l == (Light { x_level: 100, y_level: 100, z_level: 100 }),
    {
        Light { x_level: 100, y_level: 100, z_level: 100 }
    }

    /// The light at `level`, between `min_level` (level 0) and `max_level`
    /// (`MAX_LIGHT_LEVEL` and above).
    pub fn from_level(level: u8) -> (l: Light)
        ensures
            l == light_at(level as int),
    {
        let level = if level < MAX_LIGHT_LEVEL { level } else { MAX_LIGHT_LEVEL };
        let min = Light::min_level();
        let max = Light::max_level();
        Light::new(
            interpolate(min.x_level, max.x_level, level),
            interpolate(min.y_level, max.y_level, level),
            interpolate(min.z_level, max.z_level, level),
        )
    }
}

impl core::ops::Add<Light> for Light {
    type Output = Light;

    fn add(self, rhs: Light) -> (l: Light) {
        Light {
            x_level: if self.x_level >= rhs.x_level { self.x_level } else { rhs.x_level },
            y_level: if self.y_level >= rhs.y_level { self.y_level } else { rhs.y_level },
            z_level: if self.z_level >= rhs.z_level { self.z_level } else { rhs.z_level },
        }
    }
}

impl vstd::std_specs::ops::AddSpecImpl<Light> for Light {
    open spec fn obeys_add_spec() -> bool {
        true
    }

    open spec fn add_req(self, rhs: Light) -> bool {
        true
    }

    open spec fn add_spec(self, rhs: Light) -> Light {
        brighter(self, rhs)
    }
}

/// Water is counted in millionths of a percent of a cube: a full cube holds `FULL_WATER`.
pub const FULL_WATER: u32 = 100_000_000;
/// Two water levels closer than a tenth of a percent count as level with each other.
pub const WATER_TOLERANCE: u32 = 100_000;
/// Water that spreads to one percent of a cube or thinner dries up.
pub const MIN_WATER: u32 = 1_000_000;

/// One cell of the world.
#[derive(Clone, Copy, PartialEq, Eq, Structural, Debug)]
pub struct Cube {
    pub cube_type: u8,
    pub cube_x_face: Option<u8>,
    pub cube_y_face: Option<u8>,
    pub cube_z_face: Option<u8>,
    pub agent: Option<u8>,
    pub light_level: Light,
    pub water_level: u32,
}

/// A fresh cube of type `cube_type`: no face overrides, no agent, unlit and dry.
pub open spec fn new_cube(cube_type: u8) -> Cube {
    Cube {
        cube_type,
        cube_x_face: None,
        cube_y_face: None,
        cube_z_face: None,
        agent: None,
        light_level: Light { x_level: 100, y_level: 100, z_level: 100 },
        water_level: 0,
    }
}

/// An empty cell that an agent stands in.
pub open spec fn agent_cube(agent: u8) -> Cube {
    Cube { agent: Some(agent), ..new_cube(EMPTY_CUBE) }
}

/// What is left of `c` when it is deleted: an empty cube that keeps its light and water level.
pub open spec fn emptied(c: Cube) -> Cube {
    Cube {
        cube_type: EMPTY_CUBE,
        cube_x_face: None,
        cube_y_face: None,
        cube_z_face: None,
        agent: None,
        ..c
    }
}

/// Agents can stand on a cube that is solid and not taken by another agent.
pub open spec fn walkable(c: Cube) -> bool {
    c.cube_type != WATER_CUBE && c.cube_type != EMPTY_CUBE && c.agent is None
}

/// Light passes through empty cells, agents, water and lanterns.
pub open spec fn transparent(c: Cube) -> bool {
    c.cube_type == EMPTY_CUBE || c.agent is Some || c.cube_type == WATER_CUBE || c.cube_type
        == LANTERN_CUBE
}

impl Cube {
    pub fn new(cube_type: u8) -> (c: Self)
        ensures
            c == new_cube(cube_type),
    {
        Cube {
            cube_type: cube_type,
            cube_y_face: None,
            cube_x_face: None,
            cube_z_face: None,
            agent: None,
            light_level: Light::min_level(),
            water_level: 0,
        }
    }

    pub fn is_walkable(&self) -> (b: bool)
        ensures
            b == walkable(*self),
    {
        self.cube_type != WATER_CUBE && self.cube_type != EMPTY_CUBE && self.agent.is_none()
    }

    pub fn is_transparent(&self) -> (b: bool)
        ensures
            b == transparent(*self),
    {
        self.cube_type == EMPTY_CUBE || self.agent.is_some() || self.cube_type == WATER_CUBE
            || self.cube_type == LANTERN_CUBE
    }

    pub fn with_agent(agent: u8) -> (c: Cube)
        ensures
            c == agent_cube(agent),
    {
        Cube {
            cube_type: EMPTY_CUBE,
            cube_y_face: None,
            cube_x_face: None,
            cube_z_face: None,
            agent: Some(agent),
            light_level: Light::min_level(),
            water_level: 0,
        }
    }
}

/// The place of `p` in a grid `w` cubes wide: x runs fastest, then y, then z.
pub open spec fn pos_index(p: Pos, w: int) -> int {
    p.0 + p.1 * w + p.2 * w * w
}

/// Lies in the world of the standard size.
pub open spec fn in_box(p: Pos) -> bool {
    p.0 < GRID_WIDTH && p.1 < GRID_WIDTH && p.2 < GRID_HEIGHT
}

/// The number of cubes in the world of the standard size.
pub open spec fn box_len() -> int {
    (GRID_WIDTH * GRID_WIDTH * GRID_HEIGHT) as int
}

/// The position that index `i` stands for in the world of the standard size.
pub open spec fn pos_of_index(i: int) -> Pos {
    (
        (i % (GRID_WIDTH as int)) as usize,
        ((i / (GRID_WIDTH as int)) % (GRID_WIDTH as int)) as usize,
        (i / ((GRID_WIDTH * GRID_WIDTH) as int)) as usize,
    )
}

/// The decimal digits of `n`, most significant first.
pub open spec fn decimal(n: nat) -> Seq<char>
    decreases n,
{
    let digit = (('0' as u32) + (n % 10) as u32) as char;
    if n < 10 {
        seq![digit]
    } else {
        decimal(n / 10).push(digit)
    }
}

/// The text of the error for an index past the end of the grid.
pub open spec fn bounds_message(index: usize) -> Seq<char> {
    seq!['I', 'n', 'd', 'e', 'x', ' ', 'o', 'u', 't', ' ', 'o', 'f', ' ', 'b', 'o', 'u', 'n', 'd', 's', ':', ' '] + decimal(index as nat)
}

/// The text of decimal digit `d`.
fn digit_text(d: usize) -> (s: &'static str)
    requires
        d < 10,
    ensures
        s@ == seq![(('0' as u32) + d as u32) as char],
{
    let r = match d {
        0 => {
            proof {
                reveal_strlit("0");
            }
            "0"
        },
        1 => {
            proof {
                reveal_strlit("1");
            }
            "1"
        },
        2 => {
            proof {
                reveal_strlit("2");
            }
            "2"
        },
        3 => {
            proof {
                reveal_strlit("3");
            }
            "3"
        },
        4 => {
            proof {
                reveal_strlit("4");
            }
            "4"
        },
        5 => {
            proof {
                reveal_strlit("5");
            }
            "5"
        },
        6 => {
            proof {
                reveal_strlit("6");
            }
            "6"
        },
        7 => {
            proof {
                reveal_strlit("7");
            }
            "7"
        },
        8 => {
            proof {
                reveal_strlit("8");
            }
            "8"
        },
        _ => {
            proof {
                reveal_strlit("9");
            }
            "9"
        },
    };
    assert(r@ =~= seq![(('0' as u32) + d as u32) as char]);
    r
}

/// `n` written in decimal, as `Display` writes a `usize`.
fn decimal_string(n: usize) -> (s: String)
    ensures
        s@ == decimal(n as nat),
    decreases n,
{
    if n < 10 {
        let mut s = String::new();
        s.append(digit_text(n));
        assert(s@ =~= decimal(n as nat));
        s
    } else {
        let mut s = decimal_string(n / 10);
        s.append(digit_text(n % 10));
        assert(s@ =~= decimal(n as nat));
        s
    }
}

/// The error message for an index past the end of the grid.
fn out_of_bounds_message(index: usize) -> (s: String)
    ensures
        s@ == bounds_message(index),
{
    let mut s = "Index out of bounds: ".to_owned();
    let digits = decimal_string(index);
    s.append(digits.as_str());
    proof {
        reveal_strlit("Index out of bounds: ");
    }
    assert(s@ =~= bounds_message(index));
    s
}

proof fn lemma_index_parts(x: int, y: int, z: int, w: int)
    requires
        x >= 0,
        y >= 0,
        z >= 0,
        w >= 0,
    ensures
        y * w >= 0,
        z * w >= 0,
        z * w * w >= 0,
        z * w <= x + y * w + z * w * w,
        y * w <= x + y * w + z * w * w,
{
    assert(y * w >= 0) by (nonlinear_arith)
        requires y >= 0, w >= 0;
    assert(z * w >= 0) by (nonlinear_arith)
        requires z >= 0, w >= 0;
    assert(z * w * w >= z * w) by (nonlinear_arith)
        requires z >= 0, w >= 0;
}

/// The cubes of the world and the water that is still moving in it.
pub struct Grid {
    pub grid: Vec<Cube>,
    pub width: usize,
    pub height: usize,
    pub events: EventQueue,
    pub active_water: VecDeque<Pos>,
}

impl Grid {
    /// Number of cubes along x and along y.
    pub open spec fn width_of(&self) -> int {
        self.width as int
    }

    /// Number of cubes along z.
    pub open spec fn height_of(&self) -> int {
        self.height as int
    }

    /// The events that changes of the grid have published and nobody has taken yet.
    pub open spec fn events_of(&self) -> Seq<GridChangeEvent> {
        self.events.cube_events@
    }

    /// The water cubes still to be moved, first to move first.
    pub open spec fn water_of(&self) -> Seq<Pos> {
        self.active_water@
    }

    /// Number of cubes in one level of the grid.
    pub open spec fn ww(&self) -> int {
        self.width * self.width
    }

    pub open spec fn index_of(&self, p: Pos) -> int {
        pos_index(p, self.width_of())
    }

    /// `p` names a cube of this grid.
    pub open spec fn holds(&self, p: Pos) -> bool {
        self.index_of(p) < self.grid@.len()
    }

    pub open spec fn cube_at(&self, p: Pos) -> Cube {
        self.grid@[self.index_of(p)]
    }

    /// The grid has the size of the world: `GRID_WIDTH` by `GRID_WIDTH` by `GRID_HEIGHT`.
    pub open spec fn is_standard(&self) -> bool {
        &&& self.width_of() == GRID_WIDTH as int
        &&& self.height_of() == GRID_HEIGHT as int
        &&& self.grid@.len() == box_len()
    }

    /// The grid is `GRID_WIDTH` cubes wide along x and y and holds `height` whole levels.
    pub open spec fn is_layered(&self) -> bool {
        &&& self.width_of() == GRID_WIDTH as int
        &&& self.grid@.len() == (GRID_WIDTH * GRID_WIDTH) as int * self.height_of()
    }

    /// Everything but the cubes is as in `old`.
    pub open spec fn keeps_all_but_cubes(&self, old: &Grid) -> bool {
        &&& self.width_of() == old.width_of()
        &&& self.height_of() == old.height_of()
        &&& self.events_of() == old.events_of()
        &&& self.water_of() == old.water_of()
        &&& self.grid@.len() == old.grid@.len()
    }

    /// The cubes after the cube at `pos` is deleted.
    pub open spec fn cubes_after_delete(&self, pos: Pos) -> Seq<Cube> {
        self.grid@.update(self.index_of(pos), emptied(self.cube_at(pos)))
    }

    /// The events after the cube at `pos` is deleted: a deletion is published unless an
    /// agent stood there.
    pub open spec fn events_after_delete(&self, pos: Pos) -> Seq<GridChangeEvent> {
        if self.cube_at(pos).agent is None {
            self.events_of().push(GridChangeEvent::Delete(pos))
        } else {
            self.events_of()
        }
    }

    /// The cubes after the cube at `from` is moved to `to`.
    pub open spec fn cubes_after_move(&self, from: Pos, to: Pos) -> Seq<Cube> {
        if from == to {
            self.grid@
        } else {
            self.grid@.update(self.index_of(to), self.cube_at(from)).update(
                self.index_of(from),
                emptied(self.cube_at(from)),
            )
        }
    }

    /// The events after the cube at `from` is moved to `to`.
    pub open spec fn events_after_move(&self, from: Pos, to: Pos) -> Seq<GridChangeEvent> {
        if from == to {
            self.events_of()
        } else {
            self.events_after_delete(from)
        }
    }

    /// The cubes after `cube` is put at `pos`: a lantern lights those around it.
    pub open spec fn cubes_after_place(&self, pos: Pos, cube: Cube) -> Seq<Cube> {
        let placed = self.grid@.update(self.index_of(pos), cube);
        if cube.cube_type == LANTERN_CUBE {
            Seq::new(self.grid@.len(), |i: int| lantern_lit(placed, pos, i))
        } else {
            placed
        }
    }

    /// A grid of `width` by `width` by `height` stone cubes that publishes its changes to
    /// `event_queue`.
    pub fn new(width: usize, height: usize, event_queue: EventQueue) -> (g: Grid)
        requires
            width * width <= usize::MAX,
            width * width * height <= usize::MAX,
        ensures
            g.width_of() == width,
            g.height_of() == height,
            g.grid@ == Seq::new((width * width * height) as nat, |i: int| new_cube(0)),
            g.events_of() == event_queue.cube_events@,
            g.water_of() == Seq::<Pos>::empty(),
    {
        let n = width * width * height;
        let cubes = vec![Cube::new(0); n];
        assert(cubes@ =~= Seq::new(n as nat, |i: int| new_cube(0)));
        Grid {
            grid: cubes,
            width: width,
            height: height,
            events: event_queue,
            active_water: VecDeque::new(),
        }
    }

    /// Hands over the events published so far and starts a fresh queue.
    pub fn take_events(&mut self) -> (q: EventQueue)
        ensures
            q.cube_events@ == old(self).events_of(),
            final(self).events_of() == Seq::<GridChangeEvent>::empty(),
            final(self).grid@ == old(self).grid@,
            final(self).width_of() == old(self).width_of(),
            final(self).height_of() == old(self).height_of(),
            final(self).water_of() == old(self).water_of(),
    {
        let mut q = EventQueue::new();
        std::mem::swap(&mut q, &mut self.events);
        q
    }

    /// The index of `world_space` in `grid`, or an error when it lies past the end.
    pub fn get_vector_pos(&self, world_space: Pos) -> (r: Result<usize, String>)
        requires
            self.index_of(world_space) <= usize::MAX,
        ensures
            r is Ok <==> self.holds(world_space),
            r matches Ok(i) ==> i == self.index_of(world_space),
            r matches Err(msg) ==> msg@ == bounds_message(self.index_of(world_space) as usize),
    {
        proof {
            lemma_index_parts(
                world_space.0 as int,
                world_space.1 as int,
                world_space.2 as int,
                self.width as int,
            );
        }
        let index = world_space.0 + world_space.1 * self.width + world_space.2 * self.width
            * self.width;
        if index >= self.grid.len() {
            return Err(out_of_bounds_message(index));
        };
        Ok(index)
    }

    fn cell_index(&self, p: Pos) -> (i: usize)
        requires
            self.holds(p),
        ensures
            i == self.index_of(p),
    {
        proof {
            // The length of a vector fits in a usize.
            assert(self.grid@.len() == self.grid.len());
        }
        match self.get_vector_pos(p) {
            Ok(i) => i,
            Err(_) => {
                proof {
                    assert(false);
                }
                0
            },
        }
    }

    /// The index of `p`, a position on one of the levels of a grid `GRID_WIDTH` wide.
    pub(crate) fn index_in_layers(&self, p: Pos) -> (i: usize)
        requires
            self.is_layered(),
            p.0 < GRID_WIDTH,
            p.1 < GRID_WIDTH,
            p.2 < self.height,
        ensures
            i == pos_index(p, GRID_WIDTH as int),
            self.holds(p),
    {
        proof {
            let h = self.height as int;
            assert(p.0 + p.1 * 300 + p.2 * 90000 < 90000 * h) by (nonlinear_arith)
                requires p.0 < 300, p.1 < 300, p.2 < h, p.0 >= 0, p.1 >= 0, p.2 >= 0;
            assert(pos_index(p, GRID_WIDTH as int) == p.0 + p.1 * 300 + p.2 * 90000) by (nonlinear_arith);
        }
        self.cell_index(p)
    }

    /// The index of `p`, a position inside the world, in a grid of the standard size.
    pub(crate) fn index_in_world(&self, p: Pos) -> (i: usize)
        requires
            self.is_standard(),
            in_box(p),
        ensures
            i == pos_index(p, GRID_WIDTH as int),
    {
        proof {
            lemma_in_box_index(p);
        }
        self.cell_index(p)
    }

    pub fn get_cube(&self, pos: Pos) -> (c: &Cube)
        requires
            self.holds(pos),
        ensures
            *c == self.cube_at(pos),
    {
        let i = self.cell_index(pos);
        &self.grid[i]
    }

    pub fn get_cube_mut(&mut self, pos: Pos) -> (c: &mut Cube)
        requires
            old(self).holds(pos),
        ensures
            *c == old(self).cube_at(pos),
            final(self).grid@ == old(self).grid@.update(old(self).index_of(pos), *final(c)),
            final(self).keeps_all_but_cubes(old(self)),
    {
        let i = self.cell_index(pos);
        &mut self.grid[i]
    }

    /// The cube beside the one at index `i` that hides its x-facing side as seen from
    /// `compass`, or `None` at the edge of the world.
    pub fn get_blocking_cube_x(&self, compass: &Compass, i: usize) -> (r: Option<Cube>)
        requires
            self.width > 0,
            (*compass == Compass::North || *compass == Compass::East) && i % self.width != self.width - 1 ==> i
                + 1 < self.grid@.len(),
            *compass == Compass::South && i % self.width != 0 ==> i + 1 < self.grid@.len(),
            *compass == Compass::West && i % self.width != 0 ==> i - 1 < self.grid@.len(),
        ensures
            r == match *compass {
                Compass::North | Compass::East => if i % self.width == self.width - 1 {
                    None
                } else {
                    Some(self.grid@[i + 1])
                },
                Compass::South => if i % self.width == 0 {
                    None
                } else {
                    Some(self.grid@[i + 1])
                },
                Compass::West => if i % self.width == 0 {
                    None
                } else {
                    Some(self.grid@[i - 1])
                },
            },
    {
        proof {
            // The length of a vector fits in a usize.
            assert(self.grid@.len() == self.grid.len());
        }
        match compass {
            Compass::North => {
                if i % self.width == self.width - 1 {
                    return None;
                }
                Some(self.grid[i + 1])
            },
            Compass::East => {
                if i % self.width == self.width - 1 {
                    return None;
                }
                Some(self.grid[i + 1])
            },
            Compass::South => {
                if i % self.width == 0 {
                    return None;
                }
                Some(self.grid[i + 1])
            },
            Compass::West => {
                if i % self.width == 0 {
                    return None;
                }
                proof {
                    lemma_mod_nonzero_positive(i as int, self.width as int);
                }
                Some(self.grid[i - 1])
            },
        }
    }

    /// The cube that covers `face` of the cube at index `i`, or `None` at the edge of the
    /// world.
    pub fn get_blocking_cube(&self, face: &CubeFace, i: usize) -> (r: Option<Cube>)
        requires
            *face != CubeFace::Z ==> self.width > 0,
            self.width * self.width <= usize::MAX,
            *face == CubeFace::nY && ((i as int) % self.ww()) / (self.width as int) != 0 ==> i
                - self.width < self.grid@.len(),
            *face == CubeFace::nX && i % self.width != 0 ==> i - 1 < self.grid@.len(),
            *face == CubeFace::pX && i % self.width != GRID_WIDTH - 1 ==> i + 1 < self.grid@.len(),
            *face == CubeFace::pY && ((i as int) % self.ww()) / (self.width as int) != self.width
                - 1 ==> i + self.width < self.grid@.len(),
            *face == CubeFace::Z ==> i + self.width * self.width <= usize::MAX && self.height * self.width
                * self.width <= usize::MAX,
            *face == CubeFace::Z && i + self.width * self.width < self.height * self.width * self.width
                ==> i + self.width * self.width < self.grid@.len(),
        ensures
            r == match *face {
                CubeFace::nY => if ((i as int) % self.ww()) / (self.width as int) == 0 {
                    None
                } else {
                    Some(self.grid@[i - self.width])
                },
                CubeFace::nX => if i % self.width == 0 {
                    None
                } else {
                    Some(self.grid@[i - 1])
                },
                CubeFace::pX => if i % self.width == GRID_WIDTH - 1 {
                    None
                } else {
                    Some(self.grid@[i + 1])
                },
                CubeFace::pY => if ((i as int) % self.ww()) / (self.width as int)
                    == self.width - 1 {
                    None
                } else {
                    Some(self.grid@[i + self.width])
                },
                CubeFace::Z => if i + self.width * self.width >= self.height * self.width
                    * self.width {
                    None
                } else {
                    Some(self.grid@[i + self.width * self.width])
                },
            },
    {
        proof {
            // The length of a vector fits in a usize.
            assert(self.grid@.len() == self.grid.len());
        }
        proof {
            lemma_square_parts(self.width as int, self.height as int);
        }
        match face {
            CubeFace::nY => {
                if (i % (self.width * self.width)) / self.width == 0 {
                    return None;
                }
                proof {
                    lemma_mod_div_nonzero(i as int, self.width as int);
                }
                Some(self.grid[i - self.width])
            },
            CubeFace::nX => {
                if i % self.width == 0 {
                    return None;
                }
                proof {
                    lemma_mod_nonzero_positive(i as int, self.width as int);
                }
                Some(self.grid[i - 1])
            },
            CubeFace::pX => {
                if i % self.width == GRID_WIDTH - 1 {
                    return None;
                }
                Some(self.grid[i + 1])
            },
            CubeFace::pY => {
                if (i % (self.width * self.width)) / self.width == self.width - 1 {
                    return None;
                }
                Some(self.grid[i + self.width])
            },
            CubeFace::Z => {
                let val = i + self.width * self.width;
                if val >= self.height * self.width * self.width {
                    return None;
                }
                Some(self.grid[i + self.width * self.width])
            },
        }
    }

    /// The cube beside the one at index `i` that hides its y-facing side as seen from
    /// `compass`, or `None` at the edge of the world.
    pub fn get_blocking_cube_y(&self, compass: &Compass, i: usize) -> (r: Option<Cube>)
        requires
            self.width > 0,
            self.width * self.width + self.width <= usize::MAX,
            (*compass == Compass::North || *compass == Compass::West) && (i as int) % self.ww()
                + self.width < self.width * self.width ==> i + self.width < self.grid@.len(),
            *compass == Compass::East ==> self.width <= i < self.grid@.len() + self.width,
            *compass == Compass::South ==> i + self.width < self.grid@.len(),
        ensures
            r == match *compass {
                Compass::North | Compass::West => if (i as int) % self.ww() + self.width
                    >= self.width * self.width {
                    None
                } else {
                    Some(self.grid@[i + self.width])
                },
                Compass::East => Some(self.grid@[i - self.width]),
                Compass::South => Some(self.grid@[i + self.width]),
            },
    {
        proof {
            // The length of a vector fits in a usize.
            assert(self.grid@.len() == self.grid.len());
        }
        proof {
            lemma_square_parts(self.width as int, self.height as int);
        }
        match compass {
            Compass::North => {
                if i % (self.width * self.width) + self.width >= self.width * self.width {
                    return None;
                }
                Some(self.grid[i + self.width])
            },
            Compass::West => {
                if i % (self.width * self.width) + self.width >= self.width * self.width {
                    return None;
                }
                Some(self.grid[i + self.width])
            },
            Compass::East => {
                if i % (self.width * self.width) + self.width < self.width {
                    return None;
                }
                Some(self.grid[i - self.width])
            },
            Compass::South => {
                if i % (self.width * self.width) + self.width < self.width {
                    return None;
                }
                Some(self.grid[i + self.width])
            },
        }
    }

    /// The cube on top of the one at index `i`, or `None` at the top of the world.
    pub fn get_cube_above(&self, i: usize) -> (r: Option<Cube>)
        requires
            i + self.width * self.width <= usize::MAX,
            self.height * self.width * self.width <= usize::MAX,
            i + self.width * self.width < self.height * self.width * self.width ==> i
                + self.width * self.width < self.grid@.len(),
        ensures
            r == if i + self.width * self.width >= self.height * self.width * self.width {
                None
            } else {
                Some(self.grid@[i + self.width * self.width])
            },
    {
        proof {
            // The length of a vector fits in a usize.
            assert(self.grid@.len() == self.grid.len());
        }
        proof {
            lemma_square_parts(self.width as int, self.height as int);
        }
        let val = i + self.width * self.width;
        if val >= self.height * self.width * self.width {
            return None;
        }
        Some(self.grid[i + self.width * self.width])
    }

    /// Puts `c` in place of the cube at `p`.
    pub(crate) fn set_cube(&mut self, p: Pos, c: Cube)
        requires
            old(self).holds(p),
        ensures
            final(self).grid@ == old(self).grid@.update(old(self).index_of(p), c),
            final(self).keeps_all_but_cubes(old(self)),
    {
        let i = self.cell_index(p);
        self.grid.set(i, c);
    }

    /// An agent or a non-empty cube takes up `position`.
    pub fn is_occupied(&self, position: Pos) -> (b: bool)
        requires
            self.holds(position),
        ensures
            b == (self.cube_at(position).agent is Some || self.cube_at(position).cube_type
                != EMPTY_CUBE),
    {
        let index = self.cell_index(position);
        self.grid[index].agent.is_some() || self.grid[index].cube_type != EMPTY_CUBE
    }

    /// Empties the cube at `pos`; when no agent stood there, publishes its deletion.
    pub fn delete_cube(&mut self, pos: Pos)
        requires
            old(self).holds(pos),
        ensures
            final(self).grid@ == old(self).cubes_after_delete(pos),
            final(self).events_of() == old(self).events_after_delete(pos),
            final(self).width_of() == old(self).width_of(),
            final(self).height_of() == old(self).height_of(),
            final(self).water_of() == old(self).water_of(),
    {
        let index = self.cell_index(pos);
        let mut cube = self.grid[index];
        cube.cube_type = EMPTY_CUBE;
        cube.cube_x_face = None;
        cube.cube_y_face = None;
        cube.cube_z_face = None;
        let send_event = cube.agent.is_none();
        cube.agent = None;
        self.grid.set(index, cube);
        if send_event {
            self.events.publish_event(GridChangeEvent::Delete(pos));
        }
    }

    /// In a grid of the standard size, the cube that covers face `face` of the cube at `q`,
    /// or `None` at the edge of the world.
    pub open spec fn neighbour(&self, face: CubeFace, q: Pos) -> Option<Cube> {
        match face {
            CubeFace::nY => if q.1 == 0 {
                None
            } else {
                Some(self.cube_at((q.0, (q.1 - 1) as usize, q.2)))
            },
            CubeFace::nX => if q.0 == 0 {
                None
            } else {
                Some(self.cube_at(((q.0 - 1) as usize, q.1, q.2)))
            },
            CubeFace::pX => if q.0 == GRID_WIDTH - 1 {
                None
            } else {
                Some(self.cube_at(((q.0 + 1) as usize, q.1, q.2)))
            },
            CubeFace::pY => if q.1 == GRID_WIDTH - 1 {
                None
            } else {
                Some(self.cube_at((q.0, (q.1 + 1) as usize, q.2)))
            },
            CubeFace::Z => if q.2 == GRID_HEIGHT - 1 {
                None
            } else {
                Some(self.cube_at((q.0, q.1, (q.2 + 1) as usize)))
            },
        }
    }

    /// The cube that covers face `face` of the cube at `q` (see `neighbour`), looked up
    /// by index with `get_blocking_cube`.
    pub fn neighbour_cube(&self, face: &CubeFace, q: Pos) -> (r: Option<Cube>)
        requires
            self.is_standard(),
            in_box(q),
        ensures
            r == self.neighbour(*face, q),
    {
        let i = self.index_in_world(q);
        proof {
            lemma_in_box_index(q);
            let w = GRID_WIDTH as int;
            assert(i == q.0 + q.1 * 300 + q.2 * 90000) by (nonlinear_arith)
                requires i == pos_index(q, w), w == 300;
            assert((i as int) % 300 == q.0 && ((i as int) % 90000) / 300 == q.1) by (nonlinear_arith)
                requires i == q.0 + q.1 * 300 + q.2 * 90000, 0 <= q.0 < 300, 0 <= q.1 < 300, 0 <= q.2 < 60;
            assert(self.ww() == 90000);
            if q.1 != 0 {
                assert(pos_index((q.0, (q.1 - 1) as usize, q.2), w) == i - 300) by (nonlinear_arith)
                    requires i == q.0 + q.1 * 300 + q.2 * 90000, q.1 >= 1, w == 300;
            }
            if q.0 != 0 {
                assert(pos_index(((q.0 - 1) as usize, q.1, q.2), w) == i - 1) by (nonlinear_arith)
                    requires i == q.0 + q.1 * 300 + q.2 * 90000, q.0 >= 1, w == 300;
            }
            assert(pos_index(((q.0 + 1) as usize, q.1, q.2), w) == i + 1) by (nonlinear_arith)
                requires i == q.0 + q.1 * 300 + q.2 * 90000, w == 300, q.0 < 300, q.1 < 300, q.2 < 60;
            assert(pos_index((q.0, (q.1 + 1) as usize, q.2), w) == i + 300) by (nonlinear_arith)
                requires i == q.0 + q.1 * 300 + q.2 * 90000, w == 300, q.0 < 300, q.1 < 300, q.2 < 60;
            assert(pos_index((q.0, q.1, (q.2 + 1) as usize), w) == i + 90000) by (nonlinear_arith)
                requires i == q.0 + q.1 * 300 + q.2 * 90000, w == 300, q.0 < 300, q.1 < 300, q.2 < 60;
        }
        self.get_blocking_cube(face, i)
    }

    /// Puts `cube` at `pos`; a lantern then lights the cubes around it.
    pub fn place_cube(&mut self, pos: Pos, cube: Cube)
        requires
            old(self).holds(pos),
            cube.cube_type == LANTERN_CUBE ==> old(self).is_standard() && in_box(pos),
        ensures
            final(self).keeps_all_but_cubes(old(self)),
            final(self).grid@ == old(self).cubes_after_place(pos, cube),
    {
        self.set_cube(pos, cube);
        if cube.cube_type == LANTERN_CUBE {
            light_flood_fill(pos, self);
        }
    }

    /// Marks the cell where `agent` stands as taken by it (its id cut to a byte).
    pub fn spawn_agent(&mut self, agent: &Agent)
        requires
            old(self).holds(agent.position),
        ensures
            final(self).grid@ == old(self).grid@.update(
                old(self).index_of(agent.position),
                agent_cube(agent.id as u8),
            ),
            final(self).keeps_all_but_cubes(old(self)),
    {
        self.set_cube(agent.position, Cube::with_agent(agent.id as u8));
    }

    /// Moves the cube at `from` to `to`, leaving `from` deleted.
    pub fn move_cube(&mut self, from: Pos, to: Pos)
        requires
            old(self).holds(from),
            old(self).holds(to),
        ensures
            from == to ==> *final(self) == *old(self),
            final(self).grid@ == old(self).cubes_after_move(from, to),
            final(self).events_of() == old(self).events_after_move(from, to),
            final(self).width_of() == old(self).width_of(),
            final(self).height_of() == old(self).height_of(),
            final(self).water_of() == old(self).water_of(),
    {
        if from.0 == to.0 && from.1 == to.1 && from.2 == to.2 {
            return;
        }
        let from_index = self.cell_index(from);
        let to_index = self.cell_index(to);
        let move_cube = self.grid[from_index];
        self.grid.set(to_index, move_cube);
        self.delete_cube(from);
    }
}

impl core::ops::Index<usize> for Grid {
    type Output = Cube;

    /// The cube at index `i` of the grid.
    fn index(&self, i: usize) -> (c: &Cube)
        ensures
            *c == self.grid@[i as int],
    {
        &self.grid[i]
    }
}

impl vstd::std_specs::core::IndexSpecImpl<usize> for Grid {
    open spec fn index_req(&self, i: &usize) -> bool {
        *i < self.grid@.len()
    }
}

/// In a grid of the standard size, the positions inside the world are exactly those whose
/// index lies in the grid.
pub proof fn lemma_in_box_index(p: Pos)
    requires
        in_box(p),
    ensures
        0 <= pos_index(p, GRID_WIDTH as int) < box_len(),
{
    assert(pos_index(p, GRID_WIDTH as int) == p.0 + p.1 * 300 + p.2 * 90000) by (nonlinear_arith);
}

/// In the world of the standard size, each index stands for a position inside the world
/// whose index it is.
pub proof fn lemma_pos_of_index(i: int)
    requires
        0 <= i < box_len(),
    ensures
        in_box(pos_of_index(i)),
        pos_index(pos_of_index(i), GRID_WIDTH as int) == i,
{
    let x = i % 300;
    let q = i / 300;
    let y = q % 300;
    let z = q / 300;
    assert(i == x + 300 * q && 0 <= x < 300) by (nonlinear_arith)
        requires x == i % 300, q == i / 300, i >= 0;
    assert(q == y + 300 * z && 0 <= y < 300 && z >= 0) by (nonlinear_arith)
        requires y == q % 300, z == q / 300, q >= 0;
    assert(i / 90000 == z) by {
        vstd::arithmetic::div_mod::lemma_div_denominator(i, 300, 300);
    }
    assert(z < 60) by (nonlinear_arith)
        requires i == x + 300 * (y + 300 * z), i < 5400000, x >= 0, y >= 0, z >= 0;
    assert(pos_index(pos_of_index(i), GRID_WIDTH as int) == x + y * 300 + z * 90000) by (nonlinear_arith)
        requires
            pos_of_index(i) == (x as usize, y as usize, z as usize),
            0 <= x < 300, 0 <= y < 300, 0 <= z < 60;
    assert(x + y * 300 + z * 90000 == i) by (nonlinear_arith)
        requires i == x + 300 * q, q == y + 300 * z;
}

proof fn lemma_square_parts(w: int, h: int)
    requires
        w >= 0,
        h >= 0,
    ensures
        w > 0 ==> w * w > 0,
        w > 0 ==> h * w <= h * w * w,
        w * w >= 0,
        h * w >= 0,
        w == 0 ==> h * w == 0,
{
    assert(w > 0 ==> w * w > 0) by (nonlinear_arith);
    assert(w > 0 ==> h * w <= h * w * w) by (nonlinear_arith)
        requires h >= 0;
    assert(w * w >= 0 && h * w >= 0) by (nonlinear_arith)
        requires w >= 0, h >= 0;
    assert(w == 0 ==> h * w == 0) by (nonlinear_arith);
}

proof fn lemma_mod_nonzero_positive(i: int, w: int)
    requires
        i >= 0,
        w > 0,
        i % w != 0,
    ensures
        i >= 1,
{
    if i == 0 {
        assert(0int % w == 0) by (nonlinear_arith)
            requires w > 0;
    }
}

proof fn lemma_mod_div_nonzero(i: int, w: int)
    requires
        i >= 0,
        w > 0,
        (i % (w * w)) / w != 0,
    ensures
        i >= w,
{
    assert(w * w > 0) by (nonlinear_arith)
        requires w > 0;
    assert(i % (w * w) <= i) by (nonlinear_arith)
        requires i >= 0, w * w > 0;
    assert((i % (w * w)) / w >= 1) by (nonlinear_arith)
        requires (i % (w * w)) / w != 0, i % (w * w) >= 0, w > 0;
    assert(i % (w * w) >= w) by (nonlinear_arith)
        requires (i % (w * w)) / w >= 1, w > 0, i % (w * w) >= 0;
}

/// `v` read as a signed number, as `v as isize` does.
pub open spec fn signed(v: usize) -> int {
    (v as isize) as int
}

/// Appends `(x, y, z)` to `s` when x and y lie inside the world.
pub open spec fn push_if_inside_xy(s: Seq<Pos>, x: int, y: int, z: usize) -> Seq<Pos> {
    if 0 <= x < GRID_WIDTH && 0 <= y < GRID_WIDTH {
        s.push((x as usize, y as usize, z))
    } else {
        s
    }
}

/// Appends `(x, y, z)` to `s` when it lies inside the world.
pub open spec fn push_if_inside(s: Seq<Pos>, x: int, y: int, z: int) -> Seq<Pos> {
    if 0 <= x < GRID_WIDTH && 0 <= y < GRID_WIDTH && 0 <= z < GRID_HEIGHT {
        s.push((x as usize, y as usize, z as usize))
    } else {
        s
    }
}

/// The positions one step west, east, south and north of `start` (in that order) that lie
/// inside the world.
pub open spec fn horizontal_neighbours(start: Pos) -> Seq<Pos> {
    let x = signed(start.0);
    let y = signed(start.1);
    let z = start.2;
    push_if_inside_xy(
        push_if_inside_xy(
            push_if_inside_xy(push_if_inside_xy(Seq::empty(), x - 1, y, z), x + 1, y, z),
            x,
            y - 1,
            z,
        ),
        x,
        y + 1,
        z,
    )
}

/// The positions that share a face with `start` (-x, +x, -y, +y, -z, +z, in that order) and
/// lie inside the world.
pub open spec fn face_neighbours(start: Pos) -> Seq<Pos> {
    let x = signed(start.0);
    let y = signed(start.1);
    let z = signed(start.2);
    push_if_inside(
        push_if_inside(
            push_if_inside(
                push_if_inside(
                    push_if_inside(push_if_inside(Seq::empty(), x - 1, y, z), x + 1, y, z),
                    x,
                    y - 1,
                    z,
                ),
                x,
                y + 1,
                z,
            ),
            x,
            y,
            z - 1,
        ),
        x,
        y,
        z + 1,
    )
}

/// `v as isize` can take a step of one either way without overflow.
pub open spec fn steppable(v: usize) -> bool {
    isize::MIN < signed(v) < isize::MAX
}

fn push_inside_xy(result: &mut Vec<Pos>, x: isize, y: isize, z: usize)
    ensures
        final(result)@ == push_if_inside_xy(old(result)@, x as int, y as int, z),
{
    if x < 0 || x > (GRID_WIDTH - 1) as isize || y < 0 || y > (GRID_WIDTH - 1) as isize {
        return;
    }
    result.push((x as usize, y as usize, z));
}

fn push_inside(result: &mut Vec<Pos>, x: isize, y: isize, z: isize)
    ensures
        final(result)@ == push_if_inside(old(result)@, x as int, y as int, z as int),
{
    if x < 0 || x > (GRID_WIDTH - 1) as isize || y < 0 || y > (GRID_WIDTH - 1) as isize || z < 0
        || z > (GRID_HEIGHT - 1) as isize {
        return;
    }
    result.push((x as usize, y as usize, z as usize));
}

/// The positions one step west, east, south and north of `start` that lie inside the world.
pub fn find_horizontal_neighbours(start: Pos) -> (r: Vec<Pos>)
    requires
        steppable(start.0),
        steppable(start.1),
    ensures
        r@ == horizontal_neighbours(start),
{
    let mut result = Vec::new();
    let x = start.0 as isize;
    let y = start.1 as isize;
    push_inside_xy(&mut result, x - 1, y, start.2);
    push_inside_xy(&mut result, x + 1, y, start.2);
    push_inside_xy(&mut result, x, y - 1, start.2);
    push_inside_xy(&mut result, x, y + 1, start.2);
    result
}

/// The positions that share a face with `start` and lie inside the world.
pub fn find_face_neighbours(start: Pos) -> (r: Vec<Pos>)
    requires
        steppable(start.0),
        steppable(start.1),
        steppable(start.2),
    ensures
        r@ == face_neighbours(start),
{
    let mut result = Vec::new();
    let x = start.0 as isize;
    let y = start.1 as isize;
    let z = start.2 as isize;
    push_inside(&mut result, x - 1, y, z);
    push_inside(&mut result, x + 1, y, z);
    push_inside(&mut result, x, y - 1, z);
    push_inside(&mut result, x, y + 1, z);
    push_inside(&mut result, x, y, z - 1);
    push_inside(&mut result, x, y, z + 1);
    result
}

/// The sum of the steps from `start` up to `end` along each axis.
pub fn get_manhattan_distance(start: Pos, end: Pos) -> (d: usize)
    requires
        start.0 <= end.0,
        start.1 <= end.1,
        start.2 <= end.2,
        (end.0 - start.0) + (end.1 - start.1) + (end.2 - start.2) <= usize::MAX,
    ensures
        d == (end.0 - start.0) + (end.1 - start.1) + (end.2 - start.2),
{
    (end.0 - start.0) + (end.1 - start.1) + (end.2 - start.2)
}

/// The difference `b - a` of two coordinates read as signed numbers.
pub open spec fn signed_diff(a: usize, b: usize) -> int {
    signed(b) - signed(a)
}

/// The difference can be formed and its absolute value taken without overflow.
pub open spec fn diff_fits(a: usize, b: usize) -> bool {
    isize::MIN < signed_diff(a, b) <= isize::MAX
}

/// `start` and `end` are on the same level and at most one step apart along x and along y.
pub open spec fn horizontally_adjacent(start: Pos, end: Pos) -> bool {
    start.2 == end.2 && -1 <= signed_diff(start.0, end.0) <= 1 && -1 <= signed_diff(
        start.1,
        end.1,
    ) <= 1
}

fn abs_diff_at_most_one(a: usize, b: usize) -> (r: bool)
    requires
        diff_fits(a, b),
    ensures
        r == (-1 <= signed_diff(a, b) <= 1),
{
    let d = b as isize - a as isize;
    -1 <= d && d <= 1
}

/// `start` and `end` are on the same level and at most one step apart along x and along y
/// (a position is its own neighbour, and so are diagonal ones).
pub fn is_horizontal_neighbour(start: Pos, end: Pos) -> (b: bool)
    requires
        start.2 == end.2 ==> diff_fits(start.0, end.0),
        start.2 == end.2 && -1 <= signed_diff(start.0, end.0) <= 1 ==> diff_fits(start.1, end.1),
    ensures
        b == horizontally_adjacent(start, end),
{
    start.2 == end.2 && abs_diff_at_most_one(start.0, end.0) && abs_diff_at_most_one(
        start.1,
        end.1,
    )
}

} // verus!
