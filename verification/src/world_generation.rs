//! Making the world: terrain from a noise image, craters blasted at random places, and the
//! workers put on the ground.

use vstd::prelude::*;
use std::sync::Arc;

use crate::agents::{idle_name, lemma_index_round_trip, pool_ready, Agent, Direction};
use crate::game::agents_ready;
use crate::animation::{first_named, has_named, AnimationPool};
use crate::events::EventQueue;
use crate::grid::{
    agent_cube, box_len, in_box, lemma_pos_of_index, new_cube, pos_index, pos_of_index, Cube, Grid,
    FULL_WATER,
};
use crate::{
    Pos, EMPTY_CUBE, GRASS_CUBE, GRID_HEIGHT, GRID_WIDTH, MUD_CUBE, STONE_CUBE, WATER_CUBE,
};

verus! {

/// The level of the ground where the noise is zero.
pub const GROUND_LEVEL: usize = 40;
/// Cells above the ground up to this level fill with water.
pub const SEA_LEVEL: usize = 20;

/// A greyscale noise image, read through its red channel, row by row. Its value at a
/// column is the red value times `z_scale`, in hundredths of a level.
pub struct PerlinNoise {
    pub pixels: Vec<u8>,
    pub width: usize,
    pub height: usize,
    pub z_scale: u32,
}

/// The largest `z_scale` whose noise values fit in 32 bits.
pub const MAX_Z_SCALE: u32 = 16843009;

impl PerlinNoise {
    /// The image has a pixel for each place of its `width` by `height` area.
    pub open spec fn wf(&self) -> bool {
        &&& self.width > 0
        &&& self.height > 0
        &&& self.pixels@.len() == self.width * self.height
        &&& self.z_scale <= MAX_Z_SCALE
    }

    /// The noise at column `(x, y)`, the image repeating in both directions.
    pub open spec fn noise_at(&self, x: int, y: int) -> int {
        self.pixels@[x % (self.width as int) + (y % (self.height as int)) * self.width] as int
            * self.z_scale
    }

    /// The noise at column `(x, y)`, in hundredths of a level.
    pub fn get_noise(&self, x: usize, y: usize) -> (r: u32)
        requires
            self.wf(),
        ensures
            r == self.noise_at(x as int, y as int),
    {
        proof {
            // The length of a vector fits in a usize.
            assert(self.pixels@.len() == self.pixels.len());
        }
        let x = x % self.width;
        let y = y % self.height;
        assert(x + y * self.width < self.width * self.height && y * self.width <= self.width
            * self.height) by (nonlinear_arith)
            requires
                x < self.width,
                y < self.height,
        ;
        let val = self.pixels[x + y * self.width] as u32;
        assert(val * self.z_scale <= 255 * MAX_Z_SCALE) by (nonlinear_arith)
            requires
                val <= 255,
                self.z_scale <= MAX_Z_SCALE,
        ;
        val * self.z_scale
    }
}

/// The level of the grass in column `(x, y)`: the ground level raised by the noise, cut
/// down to whole levels.
pub open spec fn cut_off(noise: PerlinNoise, x: int, y: int) -> int {
    GROUND_LEVEL + noise.noise_at(x, y) / 100
}

/// The cube at level `z` of a column whose grass is at level `cut`: air above the grass
/// (water up to the sea level), grass, four levels of mud beneath it, then stone.
pub open spec fn terrain_cube(cut: int, z: int) -> Cube {
    if z > cut {
        if z > SEA_LEVEL {
            new_cube(EMPTY_CUBE)
        } else {
            Cube { water_level: FULL_WATER, ..new_cube(WATER_CUBE) }
        }
    } else if z == cut {
        new_cube(GRASS_CUBE)
    } else if z > cut - 5 {
        new_cube(MUD_CUBE)
    } else {
        new_cube(STONE_CUBE)
    }
}

/// The cubes of the world before any crater, from the noise `noise`.
pub open spec fn terrain(noise: PerlinNoise) -> Seq<Cube> {
    Seq::new(
        box_len() as nat,
        |i: int|
            {
                let q = pos_of_index(i);
                terrain_cube(cut_off(noise, q.0 as int, q.1 as int), q.2 as int)
            },
    )
}

/// A crater: every cell whose squared distance from `epicentre` is below `size` is blasted
/// empty.
#[derive(Clone, Copy, Debug)]
pub struct Crater {
    pub epicentre: Pos,
    pub size: usize,
}

/// Number of craters blasted into a new world.
pub const CRATER_COUNT: usize = 20;
/// Craters have a size from `MIN_CRATER_SIZE` up to, but not including, `MAX_CRATER_SIZE`.
pub const MIN_CRATER_SIZE: usize = 30;
pub const MAX_CRATER_SIZE: usize = 100;

/// The squared distance between `a` and `b`.
pub open spec fn squared_gap(a: Pos, b: Pos) -> int {
    (a.0 - b.0) * (a.0 - b.0) + (a.1 - b.1) * (a.1 - b.1) + (a.2 - b.2) * (a.2 - b.2)
}

pub open spec fn in_crater(c: Crater, p: Pos) -> bool {
    squared_gap(p, c.epicentre) < c.size
}

/// Some crater of `craters` takes in `p`.
pub open spec fn in_any_crater(craters: Seq<Crater>, p: Pos) -> bool {
    exists|k: int| 0 <= k < craters.len() && in_crater(#[trigger] craters[k], p)
}

/// `cubes` with every cell inside one of `craters` blasted empty.
pub open spec fn carved(cubes: Seq<Cube>, craters: Seq<Crater>) -> Seq<Cube> {
    Seq::new(
        cubes.len(),
        |i: int|
            if in_any_crater(craters, pos_of_index(i)) {
                new_cube(EMPTY_CUBE)
            } else {
                cubes[i]
            },
    )
}

/// The crater can be blasted: its epicentre lies in the world and it reaches at most nine
/// cells out.
pub open spec fn crater_ok(c: Crater) -> bool {
    in_box(c.epicentre) && c.size <= MAX_CRATER_SIZE
}

/// `cubes` with the cells that `sel` picks and crater `c` takes in blasted empty.
pub open spec fn carve_where(cubes: Seq<Cube>, c: Crater, sel: spec_fn(Pos) -> bool) -> Seq<Cube> {
    Seq::new(
        cubes.len(),
        |i: int|
            if sel(pos_of_index(i)) && in_crater(c, pos_of_index(i)) {
                new_cube(EMPTY_CUBE)
            } else {
                cubes[i]
            },
    )
}

/// A crater reaches at most nine cells out along each axis.
proof fn lemma_crater_reach(c: Crater, p: Pos)
    requires
        c.size <= MAX_CRATER_SIZE,
        in_crater(c, p),
    ensures
        -9 <= p.0 - c.epicentre.0 <= 9,
        -9 <= p.1 - c.epicentre.1 <= 9,
        -9 <= p.2 - c.epicentre.2 <= 9,
{
    let a = p.0 - c.epicentre.0;
    let b = p.1 - c.epicentre.1;
    let d = p.2 - c.epicentre.2;
    assert(a * a >= 0 && b * b >= 0 && d * d >= 0) by (nonlinear_arith);
    assert(-9 <= a <= 9) by (nonlinear_arith)
        requires
            a * a < 100,
    ;
    assert(-9 <= b <= 9) by (nonlinear_arith)
        requires
            b * b < 100,
    ;
    assert(-9 <= d <= 9) by (nonlinear_arith)
        requires
            d * d < 100,
    ;
}

fn square_gap(a: usize, b: usize) -> (r: usize)
    requires
        a < GRID_WIDTH,
        b < GRID_WIDTH,
    ensures
        r == (a - b) * (a - b),
        r < GRID_WIDTH * GRID_WIDTH,
{
    let d = if a >= b {
        a - b
    } else {
        b - a
    };
    assert(d * d < 300 * 300) by (nonlinear_arith)
        requires
            d < 300,
    ;
    assert(d * d == (a - b) * (a - b)) by (nonlinear_arith)
        requires
            d == a - b || d == b - a,
    ;
    d * d
}

fn in_crater_exec(c: &Crater, p: Pos) -> (b: bool)
    requires
        in_box(p),
        in_box(c.epicentre),
    ensures
        b == in_crater(*c, p),
{
    let d = square_gap(p.0, c.epicentre.0) + square_gap(p.1, c.epicentre.1) + square_gap(
        p.2,
        c.epicentre.2,
    );
    d < c.size
}

/// Index `i` of the world stands for `p` exactly when `i` is the index of `p`.
proof fn lemma_index_is_pos(i: int, p: Pos)
    requires
        0 <= i < box_len(),
        in_box(p),
    ensures
        (pos_of_index(i) == p) == (i == pos_index(p, GRID_WIDTH as int)),
{
    lemma_pos_of_index(i);
    lemma_index_round_trip(p);
}

/// Blasting two parts of a crater one after the other blasts both.
proof fn lemma_carve_union(cubes: Seq<Cube>, c: Crater, a: spec_fn(Pos) -> bool, b: spec_fn(Pos) -> bool)
    ensures
        carve_where(carve_where(cubes, c, a), c, b) == carve_where(cubes, c, |q: Pos| a(q) || b(q)),
{
    assert(carve_where(carve_where(cubes, c, a), c, b) =~= carve_where(cubes, c, |q: Pos| a(q) || b(q)));
}

/// Blasts empty the cells of column `(i, j)` from level `klo` up to `khi` that `c` takes in.
fn carve_column(grid: &mut Grid, c: &Crater, i: usize, j: usize, klo: usize, khi: usize)
    requires
        old(grid).is_standard(),
        crater_ok(*c),
        i < GRID_WIDTH,
        j < GRID_WIDTH,
        klo <= khi <= GRID_HEIGHT,
    ensures
        final(grid).is_standard(),
        final(grid).keeps_all_but_cubes(old(grid)),
        final(grid).grid@ == carve_where(
            old(grid).grid@,
            *c,
            |q: Pos| q.0 == i && q.1 == j && klo <= q.2 < khi,
        ),
{
    let ghost g0 = *grid;
    let mut k = klo;
    assert(g0.grid@ =~= carve_where(g0.grid@, *c, |q: Pos| q.0 == i && q.1 == j && klo <= q.2 < klo));
    while k < khi
        invariant
            grid.is_standard(),
            grid.keeps_all_but_cubes(&g0),
            crater_ok(*c),
            i < GRID_WIDTH,
            j < GRID_WIDTH,
            klo <= k <= khi <= GRID_HEIGHT,
            g0.is_standard(),
            grid.grid@ == carve_where(g0.grid@, *c, |q: Pos| q.0 == i && q.1 == j && klo <= q.2 < k),
        decreases khi - k,
    {
        let p = (i, j, k);
        let ghost before = grid.grid@;
        if in_crater_exec(c, p) {
            proof {
                crate::grid::lemma_in_box_index(p);
            }
            grid.set_cube(p, Cube::new(EMPTY_CUBE));
        }
        proof {
            assert forall|idx: int| 0 <= idx < grid.grid@.len() implies grid.grid@[idx] == carve_where(
                g0.grid@,
                *c,
                |q: Pos| q.0 == i && q.1 == j && klo <= q.2 < k + 1,
            )[idx] by {
                lemma_index_is_pos(idx, p);
                lemma_pos_of_index(idx);
            }
            assert(grid.grid@ =~= carve_where(g0.grid@, *c, |q: Pos| q.0 == i && q.1 == j && klo <= q.2 < k + 1));
        }
        k = k + 1;
    }
}

/// Blasts empty the cells at x `i`, y from `jlo` up to `jhi` and z from `klo` up to `khi`
/// that `c` takes in.
fn carve_slice(grid: &mut Grid, c: &Crater, i: usize, jlo: usize, jhi: usize, klo: usize, khi: usize)
    requires
        old(grid).is_standard(),
        crater_ok(*c),
        i < GRID_WIDTH,
        jlo <= jhi <= GRID_WIDTH,
        klo <= khi <= GRID_HEIGHT,
    ensures
        final(grid).is_standard(),
        final(grid).keeps_all_but_cubes(old(grid)),
        final(grid).grid@ == carve_where(
            old(grid).grid@,
            *c,
            |q: Pos| q.0 == i && jlo <= q.1 < jhi && klo <= q.2 < khi,
        ),
{
    let ghost g0 = *grid;
    let mut j = jlo;
    assert(g0.grid@ =~= carve_where(g0.grid@, *c, |q: Pos| q.0 == i && jlo <= q.1 < jlo && klo <= q.2 < khi));
    while j < jhi
        invariant
            grid.is_standard(),
            grid.keeps_all_but_cubes(&g0),
            crater_ok(*c),
            i < GRID_WIDTH,
            jlo <= j <= jhi <= GRID_WIDTH,
            klo <= khi <= GRID_HEIGHT,
            grid.grid@ == carve_where(g0.grid@, *c, |q: Pos| q.0 == i && jlo <= q.1 < j && klo <= q.2 < khi),
        decreases jhi - j,
    {
        let ghost before = grid.grid@;
        carve_column(grid, c, i, j, klo, khi);
        proof {
            let a = |q: Pos| q.0 == i && jlo <= q.1 < j && klo <= q.2 < khi;
            let b = |q: Pos| q.0 == i && q.1 == j && klo <= q.2 < khi;
            lemma_carve_union(g0.grid@, *c, a, b);
            assert(carve_where(g0.grid@, *c, |q: Pos| a(q) || b(q)) =~= carve_where(g0.grid@, *c, |q: Pos| q.0 == i && jlo <= q.1 < j + 1 && klo <= q.2 < khi));
        }
        j = j + 1;
    }
}

/// Blasts crater `c` into the grid.
pub fn carve_crater(grid: &mut Grid, c: &Crater)
    requires
        old(grid).is_standard(),
        crater_ok(*c),
    ensures
        final(grid).is_standard(),
        final(grid).keeps_all_but_cubes(old(grid)),
        final(grid).grid@ == carved(old(grid).grid@, seq![*c]),
{
    let ghost g0 = *grid;
    let e = c.epicentre;
    let ilo = if e.0 >= 9 { e.0 - 9 } else { 0 };
    let ihi = if e.0 + 10 <= GRID_WIDTH { e.0 + 10 } else { GRID_WIDTH };
    let jlo = if e.1 >= 9 { e.1 - 9 } else { 0 };
    let jhi = if e.1 + 10 <= GRID_WIDTH { e.1 + 10 } else { GRID_WIDTH };
    let klo = if e.2 >= 9 { e.2 - 9 } else { 0 };
    let khi = if e.2 + 10 <= GRID_HEIGHT { e.2 + 10 } else { GRID_HEIGHT };
    let mut i = ilo;
    assert(g0.grid@ =~= carve_where(g0.grid@, *c, |q: Pos| ilo <= q.0 < ilo && jlo <= q.1 < jhi && klo <= q.2 < khi));
    while i < ihi
        invariant
            grid.is_standard(),
            grid.keeps_all_but_cubes(&g0),
            crater_ok(*c),
            ilo <= i <= ihi <= GRID_WIDTH,
            jlo <= jhi <= GRID_WIDTH,
            klo <= khi <= GRID_HEIGHT,
            grid.grid@ == carve_where(g0.grid@, *c, |q: Pos| ilo <= q.0 < i && jlo <= q.1 < jhi && klo <= q.2 < khi),
        decreases ihi - i,
    {
        carve_slice(grid, c, i, jlo, jhi, klo, khi);
        proof {
            let a = |q: Pos| ilo <= q.0 < i && jlo <= q.1 < jhi && klo <= q.2 < khi;
            let b = |q: Pos| q.0 == i && jlo <= q.1 < jhi && klo <= q.2 < khi;
            lemma_carve_union(g0.grid@, *c, a, b);
            assert(carve_where(g0.grid@, *c, |q: Pos| a(q) || b(q)) =~= carve_where(g0.grid@, *c, |q: Pos| ilo <= q.0 < i + 1 && jlo <= q.1 < jhi && klo <= q.2 < khi));
        }
        i = i + 1;
    }
    proof {
        assert forall|idx: int| 0 <= idx < grid.grid@.len() implies grid.grid@[idx] == carved(g0.grid@, seq![*c])[idx] by {
            lemma_pos_of_index(idx);
            let q = pos_of_index(idx);
            if in_crater(*c, q) {
                lemma_crater_reach(*c, q);
                assert(seq![*c][0] == *c);
            }
            if in_any_crater(seq![*c], q) {
                let k = choose|k: int| 0 <= k < 1 && in_crater(#[trigger] seq![*c][k], q);
                assert(k == 0);
            }
        }
        assert(grid.grid@ =~= carved(g0.grid@, seq![*c]));
    }
}

/// Blasts every crater of `craters` into the grid.
pub fn carve_craters(grid: &mut Grid, craters: &Vec<Crater>)
    requires
        old(grid).is_standard(),
        forall|k: int| 0 <= k < craters@.len() ==> crater_ok(#[trigger] craters@[k]),
    ensures
        final(grid).is_standard(),
        final(grid).keeps_all_but_cubes(old(grid)),
        final(grid).grid@ == carved(old(grid).grid@, craters@),
{
    let ghost g0 = *grid;
    let mut k: usize = 0;
    assert(g0.grid@ =~= carved(g0.grid@, craters@.take(0)));
    while k < craters.len()
        invariant
            grid.is_standard(),
            grid.keeps_all_but_cubes(&g0),
            k <= craters@.len(),
            forall|m: int| 0 <= m < craters@.len() ==> crater_ok(#[trigger] craters@[m]),
            grid.grid@ == carved(g0.grid@, craters@.take(k as int)),
        decreases craters@.len() - k,
    {
        let ghost before = grid.grid@;
        carve_crater(grid, &craters[k]);
        proof {
            let c = craters@[k as int];
            assert forall|idx: int| 0 <= idx < grid.grid@.len() implies grid.grid@[idx] == carved(g0.grid@, craters@.take(k + 1))[idx] by {
                let q = pos_of_index(idx);
                if in_any_crater(craters@.take(k + 1), q) {
                    let m = choose|m: int| 0 <= m < k + 1 && in_crater(#[trigger] craters@.take(k + 1)[m], q);
                    if m < k {
                        assert(craters@.take(k as int)[m] == craters@.take(k + 1)[m]);
                    } else {
                        assert(seq![c][0] == c);
                    }
                }
                if in_any_crater(craters@.take(k as int), q) {
                    let m = choose|m: int| 0 <= m < k && in_crater(#[trigger] craters@.take(k as int)[m], q);
                    assert(craters@.take(k + 1)[m] == craters@.take(k as int)[m]);
                }
                if in_any_crater(seq![c], q) {
                    let m = choose|m: int| 0 <= m < 1 && in_crater(#[trigger] seq![c][m], q);
                    assert(craters@.take(k + 1)[k as int] == c);
                }
            }
            assert(grid.grid@ =~= carved(g0.grid@, craters@.take(k + 1)));
        }
        k = k + 1;
    }
    assert(craters@.take(craters@.len() as int) =~= craters@);
}

fn terrain_cell(noise: &PerlinNoise, x: usize, y: usize, z: usize) -> (c: Cube)
    requires
        noise.wf(),
    ensures
        c == terrain_cube(cut_off(*noise, x as int, y as int), z as int),
{
    let cut: usize = GROUND_LEVEL + (noise.get_noise(x, y) / 100) as usize;
    if z > cut {
        if z > SEA_LEVEL {
            Cube::new(EMPTY_CUBE)
        } else {
            let mut c = Cube::new(WATER_CUBE);
            c.water_level = FULL_WATER;
            c
        }
    } else if z == cut {
        Cube::new(GRASS_CUBE)
    } else if z > cut - 5 {
        Cube::new(MUD_CUBE)
    } else {
        Cube::new(STONE_CUBE)
    }
}

/// The cubes of the world before any crater (see `terrain`).
pub fn build_terrain(noise: &PerlinNoise) -> (v: Vec<Cube>)
    requires
        noise.wf(),
    ensures
        v@ == terrain(*noise),
{
    let n: usize = GRID_WIDTH * GRID_WIDTH * GRID_HEIGHT;
    let mut v: Vec<Cube> = Vec::with_capacity(n);
    let mut i: usize = 0;
    while i < n
        invariant
            noise.wf(),
            n == box_len(),
            i <= n,
            v@.len() == i,
            forall|j: int| 0 <= j < i ==> v@[j] == terrain(*noise)[j],
        decreases n - i,
    {
        let x = i % GRID_WIDTH;
        let y = (i / GRID_WIDTH) % GRID_WIDTH;
        let z = i / (GRID_WIDTH * GRID_WIDTH);
        v.push(terrain_cell(noise, x, y, z));
        i = i + 1;
    }
    assert(v@ =~= terrain(*noise));
    v
}

/// A number drawn at random from `lo` up to, but not including, `hi`, by `rand::random_range`
/// (which draws from the thread's generator and panics on an empty range).
#[verifier::external_body]
fn random_below(lo: usize, hi: usize) -> (r: usize)
    requires
        lo < hi,
    ensures
        lo <= r < hi,
{
    rand::random_range(lo..hi)
}

/// `CRATER_COUNT` craters at random places inside the world, each of a random size from
/// `MIN_CRATER_SIZE` up to, but not including, `MAX_CRATER_SIZE`.
pub fn random_craters() -> (r: Vec<Crater>)
    ensures
        r@.len() == CRATER_COUNT,
        forall|k: int|
            0 <= k < r@.len() ==> in_box((#[trigger] r@[k]).epicentre) && MIN_CRATER_SIZE
                <= r@[k].size < MAX_CRATER_SIZE,
{
    let mut r: Vec<Crater> = Vec::new();
    let mut n: usize = 0;
    while n < CRATER_COUNT
        invariant
            n <= CRATER_COUNT,
            r@.len() == n,
            forall|k: int|
                0 <= k < r@.len() ==> in_box((#[trigger] r@[k]).epicentre) && MIN_CRATER_SIZE
                    <= r@[k].size < MAX_CRATER_SIZE,
        decreases CRATER_COUNT - n,
    {
        let epicentre = (
            random_below(0, GRID_WIDTH),
            random_below(0, GRID_WIDTH),
            random_below(0, GRID_HEIGHT),
        );
        let size = random_below(MIN_CRATER_SIZE, MAX_CRATER_SIZE);
        r.push(Crater { epicentre, size });
        n = n + 1;
    }
    r
}

/// The world of the terrain that `noise` gives, with `craters` blasted into it, publishing
/// its changes to `events`.
pub fn shape_world(events: EventQueue, noise: &PerlinNoise, craters: &Vec<Crater>) -> (g: Grid)
    requires
        noise.wf(),
        forall|k: int| 0 <= k < craters@.len() ==> crater_ok(#[trigger] craters@[k]),
    ensures
        g.is_standard(),
        g.grid@ == carved(terrain(*noise), craters@),
        g.events_of() == events.cube_events@,
        g.water_of() == Seq::<Pos>::empty(),
{
    let cubes = build_terrain(noise);
    let mut grid = Grid::new(GRID_WIDTH, GRID_HEIGHT, events);
    grid.grid = cubes;
    carve_craters(&mut grid, craters);
    grid
}

/// A new world: the terrain that `noise` gives, with craters blasted at random places.
pub fn prepare_grid(events: EventQueue, noise: &PerlinNoise) -> (g: Grid)
    requires
        noise.wf(),
    ensures
        g.is_standard(),
        g.events_of() == events.cube_events@,
        g.water_of() == Seq::<Pos>::empty(),
        exists|craters: Seq<Crater>|
            #![trigger carved(terrain(*noise), craters)]
            craters.len() == CRATER_COUNT && (forall|k: int|
                0 <= k < craters.len() ==> in_box((#[trigger] craters[k]).epicentre)
                    && MIN_CRATER_SIZE <= craters[k].size < MAX_CRATER_SIZE) && g.grid@ == carved(
                terrain(*noise),
                craters,
            ),
{
    let craters = random_craters();
    let g = shape_world(events, noise, &craters);
    assert(g.grid@ == carved(terrain(*noise), craters@));
    g
}

/// The level a worker is put on in column `(x, y)`: just above the highest cube that is
/// not empty at or below level `z`, no higher than the top level, or the floor when there
/// is none.
pub open spec fn spawn_level(cubes: Seq<Cube>, x: usize, y: usize, z: int) -> int
    decreases z + 1,
{
    if z < 0 {
        0
    } else if cubes[pos_index((x, y, z as usize), GRID_WIDTH as int)].cube_type != EMPTY_CUBE {
        if z + 1 < GRID_HEIGHT - 1 {
            z + 1
        } else {
            GRID_HEIGHT - 1
        }
    } else {
        spawn_level(cubes, x, y, z - 1)
    }
}

/// The level a worker is put on in column `(x, y)` (see `spawn_level`).
pub fn find_ground_spawn_z(grid: &Grid, x: usize, y: usize) -> (z: usize)
    requires
        grid.is_standard(),
        x < GRID_WIDTH,
        y < GRID_WIDTH,
    ensures
        z == spawn_level(grid.grid@, x, y, GRID_HEIGHT - 1),
        z < GRID_HEIGHT,
{
    let mut z: usize = GRID_HEIGHT;
    while z > 0
        invariant
            grid.is_standard(),
            x < GRID_WIDTH,
            y < GRID_WIDTH,
            z <= GRID_HEIGHT,
            spawn_level(grid.grid@, x, y, GRID_HEIGHT - 1) == spawn_level(grid.grid@, x, y, z - 1),
        decreases z,
    {
        z = z - 1;
        proof {
            crate::grid::lemma_in_box_index((x, y, z));
        }
        if grid.get_cube((x, y, z)).cube_type != EMPTY_CUBE {
            return if z + 1 < GRID_HEIGHT - 1 {
                z + 1
            } else {
                GRID_HEIGHT - 1
            };
        }
    }
    0
}

/// Where the two workers stand on the ground.
pub const MAN_X: usize = GRID_WIDTH - 40;
pub const MAN_Y: usize = GRID_WIDTH - 30;
pub const MAN2_X: usize = GRID_WIDTH - 35;
pub const MAN2_Y: usize = GRID_WIDTH - 31;

/// A worker called `name`, standing idle at `position` with nothing to do.
pub open spec fn fresh_worker(w: Agent, pool: AnimationPool, name: Seq<char>, position: Pos, id: usize) -> bool {
    &&& w.name@ == name
    &&& *w.animation_pool == pool
    &&& exists|i: int| first_named(pool.animations@, idle_name(), i) && w.animation == pool.animations@[i]
    &&& w.animation_state == 0
    &&& w.position == position
    &&& w.destination is None
    &&& w.tasks@.len() == 0
    &&& w.active_task is None
    &&& w.id == id
    &&& w.direction == Direction::Px
}

/// The pool an `Arc` shares.
pub open spec fn shared_pool(pool: &Arc<AnimationPool>) -> AnimationPool {
    **pool
}

proof fn lemma_worker_ready(w: Agent, pool: AnimationPool, name: Seq<char>, id: usize)
    requires
        fresh_worker(w, pool, name, w.position, id),
        pool_ready(pool),
        in_box(w.position),
        w.position.2 >= 1,
    ensures
        crate::game::agent_ready(w),
{
    let i = choose|i: int| first_named(pool.animations@, idle_name(), i) && w.animation == pool.animations@[i];
    assert(crate::agents::frames_ok(*pool.animations@[i]));
}

fn new_worker(pool: &Arc<AnimationPool>, name: &str, position: Pos, id: usize) -> (w: Agent)
    requires
        has_named(pool.animations@, idle_name()),
    ensures
        fresh_worker(w, **pool, name@, position, id),
{
    proof {
        reveal_strlit("idle");
        assert("idle"@ =~= idle_name());
    }
    let idle = pool.get("idle").unwrap();
    Agent {
        name: name.to_owned(),
        animation: idle,
        animation_state: 0,
        animation_pool: Arc::clone(pool),
        position,
        destination: None,
        tasks: Vec::new(),
        active_task: None,
        id,
        direction: Direction::Px,
    }
}

/// Puts two workers, "man" and "man2", on the ground near the far corner of the world and
/// marks the cells they stand in. Both columns are looked at before either worker is put.
pub fn place_workers(grid: &mut Grid, pool: Arc<AnimationPool>) -> (r: Vec<Agent>)
    requires
        old(grid).is_standard(),
        has_named(pool.animations@, idle_name()),
    ensures
        r@.len() == 2,
        ({
            let z1 = spawn_level(old(grid).grid@, MAN_X, MAN_Y, GRID_HEIGHT - 1);
            let z2 = spawn_level(old(grid).grid@, MAN2_X, MAN2_Y, GRID_HEIGHT - 1);
            let p1 = (MAN_X, MAN_Y, z1 as usize);
            let p2 = (MAN2_X, MAN2_Y, z2 as usize);
            &&& fresh_worker(r@[0], *pool, seq!['m', 'a', 'n'], p1, 0)
            &&& fresh_worker(r@[1], *pool, seq!['m', 'a', 'n', '2'], p2, 1)
            &&& final(grid).grid@ == old(grid).grid@.update(pos_index(p1, GRID_WIDTH as int), agent_cube(0)).update(
                pos_index(p2, GRID_WIDTH as int),
                agent_cube(1),
            )
            &&& pool_ready(*pool) && z1 >= 1 && z2 >= 1 ==> agents_ready(r@)
        }),
        final(grid).keeps_all_but_cubes(old(grid)),
        final(grid).is_standard(),
{
    let man_z = find_ground_spawn_z(grid, MAN_X, MAN_Y);
    let man2_z = find_ground_spawn_z(grid, MAN2_X, MAN2_Y);
    proof {
        reveal_strlit("man");
        reveal_strlit("man2");
        assert("man"@ =~= seq!['m', 'a', 'n']);
        assert("man2"@ =~= seq!['m', 'a', 'n', '2']);
    }
    let man = new_worker(&pool, "man", (MAN_X, MAN_Y, man_z), 0);
    let man2 = new_worker(&pool, "man2", (MAN2_X, MAN2_Y, man2_z), 1);
    proof {
        crate::grid::lemma_in_box_index(man.position);
        crate::grid::lemma_in_box_index(man2.position);
    }
    grid.spawn_agent(&man);
    grid.spawn_agent(&man2);
    proof {
        let pl = shared_pool(&pool);
        if pool_ready(pl) && man_z >= 1 && man2_z >= 1 {
            lemma_worker_ready(man, pl, seq!['m', 'a', 'n'], 0);
            lemma_worker_ready(man2, pl, seq!['m', 'a', 'n', '2'], 1);
        }
    }
    let r = vec![man, man2];
    r
}

} // verus!
