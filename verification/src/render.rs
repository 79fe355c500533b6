//! Rasterising cube faces and sprites into a screen buffer, and lighting.

use vstd::prelude::*;

use crate::grid::{
    box_len, in_box, light_at, lemma_in_box_index, pos_of_index, Cube, Grid, Light,
    MAX_LIGHT_LEVEL,
};
use crate::{Pos, GRID_HEIGHT, GRID_WIDTH, SCREEN_WIDTH, TILE_WIDTH};

verus! {

/// The face of a cube that another cube may hide: the neighbour towards -y, -x, +x, +y,
/// or the one above.
#[allow(non_camel_case_types)]
#[derive(Clone, Copy, PartialEq, Eq, Structural, Debug)]
pub enum CubeFace {
    nY,
    nX,
    pX,
    pY,
    Z,
}

/// Number of pixels in a sprite.
pub const SPRITE_PIXELS: usize = 576;

/// A square image of `TILE_WIDTH` by `TILE_WIDTH` pixels, row by row, each pixel packed as
/// alpha, red, green, blue (from the high byte down).
pub struct Sprite {
    pub pixels: [u32; 576],
}

/// A pixel packed from its channels.
pub open spec fn packed(r: int, g: int, b: int, a: int) -> int {
    a * 0x1000000 + r * 0x10000 + g * 0x100 + b
}

/// The pixel that `rgba[4 * i .. 4 * i + 4]` (red, green, blue, alpha) packs to.
pub open spec fn packed_at(rgba: Seq<u8>, i: int) -> int {
    packed(rgba[4 * i] as int, rgba[4 * i + 1] as int, rgba[4 * i + 2] as int, rgba[4 * i + 3] as int)
}

fn pack(r: u8, g: u8, b: u8, a: u8) -> (v: u32)
    ensures
        v == packed(r as int, g as int, b as int, a as int),
{
    let v = (a as u32) << 24 | (r as u32) << 16 | (g as u32) << 8 | b as u32;
    assert(((a as u32) << 24 | (r as u32) << 16 | (g as u32) << 8 | b as u32) == (a as u32)
        * 0x1000000 + (r as u32) * 0x10000 + (g as u32) * 0x100 + (b as u32)) by (bit_vector);
    v
}

impl Sprite {
    /// The sprite whose pixels are given, row by row, as red, green, blue and alpha bytes;
    /// pixels that the image does not cover stay 0.
    pub fn new(rgba: &[u8]) -> (s: Self)
        requires
            rgba@.len() % 4 == 0,
            rgba@.len() <= 4 * SPRITE_PIXELS,
        ensures
            forall|i: int|
                0 <= i < SPRITE_PIXELS ==> s.pixels@[i] == if i < rgba@.len() / 4 {
                    packed_at(rgba@, i)
                } else {
                    0
                },
    {
        let mut pixels = [0u32; 576];
        let n = rgba.len() / 4;
        let mut i: usize = 0;
        while i < n
            invariant
                n == rgba@.len() / 4,
                rgba@.len() % 4 == 0,
                n <= SPRITE_PIXELS,
                i <= n,
                pixels@.len() == SPRITE_PIXELS,
                forall|j: int|
                    0 <= j < SPRITE_PIXELS ==> pixels@[j] == if j < i {
                        packed_at(rgba@, j)
                    } else {
                        0
                    },
            decreases n - i,
        {
            let val = pack(rgba[4 * i], rgba[4 * i + 1], rgba[4 * i + 2], rgba[4 * i + 3]);
            pixels[i] = val;
            i = i + 1;
        }
        Sprite { pixels }
    }
}

pub const ALPHA_MASK: u32 = 0xFF00_0000;
pub const RED_MASK: u32 = 0x00FF_0000;
pub const GREEN_MASK: u32 = 0x0000_FF00;
pub const BLUE_MASK: u32 = 0x0000_00FF;

/// The three faces of a cube seen from above.
#[allow(non_camel_case_types)]
#[derive(Clone, Copy, PartialEq, Eq, Structural, Debug)]
pub enum Face {
    LEFT,
    RIGHT,
    TOP,
}

/// Pixel `(x, y)` of a tile belongs to the left face of the cube drawn on it: rows 6 to 23
/// of the left half, cut by the slope of the top face above and of the bottom edge below.
pub open spec fn in_left_face(x: int, y: int) -> bool {
    6 <= y <= 23 && 0 <= x <= 11 && x < 2 * (y - 5) && x >= 2 * (y - 18)
}

/// The right face is the mirror image of the left one.
pub open spec fn in_right_face(x: int, y: int) -> bool {
    in_left_face(23 - x, y)
}

/// Pixel `(x, y)` belongs to the top face: the diamond of rows 0 to 10, widest at row 5.
pub open spec fn in_top_face(x: int, y: int) -> bool {
    let d = if y <= 5 {
        y
    } else {
        10 - y
    };
    0 <= y <= 10 && 0 <= x <= 23 && -4 - 4 * d < 2 * x - 23 < 4 + 4 * d
}

/// Pixel `(x, y)` lies in a tile.
pub open spec fn in_tile(x: int, y: int) -> bool {
    0 <= x < TILE_WIDTH && 0 <= y < TILE_WIDTH
}

/// A pixel with some alpha is drawn; a fully transparent one is not.
pub open spec fn visible(v: u32) -> bool {
    v >= 0x0100_0000
}

/// A colour channel `c` under light `l`: darkened by `255 - l`, not below 0.
pub open spec fn lit_channel(c: int, l: u8) -> int {
    if c > 255 - l {
        c - (255 - l)
    } else {
        0
    }
}

/// Pixel `v` as seen under `light`, channel by channel; the result has no alpha.
pub open spec fn shaded(v: u32, light: (u8, u8, u8)) -> u32 {
    (lit_channel(((v / 0x10000) % 0x100) as int, light.0) * 0x10000 + lit_channel(
        ((v / 0x100) % 0x100) as int,
        light.1,
    ) * 0x100 + lit_channel((v % 0x100) as int, light.2)) as u32
}

/// Pixel `v` brightened by adding `highlight`, up to the largest value.
pub open spec fn brightened(v: u32, highlight: u32) -> u32 {
    if v + highlight > u32::MAX {
        u32::MAX
    } else {
        (v + highlight) as u32
    }
}

/// Where in the screen buffer the top left pixel of a tile drawn at `screen_pos` goes.
pub open spec fn tile_base(screen_pos: (usize, usize)) -> int {
    screen_pos.0 + SCREEN_WIDTH * screen_pos.1
}

/// The tile fits in the address range, wherever it lands in the buffer.
pub open spec fn tile_addressable(screen_pos: (usize, usize)) -> bool {
    tile_base(screen_pos) + (TILE_WIDTH - 1) + (TILE_WIDTH - 1) * SCREEN_WIDTH <= usize::MAX
}

/// Buffer pixel `p` after drawing the part `part` of `sprite`, painted by `paint`, at the
/// tile whose top left pixel is `base`: the pixel of the tile that lands on `p`, when it
/// lies in `part` and is visible; otherwise `old` (what `p` held before).
pub open spec fn tile_pixel(
    part: spec_fn(int, int) -> bool,
    paint: spec_fn(u32) -> u32,
    base: int,
    sprite: Seq<u32>,
    old: u32,
    p: int,
) -> u32 {
    let d = p - base;
    let x = d % (SCREEN_WIDTH as int);
    let y = d / (SCREEN_WIDTH as int);
    if d >= 0 && in_tile(x, y) && part(x, y) && visible(sprite[x + y * TILE_WIDTH]) {
        paint(sprite[x + y * TILE_WIDTH])
    } else {
        old
    }
}

enum Shape {
    Left,
    Right,
    Top,
    Square,
}

spec fn shape_has(shape: Shape, x: int, y: int) -> bool {
    match shape {
        Shape::Left => in_left_face(x, y),
        Shape::Right => in_right_face(x, y),
        Shape::Top => in_top_face(x, y),
        Shape::Square => in_tile(x, y),
    }
}

fn shape_contains(shape: &Shape, x: usize, y: usize) -> (b: bool)
    requires
        x < TILE_WIDTH,
        y < TILE_WIDTH,
    ensures
        b == shape_has(*shape, x as int, y as int),
{
    match shape {
        Shape::Left => 6 <= y && x <= 11 && x + 10 < 2 * y && x + 36 >= 2 * y,
        Shape::Right => 6 <= y && 23 - x <= 11 && (23 - x) + 10 < 2 * y && (23 - x) + 36 >= 2 * y,
        Shape::Top => {
            let d = if y <= 5 {
                y
            } else if y <= 10 {
                10 - y
            } else {
                0
            };
            y <= 10 && 2 * x + 4 + 4 * d > 23 && 2 * x < 27 + 4 * d
        },
        Shape::Square => true,
    }
}

enum Paint {
    Shade(u8, u8, u8),
    Brighten(u32),
    Keep,
}

spec fn painted(paint: Paint, v: u32) -> u32 {
    match paint {
        Paint::Shade(r, g, b) => shaded(v, (r, g, b)),
        Paint::Brighten(h) => brightened(v, h),
        Paint::Keep => v,
    }
}

fn paint_value(paint: &Paint, value: u32) -> (r: u32)
    ensures
        r == painted(*paint, value),
{
    match paint {
        Paint::Shade(lr, lg, lb) => {
            let r = ((value & RED_MASK) >> 16) as u8;
            let g = ((value & GREEN_MASK) >> 8) as u8;
            let b = (value & BLUE_MASK) as u8;
            assert(((value & 0x00FF_0000u32) >> 16u32) == (value / 0x10000) % 0x100) by (bit_vector);
            assert(((value & 0x0000_FF00u32) >> 8u32) == (value / 0x100) % 0x100) by (bit_vector);
            assert((value & 0x0000_00FFu32) == value % 0x100) by (bit_vector);
            let r = r.saturating_sub(255 - *lr) as u32;
            let g = g.saturating_sub(255 - *lg) as u32;
            let b = b.saturating_sub(255 - *lb) as u32;
            assert(r < 256 && g < 256 && b < 256 ==> (0u32 | r << 16u32 | g << 8u32 | b) == r
                * 0x10000 + g * 0x100 + b) by (bit_vector);
            0u32 | r << 16 | g << 8 | b
        },
        Paint::Brighten(h) => value.saturating_add(*h),
        Paint::Keep => value,
    }
}

proof fn lemma_tile_offset(base: int, x: int, y: int)
    requires
        0 <= x < TILE_WIDTH,
        0 <= y < TILE_WIDTH,
    ensures
        (base + x + y * SCREEN_WIDTH - base) % (SCREEN_WIDTH as int) == x,
        (base + x + y * SCREEN_WIDTH - base) / (SCREEN_WIDTH as int) == y,
{
    assert((x + y * 2000) % 2000 == x && (x + y * 2000) / 2000 == y) by (nonlinear_arith)
        requires 0 <= x < 24, 0 <= y < 24;
}

proof fn lemma_tile_offset_unique(base: int, p: int, x: int, y: int)
    requires
        p - base >= 0,
        (p - base) % (SCREEN_WIDTH as int) == x,
        (p - base) / (SCREEN_WIDTH as int) == y,
    ensures
        p == base + x + y * SCREEN_WIDTH,
{
    let d = p - base;
    assert(d == d % 2000 + (d / 2000) * 2000) by (nonlinear_arith)
        requires d >= 0;
}

/// Whether pixel `p` is done after rows before `cy`, and pixels before `cx` in row `cy`.
spec fn tile_done(base: int, p: int, cy: int, cx: int) -> bool {
    let d = p - base;
    let x = d % (SCREEN_WIDTH as int);
    let y = d / (SCREEN_WIDTH as int);
    d >= 0 && in_tile(x, y) && (y < cy || (y == cy && x < cx))
}

fn paint_tile(
    shape: Shape,
    paint: Paint,
    screen_pos: (usize, usize),
    sprite: &Sprite,
    buffer: &mut Vec<u32>,
    Ghost(part): Ghost<spec_fn(int, int) -> bool>,
    Ghost(paint_fn): Ghost<spec_fn(u32) -> u32>,
)
    requires
        tile_addressable(screen_pos),
        forall|x: int, y: int| in_tile(x, y) ==> shape_has(shape, x, y) == part(x, y),
        forall|v: u32| painted(paint, v) == paint_fn(v),
    ensures
        final(buffer)@.len() == old(buffer)@.len(),
        forall|p: int|
            0 <= p < old(buffer)@.len() ==> final(buffer)@[p] == tile_pixel(
                part,
                paint_fn,
                tile_base(screen_pos),
                sprite.pixels@,
                old(buffer)@[p],
                p,
            ),
{
    let ghost old_buffer = buffer@;
    let ghost base = tile_base(screen_pos);
    let mut y: usize = 0;
    while y < TILE_WIDTH
        invariant
            tile_addressable(screen_pos),
            base == tile_base(screen_pos),
            forall|x: int, y: int| in_tile(x, y) ==> shape_has(shape, x, y) == part(x, y),
            forall|v: u32| painted(paint, v) == paint_fn(v),
            y <= TILE_WIDTH,
            buffer@.len() == old_buffer.len(),
            forall|p: int|
                0 <= p < old_buffer.len() ==> buffer@[p] == if tile_done(base, p, y as int, 0) {
                    tile_pixel(part, paint_fn, base, sprite.pixels@, old_buffer[p], p)
                } else {
                    old_buffer[p]
                },
        decreases TILE_WIDTH - y,
    {
        let mut x: usize = 0;
        while x < TILE_WIDTH
            invariant
                tile_addressable(screen_pos),
                base == tile_base(screen_pos),
                forall|x: int, y: int| in_tile(x, y) ==> shape_has(shape, x, y) == part(x, y),
                forall|v: u32| painted(paint, v) == paint_fn(v),
                y < TILE_WIDTH,
                x <= TILE_WIDTH,
                buffer@.len() == old_buffer.len(),
                forall|p: int|
                    0 <= p < old_buffer.len() ==> buffer@[p] == if tile_done(base, p, y as int, x as int) {
                        tile_pixel(part, paint_fn, base, sprite.pixels@, old_buffer[p], p)
                    } else {
                        old_buffer[p]
                    },
            decreases TILE_WIDTH - x,
        {
            let value = sprite.pixels[x + y * TILE_WIDTH];
            let pixel = (screen_pos.0 + SCREEN_WIDTH * screen_pos.1) + x + y * SCREEN_WIDTH;
            proof {
                lemma_tile_offset(base, x as int, y as int);
                assert forall|p: int| p != pixel && 0 <= p < old_buffer.len() implies tile_done(
                    base,
                    p,
                    y as int,
                    x as int + 1,
                ) == tile_done(base, p, y as int, x as int) by {
                    let d = p - base;
                    if d >= 0 && d % 2000 == x && d / 2000 == y {
                        lemma_tile_offset_unique(base, p, x as int, y as int);
                    }
                }
            }
            if shape_contains(&shape, x, y) && value & ALPHA_MASK != 0 && pixel < buffer.len() {
                assert((value & 0xFF00_0000u32) != 0 <==> value >= 0x0100_0000u32) by (bit_vector);
                let v = paint_value(&paint, value);
                buffer.set(pixel, v);
            } else {
                assert((value & 0xFF00_0000u32) != 0 <==> value >= 0x0100_0000u32) by (bit_vector);
            }
            x = x + 1;
        }
        proof {
            assert forall|p: int| 0 <= p < old_buffer.len() implies tile_done(
                base,
                p,
                y as int + 1,
                0,
            ) == tile_done(base, p, y as int, TILE_WIDTH as int) by {}
        }
        y = y + 1;
    }
}

/// Draws `face` of `sprite` into `buffer` at `screen_pos`, darkened by `light` (a level for
/// each of red, green and blue). Transparent pixels and pixels past the end of the buffer
/// are left out.
pub fn draw_face(
    face: Face,
    screen_pos: (usize, usize),
    sprite: &Sprite,
    buffer: &mut Vec<u32>,
    light: (u8, u8, u8),
)
    requires
        tile_addressable(screen_pos),
    ensures
        final(buffer)@.len() == old(buffer)@.len(),
        forall|p: int|
            0 <= p < old(buffer)@.len() ==> final(buffer)@[p] == tile_pixel(
                |x: int, y: int|
                    match face {
                        Face::LEFT => in_left_face(x, y),
                        Face::RIGHT => in_right_face(x, y),
                        Face::TOP => in_top_face(x, y),
                    },
                |v: u32| shaded(v, light),
                tile_base(screen_pos),
                sprite.pixels@,
                old(buffer)@[p],
                p,
            ),
{
    let shape = match face {
        Face::LEFT => Shape::Left,
        Face::RIGHT => Shape::Right,
        Face::TOP => Shape::Top,
    };
    paint_tile(
        shape,
        Paint::Shade(light.0, light.1, light.2),
        screen_pos,
        sprite,
        buffer,
        Ghost(
            |x: int, y: int|
                match face {
                    Face::LEFT => in_left_face(x, y),
                    Face::RIGHT => in_right_face(x, y),
                    Face::TOP => in_top_face(x, y),
                },
        ),
        Ghost(|v: u32| shaded(v, light)),
    );
}

/// Draws the top face of `sprite` at `screen_pos`, each pixel brightened by
/// `highlight_colour`.
pub fn draw_top_face(
    screen_pos: (usize, usize),
    sprite: &Sprite,
    buffer: &mut Vec<u32>,
    highlight_colour: u32,
)
    requires
        tile_addressable(screen_pos),
    ensures
        final(buffer)@.len() == old(buffer)@.len(),
        forall|p: int|
            0 <= p < old(buffer)@.len() ==> final(buffer)@[p] == tile_pixel(
                |x: int, y: int| in_top_face(x, y),
                |v: u32| brightened(v, highlight_colour),
                tile_base(screen_pos),
                sprite.pixels@,
                old(buffer)@[p],
                p,
            ),
{
    paint_tile(
        Shape::Top,
        Paint::Brighten(highlight_colour),
        screen_pos,
        sprite,
        buffer,
        Ghost(|x: int, y: int| in_top_face(x, y)),
        Ghost(|v: u32| brightened(v, highlight_colour)),
    );
}

/// Draws the right face of `sprite` at `screen_pos`, each pixel brightened by
/// `highlight_colour`.
pub fn draw_right_face(
    screen_pos: (usize, usize),
    sprite: &Sprite,
    buffer: &mut Vec<u32>,
    highlight_colour: u32,
)
    requires
        tile_addressable(screen_pos),
    ensures
        final(buffer)@.len() == old(buffer)@.len(),
        forall|p: int|
            0 <= p < old(buffer)@.len() ==> final(buffer)@[p] == tile_pixel(
                |x: int, y: int| in_right_face(x, y),
                |v: u32| brightened(v, highlight_colour),
                tile_base(screen_pos),
                sprite.pixels@,
                old(buffer)@[p],
                p,
            ),
{
    paint_tile(
        Shape::Right,
        Paint::Brighten(highlight_colour),
        screen_pos,
        sprite,
        buffer,
        Ghost(|x: int, y: int| in_right_face(x, y)),
        Ghost(|v: u32| brightened(v, highlight_colour)),
    );
}

/// Draws the whole of `sprite` at `screen_pos`, leaving out transparent pixels.
pub fn draw_sprite(screen_pos: (usize, usize), sprite: &Sprite, buffer: &mut Vec<u32>)
    requires
        tile_addressable(screen_pos),
    ensures
        final(buffer)@.len() == old(buffer)@.len(),
        forall|p: int|
            0 <= p < old(buffer)@.len() ==> final(buffer)@[p] == tile_pixel(
                |x: int, y: int| in_tile(x, y),
                |v: u32| v,
                tile_base(screen_pos),
                sprite.pixels@,
                old(buffer)@[p],
                p,
            ),
{
    paint_tile(
        Shape::Square,
        Paint::Keep,
        screen_pos,
        sprite,
        buffer,
        Ghost(|x: int, y: int| in_tile(x, y)),
        Ghost(|v: u32| v),
    );
}

/// The number of steps between `a` and `b` along the three axes.
pub open spec fn manhattan(a: Pos, b: Pos) -> int {
    let dx = if a.0 >= b.0 { a.0 - b.0 } else { b.0 - a.0 };
    let dy = if a.1 >= b.1 { a.1 - b.1 } else { b.1 - a.1 };
    let dz = if a.2 >= b.2 { a.2 - b.2 } else { b.2 - a.2 };
    dx + dy + dz
}

/// Cube `i` of `cubes` after a lantern at `start` lights it: cubes fewer than
/// `MAX_LIGHT_LEVEL` steps away get the light of `MAX_LIGHT_LEVEL` minus their distance.
pub open spec fn lantern_lit(cubes: Seq<Cube>, start: Pos, i: int) -> Cube {
    let d = manhattan(pos_of_index(i), start);
    if d < MAX_LIGHT_LEVEL {
        Cube { light_level: light_at(MAX_LIGHT_LEVEL - d), ..cubes[i] }
    } else {
        cubes[i]
    }
}

fn abs_diff(a: usize, b: usize) -> (d: usize)
    ensures
        d == if a >= b { a - b } else { b - a },
{
    if a >= b {
        a - b
    } else {
        b - a
    }
}

/// Spreads the light of a lantern at `start`: every cube inside the world fewer than
/// `MAX_LIGHT_LEVEL` steps from it (counting steps along the axes, through any cube) gets
/// the light of `MAX_LIGHT_LEVEL` minus its distance; other cubes keep their light.
pub fn light_flood_fill(start: Pos, grid: &mut Grid)
    requires
        old(grid).is_standard(),
        in_box(start),
    ensures
        final(grid).keeps_all_but_cubes(old(grid)),
        final(grid).grid@ == Seq::new(
            old(grid).grid@.len(),
            |i: int| lantern_lit(old(grid).grid@, start, i),
        ),
{
    let ghost old_cubes = grid.grid@;
    let ghost old_grid = *grid;
    let layer: usize = GRID_WIDTH * GRID_WIDTH;
    let z_low: usize = if start.2 >= 9 {
        start.2 - 9
    } else {
        0
    };
    let z_high: usize = if start.2 + 10 <= GRID_HEIGHT {
        start.2 + 10
    } else {
        GRID_HEIGHT
    };
    let low = z_low * layer;
    let high = z_high * layer;
    let mut i = low;
    while i < high
        invariant
            grid.keeps_all_but_cubes(&old_grid),
            grid.is_standard(),
            old_cubes == old_grid.grid@,
            layer == 90000,
            low <= i <= high,
            high <= box_len(),
            low == z_low * 90000,
            high == z_high * 90000,
            z_low == if start.2 >= 9 { start.2 - 9 } else { 0int },
            z_high == if start.2 + 10 <= GRID_HEIGHT { start.2 + 10 } else { GRID_HEIGHT as int },
            in_box(start),
            forall|j: int|
                0 <= j < old_cubes.len() ==> grid.grid@[j] == if low <= j < i {
                    lantern_lit(old_cubes, start, j)
                } else {
                    old_cubes[j]
                },
        decreases high - i,
    {
        let x = i % GRID_WIDTH;
        let y = (i / GRID_WIDTH) % GRID_WIDTH;
        let z = i / layer;
        let d = abs_diff(x, start.0) + abs_diff(y, start.1) + abs_diff(z, start.2);
        assert(pos_of_index(i as int) == (x, y, z));
        if d < MAX_LIGHT_LEVEL as usize {
            let mut cube = grid.grid[i];
            cube.light_level = Light::from_level((MAX_LIGHT_LEVEL as usize - d) as u8);
            grid.grid.set(i, cube);
        }
        i = i + 1;
    }
    proof {
        assert forall|j: int| 0 <= j < old_cubes.len() && !(low <= j < high) implies lantern_lit(
            old_cubes,
            start,
            j,
        ) == old_cubes[j] by {
            let z = j / 90000;
            assert(pos_of_index(j).2 == z);
            if j < low {
                assert(z < z_low) by (nonlinear_arith)
                    requires j < low, low == z_low * 90000, j >= 0, z == j / 90000;
            } else {
                assert(z >= z_high) by (nonlinear_arith)
                    requires j >= high, high == z_high * 90000, z == j / 90000;
            }
        }
    }
    assert(grid.grid@ =~= Seq::new(old_cubes.len(), |i: int| lantern_lit(old_cubes, start, i)));
}

} // verus!
