//! Properties that hold across the library's operations.

use vstd::prelude::*;

use crate::grid::{
    brighter, emptied, face_neighbours, horizontal_neighbours, horizontally_adjacent, in_box,
    interpolated, light_at, pos_of_index, Cube, Grid, Light, MAX_LIGHT_LEVEL,
};
use crate::input::{next_key_states, next_mouse_state, ButtonState};
use crate::render::lantern_lit;
use crate::view::{panned, screen_x, screen_y, turned, ViewState};
use crate::water::{below, cube_of, sidx, water_step, WaterWorld};
use crate::grid::{box_len, FULL_WATER};
use crate::WATER_CUBE;
use crate::world_generation::{carved, spawn_level, Crater};
use crate::frame::{cell_screen, cube_painted, face_sprite, lit_cube_painted, uncovered, view_inside, world_cell};
use crate::render::{in_top_face, shaded, tile_base, visible, CubeFace};
use crate::{SCREEN_WIDTH, TILE_WIDTH};
use crate::render::Sprite;
use crate::agents::{cell, path_neighbours, push_some, reachable, step_to};
use crate::grid::walkable;
use crate::{Compass, Pos, EMPTY_CUBE, GRID_HEIGHT, GRID_WIDTH, LANTERN_CUBE};

verus! {

/// `b` is one step west, east, south or north of `a` exactly when `a` is one step the
/// other way from `b`.
pub proof fn law_horizontal_neighbours_symmetric(a: Pos, b: Pos)
    requires
        in_box(a),
        in_box(b),
    ensures
        horizontal_neighbours(a).contains(b) <==> horizontal_neighbours(b).contains(a),
{
    lemma_horizontal_neighbours_are(a, b);
    lemma_horizontal_neighbours_are(b, a);
}

proof fn lemma_horizontal_neighbours_are(a: Pos, b: Pos)
    requires
        in_box(a),
        in_box(b),
    ensures
        horizontal_neighbours(a).contains(b) <==> (a.2 == b.2 && ((a.1 == b.1 && (a.0 == b.0 + 1
            || b.0 == a.0 + 1)) || (a.0 == b.0 && (a.1 == b.1 + 1 || b.1 == a.1 + 1)))),
{
    let s = horizontal_neighbours(a);
    if s.contains(b) {
        let i = choose|i: int| 0 <= i < s.len() && s[i] == b;
    }
    if a.2 == b.2 && ((a.1 == b.1 && (a.0 == b.0 + 1 || b.0 == a.0 + 1)) || (a.0 == b.0 && (a.1
        == b.1 + 1 || b.1 == a.1 + 1))) {
        let x = a.0 as int;
        let y = a.1 as int;
        let s1 = crate::grid::push_if_inside_xy(Seq::empty(), x - 1, y, a.2);
        let s2 = crate::grid::push_if_inside_xy(s1, x + 1, y, a.2);
        let s3 = crate::grid::push_if_inside_xy(s2, x, y - 1, a.2);
        let s4 = crate::grid::push_if_inside_xy(s3, x, y + 1, a.2);
        assert(s == s4);
        if b.0 + 1 == a.0 && a.1 == b.1 {
            assert(s1.last() == b);
            assert(s4.contains(b)) by {
                assert(s4[0] == b);
            }
        } else if b.0 == a.0 + 1 && a.1 == b.1 {
            assert(s2.last() == b);
            assert(s4[s1.len() as int] == b);
        } else if b.1 + 1 == a.1 {
            assert(s3.last() == b);
            assert(s4[s2.len() as int] == b);
        } else {
            assert(s4.last() == b);
        }
    }
}

/// Two cubes share a face in one order exactly when they do in the other.
pub proof fn law_face_neighbours_symmetric(a: Pos, b: Pos)
    requires
        in_box(a),
        in_box(b),
    ensures
        face_neighbours(a).contains(b) <==> face_neighbours(b).contains(a),
{
    lemma_face_neighbours_are(a, b);
    lemma_face_neighbours_are(b, a);
}

/// One step apart along exactly one axis.
pub open spec fn one_step(a: Pos, b: Pos) -> bool {
    ||| a.1 == b.1 && a.2 == b.2 && (a.0 == b.0 + 1 || b.0 == a.0 + 1)
    ||| a.0 == b.0 && a.2 == b.2 && (a.1 == b.1 + 1 || b.1 == a.1 + 1)
    ||| a.0 == b.0 && a.1 == b.1 && (a.2 == b.2 + 1 || b.2 == a.2 + 1)
}

/// Two positions inside the world share a face exactly when they are one step apart along
/// one axis.
pub proof fn law_face_neighbours_one_step(a: Pos, b: Pos)
    requires
        in_box(a),
        in_box(b),
    ensures
        face_neighbours(a).contains(b) <==> one_step(a, b),
{
    lemma_face_neighbours_are(a, b);
}

/// No position is listed twice among the face neighbours of a position.
pub proof fn law_face_neighbours_distinct(a: Pos)
    ensures
        face_neighbours(a).no_duplicates(),
{
    let x = crate::grid::signed(a.0);
    let y = crate::grid::signed(a.1);
    let z = crate::grid::signed(a.2);
    let s1 = crate::grid::push_if_inside(Seq::empty(), x - 1, y, z);
    let s2 = crate::grid::push_if_inside(s1, x + 1, y, z);
    let s3 = crate::grid::push_if_inside(s2, x, y - 1, z);
    let s4 = crate::grid::push_if_inside(s3, x, y + 1, z);
    let s5 = crate::grid::push_if_inside(s4, x, y, z - 1);
    let s6 = crate::grid::push_if_inside(s5, x, y, z + 1);
    assert(face_neighbours(a) == s6);
    assert(s1.no_duplicates());
    assert(s2.no_duplicates());
    assert(s3.no_duplicates());
    assert(s4.no_duplicates());
    assert(s5.no_duplicates());
    assert(s6.no_duplicates());
}

/// One level up, a cube is drawn in the same screen column, 12 pixels higher.
pub proof fn law_layer_up(c: Compass, p: Pos)
    requires
        p.2 < usize::MAX,
    ensures
        screen_x(c, (p.0, p.1, (p.2 + 1) as usize)) == screen_x(c, p),
        screen_y(c, (p.0, p.1, (p.2 + 1) as usize)) == screen_y(c, p) - 12,
        screen_y(c, p) >= 12 && screen_y(c, p) <= usize::MAX ==> (screen_y(
            c,
            (p.0, p.1, (p.2 + 1) as usize),
        ) as usize) == (screen_y(c, p) as usize) - 12,
{
}

proof fn lemma_face_neighbours_are(a: Pos, b: Pos)
    requires
        in_box(a),
        in_box(b),
    ensures
        face_neighbours(a).contains(b) <==> one_step(a, b),
{
    let s = face_neighbours(a);
    let x = a.0 as int;
    let y = a.1 as int;
    let z = a.2 as int;
    let s1 = crate::grid::push_if_inside(Seq::empty(), x - 1, y, z);
    let s2 = crate::grid::push_if_inside(s1, x + 1, y, z);
    let s3 = crate::grid::push_if_inside(s2, x, y - 1, z);
    let s4 = crate::grid::push_if_inside(s3, x, y + 1, z);
    let s5 = crate::grid::push_if_inside(s4, x, y, z - 1);
    let s6 = crate::grid::push_if_inside(s5, x, y, z + 1);
    assert(s == s6);
    if s.contains(b) {
        let i = choose|i: int| 0 <= i < s.len() && s[i] == b;
    }
    if one_step(a, b) {
        if b.0 + 1 == a.0 && a.1 == b.1 && a.2 == b.2 {
            assert(s6[0] == b);
        } else if b.0 == a.0 + 1 && a.1 == b.1 && a.2 == b.2 {
            assert(s6[s1.len() as int] == b);
        } else if b.1 + 1 == a.1 && a.0 == b.0 && a.2 == b.2 {
            assert(s6[s2.len() as int] == b);
        } else if b.1 == a.1 + 1 && a.0 == b.0 && a.2 == b.2 {
            assert(s6[s3.len() as int] == b);
        } else if b.2 + 1 == a.2 {
            assert(s6[s4.len() as int] == b);
        } else {
            assert(s6[s5.len() as int] == b);
        }
    }
}

/// Being horizontal neighbours (`is_horizontal_neighbour`) does not depend on the order.
pub proof fn law_horizontally_adjacent_symmetric(a: Pos, b: Pos)
    ensures
        horizontally_adjacent(a, b) == horizontally_adjacent(b, a),
{
}

/// The light of a level lies between that of level 0 (`Light::min_level`) and that of
/// `MAX_LIGHT_LEVEL` (`Light::max_level`), and never falls as the level rises.
pub proof fn law_light_levels(l1: int, l2: int)
    requires
        0 <= l1 <= l2,
    ensures
        light_at(0) == (Light { x_level: 100, y_level: 100, z_level: 100 }),
        light_at(MAX_LIGHT_LEVEL as int) == (Light { x_level: 220, y_level: 245, z_level: 255 }),
        light_at(l1).x_level <= light_at(l2).x_level,
        light_at(l1).y_level <= light_at(l2).y_level,
        light_at(l1).z_level <= light_at(l2).z_level,
{
    lemma_interpolated_monotone(100, 220, l1, l2);
    lemma_interpolated_monotone(100, 245, l1, l2);
    lemma_interpolated_monotone(100, 255, l1, l2);
}

proof fn lemma_interpolated_monotone(lo: int, hi: int, l1: int, l2: int)
    requires
        0 <= lo <= hi <= 255,
        0 <= l1 <= l2,
    ensures
        lo <= interpolated(lo, hi, l1) <= interpolated(lo, hi, l2) <= hi,
{
    let a = if l1 < 10 { l1 } else { 10 };
    let b = if l2 < 10 { l2 } else { 10 };
    assert((hi - lo) * a / 10 <= (hi - lo) * b / 10 <= hi - lo && 0 <= (hi - lo) * a / 10) by (nonlinear_arith)
        requires 0 <= a <= b <= 10, 0 <= hi - lo;
}

/// Combining lights (`+`) takes the brighter of each face: the order does not matter, and
/// a light combined with itself stays as it is.
pub proof fn law_brighter(a: Light, b: Light, c: Light)
    ensures
        brighter(a, b) == brighter(b, a),
        brighter(brighter(a, b), c) == brighter(a, brighter(b, c)),
        brighter(a, a) == a,
{
}

/// Deleting a cube leaves an empty cube that keeps its light and water, and changes no
/// other cube.
pub proof fn law_delete_empties(g: Grid, pos: Pos, other: Pos)
    requires
        g.holds(pos),
        g.holds(other),
        g.index_of(other) != g.index_of(pos),
    ensures
        g.cubes_after_delete(pos)[g.index_of(pos)] == emptied(g.cube_at(pos)),
        g.cubes_after_delete(pos)[g.index_of(pos)].cube_type == EMPTY_CUBE,
        g.cubes_after_delete(pos)[g.index_of(pos)].agent is None,
        g.cubes_after_delete(pos)[g.index_of(pos)].light_level == g.cube_at(pos).light_level,
        g.cubes_after_delete(pos)[g.index_of(other)] == g.cube_at(other),
{
}

/// Reading a cell after placing a cube there gives the cube back; a lantern comes back at
/// full light.
pub proof fn law_place_then_read(g: Grid, pos: Pos, c: Cube)
    requires
        g.is_standard(),
        in_box(pos),
    ensures
        c.cube_type != LANTERN_CUBE ==> g.cubes_after_place(pos, c)[g.index_of(pos)] == c,
        c.cube_type == LANTERN_CUBE ==> g.cubes_after_place(pos, c)[g.index_of(pos)] == (Cube {
            light_level: Light { x_level: 220, y_level: 245, z_level: 255 },
            ..c
        }),
{
    crate::grid::lemma_in_box_index(pos);
    crate::agents::lemma_index_round_trip(pos);
    assert(g.index_of(pos) == sidx(pos));
    assert(crate::render::manhattan(pos_of_index(sidx(pos)), pos) == 0);
    law_light_levels(0, 0);
}

/// Moving a cube puts it at its destination and leaves an empty cube behind.
pub proof fn law_move_carries(g: Grid, from: Pos, to: Pos)
    requires
        g.holds(from),
        g.holds(to),
        g.index_of(from) != g.index_of(to),
    ensures
        g.cubes_after_move(from, to)[g.index_of(to)] == g.cube_at(from),
        g.cubes_after_move(from, to)[g.index_of(from)] == emptied(g.cube_at(from)),
{
}

/// A key held down frame after frame is pressed in the first and held from the second
/// on; once let go it is released, and a frame later forgotten.
pub proof fn law_key_lifecycle(k: u32)
    ensures
        ({
            let m1 = next_key_states(Map::empty(), seq![k]);
            let m2 = next_key_states(m1, seq![k]);
            let m3 = next_key_states(m2, seq![k]);
            let m4 = next_key_states(m3, Seq::empty());
            let m5 = next_key_states(m4, Seq::empty());
            &&& m1.contains_key(k) && m1[k] == ButtonState::Pressed
            &&& m2.contains_key(k) && m2[k] == ButtonState::Held
            &&& m3.contains_key(k) && m3[k] == ButtonState::Held
            &&& m4.contains_key(k) && m4[k] == ButtonState::Released
            &&& !m5.contains_key(k)
        }),
{
    let one = seq![k];
    assert(one.contains(k)) by {
        assert(one[0] == k);
    }
    assert(!crate::input::occurs_twice(one, k));
    assert(!Seq::<u32>::empty().contains(k));
}

/// The left mouse button follows the same press, hold, release cycle.
pub proof fn law_mouse_lifecycle(s: ButtonState)
    ensures
        next_mouse_state(next_mouse_state(ButtonState::Released, true), true) == ButtonState::Held,
        next_mouse_state(ButtonState::Released, true) == ButtonState::Pressed,
        next_mouse_state(s, false) == ButtonState::Released,
{
}

/// Panning and scrolling never take the view outside the world.
pub proof fn law_view_stays_inside(v: ViewState, input: crate::input::InputBuffer, scroll: i8)
    requires
        view_inside(v),
    ensures
        view_inside(panned(v, input, scroll)),
{
}

/// Four quarter turns bring the camera back to where it looked from.
pub proof fn law_four_turns(c: Compass)
    ensures
        turned(turned(turned(turned(c)))) == c,
        turned(c) != c,
{
}

/// Blasting two lists of craters one after the other blasts them all at once.
pub proof fn law_craters_compose(cubes: Seq<Cube>, a: Seq<Crater>, b: Seq<Crater>)
    ensures
        carved(carved(cubes, a), b) == carved(cubes, a + b),
{
    assert forall|i: int| 0 <= i < cubes.len() implies carved(carved(cubes, a), b)[i] == carved(
        cubes,
        a + b,
    )[i] by {
        let q = pos_of_index(i);
        if crate::world_generation::in_any_crater(a + b, q) {
            let k = choose|k: int| 0 <= k < (a + b).len() && crate::world_generation::in_crater(#[trigger] (a + b)[k], q);
            if k < a.len() {
                assert((a + b)[k] == a[k]);
            } else {
                assert((a + b)[k] == b[k - a.len()]);
            }
        }
        if crate::world_generation::in_any_crater(a, q) {
            let k = choose|k: int| 0 <= k < a.len() && crate::world_generation::in_crater(#[trigger] a[k], q);
            assert((a + b)[k] == a[k]);
        }
        if crate::world_generation::in_any_crater(b, q) {
            let k = choose|k: int| 0 <= k < b.len() && crate::world_generation::in_crater(#[trigger] b[k], q);
            assert((a + b)[a.len() + k] == b[k]);
        }
    }
    assert(carved(carved(cubes, a), b) =~= carved(cubes, a + b));
}

/// A lantern gives its own cell full light and leaves cubes `MAX_LIGHT_LEVEL` or more steps
/// away as they were.
pub proof fn law_lantern_light(cubes: Seq<Cube>, start: Pos, i: int)
    requires
        in_box(start),
    ensures
        lantern_lit(cubes, start, sidx(start)).light_level == (Light {
            x_level: 220,
            y_level: 245,
            z_level: 255,
        }),
        crate::render::manhattan(pos_of_index(i), start) >= MAX_LIGHT_LEVEL ==> lantern_lit(
            cubes,
            start,
            i,
        ) == cubes[i],
{
    crate::agents::lemma_index_round_trip(start);
}

/// Column `(x, y)` lies inside the world, one step from the column of `p` along x or y.
pub open spec fn next_column(p: Pos, x: int, y: int) -> bool {
    &&& 0 <= x < GRID_WIDTH
    &&& 0 <= y < GRID_WIDTH
    &&& ((x == p.0 - 1 || x == p.0 + 1) && y == p.1) || (x == p.0 && (y == p.1 - 1 || y == p.1 + 1))
}

proof fn lemma_push_some(s: Seq<Pos>, o: Option<Pos>, q: Pos)
    ensures
        push_some(s, o).contains(q) <==> s.contains(q) || o == Some(q),
{
    match o {
        Some(v) => {
            let t = s.push(v);
            if s.contains(q) {
                let i = choose|i: int| 0 <= i < s.len() && s[i] == q;
                assert(t[i] == q);
            }
            if v == q {
                assert(t[s.len() as int] == q);
            }
            if t.contains(q) {
                let i = choose|i: int| 0 <= i < t.len() && t[i] == q;
                if i < s.len() {
                    assert(s[i] == q);
                }
            }
        },
        None => {},
    }
}

proof fn lemma_path_neighbours_are(cubes: Seq<Cube>, p: Pos, q: Pos)
    ensures
        path_neighbours(cubes, p).contains(q) <==> {
            let x = p.0 as int;
            let y = p.1 as int;
            ||| step_to(cubes, p, x - 1, y) == Some(q)
            ||| step_to(cubes, p, x + 1, y) == Some(q)
            ||| step_to(cubes, p, x, y - 1) == Some(q)
            ||| step_to(cubes, p, x, y + 1) == Some(q)
        },
{
    let x = p.0 as int;
    let y = p.1 as int;
    let s1 = push_some(Seq::empty(), step_to(cubes, p, x - 1, y));
    let s2 = push_some(s1, step_to(cubes, p, x + 1, y));
    let s3 = push_some(s2, step_to(cubes, p, x, y - 1));
    lemma_push_some(Seq::empty(), step_to(cubes, p, x - 1, y), q);
    lemma_push_some(s1, step_to(cubes, p, x + 1, y), q);
    lemma_push_some(s2, step_to(cubes, p, x, y - 1), q);
    lemma_push_some(s3, step_to(cubes, p, x, y + 1), q);
}

proof fn lemma_one_step_reaches(cubes: Seq<Cube>, p: Pos, q: Pos)
    requires
        path_neighbours(cubes, p).contains(q),
    ensures
        reachable(cubes, p, q),
{
    let path = seq![q];
    assert(path.last() == q);
    assert(crate::agents::leads_back(cubes, p, path) && path[0] == q);
}

/// A worker steps onto a neighbouring column at its own level when the cell there is empty
/// and the cube beneath it can be stood on.
pub proof fn law_step_along(cubes: Seq<Cube>, p: Pos, x: int, y: int)
    requires
        in_box(p),
        p.2 >= 1,
        next_column(p, x, y),
        cell(cubes, (x as usize, y as usize, p.2)).cube_type == EMPTY_CUBE,
        walkable(cell(cubes, (x as usize, y as usize, (p.2 - 1) as usize))),
    ensures
        path_neighbours(cubes, p).contains((x as usize, y as usize, p.2)),
        reachable(cubes, p, (x as usize, y as usize, p.2)),
{
    lemma_path_neighbours_are(cubes, p, (x as usize, y as usize, p.2));
    lemma_one_step_reaches(cubes, p, (x as usize, y as usize, p.2));
}

/// A worker steps down one level onto a neighbouring column when the cells there at its
/// level and one level below are empty and the cube beneath those can be stood on.
pub proof fn law_step_down(cubes: Seq<Cube>, p: Pos, x: int, y: int)
    requires
        in_box(p),
        p.2 >= 2,
        next_column(p, x, y),
        cell(cubes, (x as usize, y as usize, p.2)).cube_type == EMPTY_CUBE,
        cell(cubes, (x as usize, y as usize, (p.2 - 1) as usize)).cube_type == EMPTY_CUBE,
        walkable(cell(cubes, (x as usize, y as usize, (p.2 - 2) as usize))),
    ensures
        path_neighbours(cubes, p).contains((x as usize, y as usize, (p.2 - 1) as usize)),
        reachable(cubes, p, (x as usize, y as usize, (p.2 - 1) as usize)),
{
    lemma_path_neighbours_are(cubes, p, (x as usize, y as usize, (p.2 - 1) as usize));
    lemma_one_step_reaches(cubes, p, (x as usize, y as usize, (p.2 - 1) as usize));
}

/// A worker climbs one level onto a neighbouring column whose cube at its level can be
/// stood on and has an empty cell above it (below the top level).
pub proof fn law_step_up(cubes: Seq<Cube>, p: Pos, x: int, y: int)
    requires
        in_box(p),
        p.2 + 1 < GRID_HEIGHT,
        next_column(p, x, y),
        walkable(cell(cubes, (x as usize, y as usize, p.2))),
        cell(cubes, (x as usize, y as usize, (p.2 + 1) as usize)).cube_type == EMPTY_CUBE,
    ensures
        path_neighbours(cubes, p).contains((x as usize, y as usize, (p.2 + 1) as usize)),
        reachable(cubes, p, (x as usize, y as usize, (p.2 + 1) as usize)),
{
    lemma_path_neighbours_are(cubes, p, (x as usize, y as usize, (p.2 + 1) as usize));
    lemma_one_step_reaches(cubes, p, (x as usize, y as usize, (p.2 + 1) as usize));
}

/// Every step a worker can take lands in a neighbouring column, at most one level up or
/// down, on an empty cell above the floor whose cube beneath can be stood on.
pub proof fn law_steps_land_on_ground(cubes: Seq<Cube>, p: Pos, q: Pos)
    requires
        in_box(p),
        p.2 >= 1,
        path_neighbours(cubes, p).contains(q),
    ensures
        next_column(p, q.0 as int, q.1 as int),
        q.2 == p.2 || q.2 + 1 == p.2 || q.2 == p.2 + 1,
        q.2 >= 1,
        cell(cubes, q).cube_type == EMPTY_CUBE,
        walkable(cell(cubes, (q.0, q.1, (q.2 - 1) as usize))),
{
    lemma_path_neighbours_are(cubes, p, q);
}

proof fn lemma_below_index(p: Pos)
    requires
        in_box(p),
        p.2 >= 1,
    ensures
        in_box(below(p)),
        sidx(below(p)) == sidx(p) - (GRID_WIDTH * GRID_WIDTH) as int,
        0 <= sidx(below(p)) < sidx(p) < box_len(),
{
    crate::grid::lemma_in_box_index(p);
    crate::grid::lemma_in_box_index(below(p));
}

/// Water over an empty cell falls into it whole, leaving its own cell empty.
pub proof fn law_water_falls(w: WaterWorld, p: Pos)
    requires
        w.cubes.len() == box_len(),
        in_box(p),
        p.2 >= 1,
        cube_of(w, below(p)).cube_type == EMPTY_CUBE,
    ensures
        cube_of(water_step(w, p).0, below(p)) == cube_of(w, p),
        cube_of(water_step(w, p).0, p).cube_type == EMPTY_CUBE,
        cube_of(water_step(w, p).0, p).water_level == cube_of(w, p).water_level,
        !water_step(w, p).1,
{
    lemma_below_index(p);
}

/// Water over water that is not full tops it up without creating or losing any: the cell
/// below gains exactly what the cell above loses. When all of it fits, the cell below holds
/// both and the cell above becomes empty; otherwise the cell below becomes full and the rest
/// stays above.
pub proof fn law_water_tops_up(w: WaterWorld, p: Pos)
    requires
        w.cubes.len() == box_len(),
        in_box(p),
        p.2 >= 1,
        cube_of(w, below(p)).cube_type == WATER_CUBE,
        cube_of(w, below(p)).water_level < FULL_WATER,
    ensures
        ({
            let r = water_step(w, p).0;
            let above = cube_of(w, p).water_level as int;
            let under = cube_of(w, below(p)).water_level as int;
            if above + under > FULL_WATER {
                &&& cube_of(r, below(p)).water_level == FULL_WATER
                &&& cube_of(r, p).water_level + cube_of(r, below(p)).water_level == above + under
                &&& cube_of(r, below(p)).water_level - under == above - cube_of(r, p).water_level
            } else {
                &&& cube_of(r, below(p)).water_level == above + under
                &&& cube_of(r, p).cube_type == EMPTY_CUBE
            }
        }),
        !water_step(w, p).1,
{
    lemma_below_index(p);
}

/// The number of steps between `a` and `b`, one level or one column at a time.
pub open spec fn steps_between(a: Pos, b: Pos) -> int {
    let dx = a.0 - b.0;
    let dy = a.1 - b.1;
    let dz = a.2 - b.2;
    (if dx < 0 { -dx } else { dx }) + (if dy < 0 { -dy } else { dy }) + (if dz < 0 { -dz } else { dz })
}

/// Placing a lantern lights every cube of the world fewer than `MAX_LIGHT_LEVEL` steps away
/// (above, below or beside it alike) with the light of `MAX_LIGHT_LEVEL` minus its distance,
/// and changes nothing else of those cubes; cubes further away keep everything.
pub proof fn law_lantern_lights_around(g: Grid, start: Pos, lantern: Cube, q: Pos)
    requires
        g.is_standard(),
        in_box(start),
        in_box(q),
        lantern.cube_type == LANTERN_CUBE,
    ensures
        ({
            let after = g.cubes_after_place(start, lantern)[sidx(q)];
            let before = if q == start { lantern } else { g.cube_at(q) };
            let d = steps_between(q, start);
            if d < MAX_LIGHT_LEVEL {
                after == Cube { light_level: light_at(MAX_LIGHT_LEVEL - d), ..before }
            } else {
                after == before
            }
        }),
{
    crate::agents::lemma_index_round_trip(q);
    crate::agents::lemma_index_round_trip(start);
    if q != start {
        assert(sidx(q) != sidx(start)) by {
            if sidx(q) == sidx(start) {
                assert(pos_of_index(sidx(q)) == pos_of_index(sidx(start)));
            }
        }
    }
}

/// At night each cube is drawn in its own light: its left faces with the cube's
/// `light_level.x_level`, its right faces with `y_level` and its top with `z_level`.
pub proof fn law_night_cube_light(
    buf: Seq<u32>,
    g: Grid,
    sprites: Seq<Sprite>,
    v: ViewState,
    x: int,
    y: int,
    z: int,
)
    requires
        v.night_mode,
    ensures
        cube_painted(buf, g, sprites, v, x, y, z) == lit_cube_painted(
            buf,
            g,
            sprites,
            v,
            x,
            y,
            z,
            g.cube_at(world_cell(v, x, y, z)).light_level,
        ),
{
}

/// By day every cube is drawn in full light, whatever its own light.
pub proof fn law_day_full_light(
    buf: Seq<u32>,
    g: Grid,
    sprites: Seq<Sprite>,
    v: ViewState,
    x: int,
    y: int,
    z: int,
)
    requires
        !v.night_mode,
    ensures
        cube_painted(buf, g, sprites, v, x, y, z) == lit_cube_painted(
            buf,
            g,
            sprites,
            v,
            x,
            y,
            z,
            Light { x_level: 220, y_level: 245, z_level: 255 },
        ),
{
}

/// A cube in full light looks the same at night as by day.
pub proof fn law_night_as_day_in_full_light(
    buf: Seq<u32>,
    g: Grid,
    sprites: Seq<Sprite>,
    v: ViewState,
    x: int,
    y: int,
    z: int,
)
    requires
        v.night_mode,
        g.cube_at(world_cell(v, x, y, z)).light_level == (Light { x_level: 220, y_level: 245, z_level: 255 }),
    ensures
        cube_painted(buf, g, sprites, v, x, y, z) == cube_painted(
            buf,
            g,
            sprites,
            ViewState { night_mode: false, ..v },
            x,
            y,
            z,
        ),
{
    let day = ViewState { night_mode: false, ..v };
    assert(world_cell(day, x, y, z) == world_cell(v, x, y, z));
}

/// The pixel `p` of the buffer lies in the top face of the tile of cell `(x, y, z)` of the
/// view, where the top sprite of the cube there is not transparent; the top of that cube is
/// not covered.
pub open spec fn top_face_pixel(g: Grid, sprites: Seq<Sprite>, v: ViewState, x: int, y: int, z: int, p: int) -> bool {
    let q = world_cell(v, x, y, z);
    let cube = g.cube_at(q);
    let d = p - tile_base(cell_screen(v.compass, x, y, z));
    let tx = d % (SCREEN_WIDTH as int);
    let ty = d / (SCREEN_WIDTH as int);
    &&& d >= 0
    &&& in_top_face(tx, ty)
    &&& visible(face_sprite(sprites, cube, cube.cube_z_face)[tx + ty * TILE_WIDTH])
    &&& uncovered(g.neighbour(CubeFace::Z, q))
}

/// The sprite pixel drawn at `p` on the top face of the cube in cell `(x, y, z)`, shaded
/// evenly with level `l`.
pub open spec fn top_pixel_shaded(g: Grid, sprites: Seq<Sprite>, v: ViewState, x: int, y: int, z: int, p: int, l: u8) -> u32 {
    let cube = g.cube_at(world_cell(v, x, y, z));
    let d = p - tile_base(cell_screen(v.compass, x, y, z));
    let tx = d % (SCREEN_WIDTH as int);
    let ty = d / (SCREEN_WIDTH as int);
    shaded(face_sprite(sprites, cube, cube.cube_z_face)[tx + ty * TILE_WIDTH], (l, l, l))
}

proof fn lemma_top_face_apart(tx: int, ty: int)
    requires
        in_top_face(tx, ty),
    ensures
        !crate::render::in_left_face(tx, ty),
        !crate::render::in_right_face(tx, ty),
        crate::render::in_tile(tx, ty),
{
}

/// Every pixel of the top face of a cube whose top is not covered ends up shaded with
/// level `l` of the light the faces are drawn with: the left and right faces drawn after it
/// never reach into it.
proof fn lemma_top_pixel(
    buf: Seq<u32>,
    g: Grid,
    sprites: Seq<Sprite>,
    v: ViewState,
    x: int,
    y: int,
    z: int,
    light: Light,
    p: int,
)
    requires
        0 <= p < buf.len(),
        top_face_pixel(g, sprites, v, x, y, z, p),
    ensures
        lit_cube_painted(buf, g, sprites, v, x, y, z, light)[p] == top_pixel_shaded(
            g,
            sprites,
            v,
            x,
            y,
            z,
            p,
            light.z_level,
        ),
{
    let d = p - tile_base(cell_screen(v.compass, x, y, z));
    lemma_top_face_apart(d % (SCREEN_WIDTH as int), d / (SCREEN_WIDTH as int));
}

/// At night the top face of a cube is shaded with the cube's own `light_level.z_level`.
pub proof fn law_night_top_face(
    buf: Seq<u32>,
    g: Grid,
    sprites: Seq<Sprite>,
    v: ViewState,
    x: int,
    y: int,
    z: int,
    p: int,
)
    requires
        v.night_mode,
        0 <= p < buf.len(),
        top_face_pixel(g, sprites, v, x, y, z, p),
    ensures
        cube_painted(buf, g, sprites, v, x, y, z)[p] == top_pixel_shaded(
            g,
            sprites,
            v,
            x,
            y,
            z,
            p,
            g.cube_at(world_cell(v, x, y, z)).light_level.z_level,
        ),
{
    lemma_top_pixel(buf, g, sprites, v, x, y, z, g.cube_at(world_cell(v, x, y, z)).light_level, p);
}

/// By day the top face of every cube is shaded with full light, level 255.
pub proof fn law_day_top_face(
    buf: Seq<u32>,
    g: Grid,
    sprites: Seq<Sprite>,
    v: ViewState,
    x: int,
    y: int,
    z: int,
    p: int,
)
    requires
        !v.night_mode,
        0 <= p < buf.len(),
        top_face_pixel(g, sprites, v, x, y, z, p),
    ensures
        cube_painted(buf, g, sprites, v, x, y, z)[p] == top_pixel_shaded(g, sprites, v, x, y, z, p, 255),
{
    lemma_top_pixel(buf, g, sprites, v, x, y, z, Light { x_level: 220, y_level: 245, z_level: 255 }, p);
}

/// The cube at level `k` of column `(x, y)` is not empty.
pub open spec fn solid_at(cubes: Seq<Cube>, x: usize, y: usize, k: int) -> bool {
    cell(cubes, (x, y, k as usize)).cube_type != EMPTY_CUBE
}

proof fn lemma_spawn_level_upto(cubes: Seq<Cube>, x: usize, y: usize, z: int)
    requires
        -1 <= z < GRID_HEIGHT,
    ensures
        0 <= spawn_level(cubes, x, y, z) < GRID_HEIGHT,
        ({
            let r = spawn_level(cubes, x, y, z);
            &&& forall|k: int| r < k <= z ==> !#[trigger] solid_at(cubes, x, y, k)
            &&& r < GRID_HEIGHT - 1 && r <= z ==> !solid_at(cubes, x, y, r)
            &&& r >= 1 ==> solid_at(cubes, x, y, r - 1) || (r == z && solid_at(cubes, x, y, z))
        }),
    decreases z + 1,
{
    if z >= 0 && !solid_at(cubes, x, y, z) {
        lemma_spawn_level_upto(cubes, x, y, z - 1);
        let r = spawn_level(cubes, x, y, z);
        assert(r == spawn_level(cubes, x, y, z - 1));
        assert forall|k: int| r < k <= z implies !#[trigger] solid_at(cubes, x, y, k) by {
            if k < z {
                assert(r < k <= z - 1);
            }
        }
        if r >= 1 && r == z - 1 && solid_at(cubes, x, y, z - 1) && r < GRID_HEIGHT - 1 {
            assert(!solid_at(cubes, x, y, r));
        }
    }
}

/// A worker is put on the surface of its column: every cube from its level up to the top
/// is empty (but the top one when the column is full to the top, where it is put on the top
/// level), the cube beneath it is not, and it is put on the floor only when the whole
/// column is empty.
pub proof fn law_spawn_on_surface(cubes: Seq<Cube>, x: usize, y: usize)
    ensures
        ({
            let z = spawn_level(cubes, x, y, GRID_HEIGHT - 1);
            &&& 0 <= z < GRID_HEIGHT
            &&& forall|k: int| z < k < GRID_HEIGHT ==> !#[trigger] solid_at(cubes, x, y, k)
            &&& z < GRID_HEIGHT - 1 ==> !solid_at(cubes, x, y, z)
            &&& z >= 1 ==> solid_at(cubes, x, y, z - 1) || (z == GRID_HEIGHT - 1 && solid_at(
                cubes,
                x,
                y,
                z,
            ))
            &&& z == 0 ==> forall|k: int| 0 <= k < GRID_HEIGHT ==> !#[trigger] solid_at(cubes, x, y, k)
        }),
{
    lemma_spawn_level_upto(cubes, x, y, GRID_HEIGHT - 1);
}

} // verus!
