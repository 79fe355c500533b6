//! Workers: how they find their way across the world, and their tasks.

use vstd::prelude::*;
use std::collections::{HashMap, HashSet};
use std::sync::Arc;

use crate::animation::{first_named, has_named, Animation, AnimationPool};
use crate::grid::{
    box_len, find_horizontal_neighbours, horizontal_neighbours, in_box, lemma_in_box_index,
    pos_index, pos_of_index, steppable, walkable, Cube, Grid,
};
use crate::render::Sprite;
use crate::water::sidx;
use crate::{Compass, Pos, EMPTY_CUBE, GRID_HEIGHT, GRID_WIDTH};

verus! {

broadcast use vstd::std_specs::hash::group_hash_axioms;

/// The cube at `p` in a world of the standard size.
pub open spec fn cell(cubes: Seq<Cube>, p: Pos) -> Cube {
    cubes[sidx(p)]
}

/// Where a worker at `p` ends up when it steps towards column `(x, y)`:
/// - onto that column at its own level when the cell is empty and the cube beneath can be
///   stood on;
/// - one level down when that cube is missing too and the one beneath it can be stood on
///   (only from level 2 up);
/// - one level up when the column is blocked at its level by a cube that can be stood on
///   and the cell above it is empty (not from the top level).
/// `None` when the column lies outside the world or none of these applies.
pub open spec fn step_to(cubes: Seq<Cube>, p: Pos, x: int, y: int) -> Option<Pos> {
    if !(0 <= x < GRID_WIDTH && 0 <= y < GRID_WIDTH) {
        None
    } else {
        let xu = x as usize;
        let yu = y as usize;
        let next = (xu, yu, p.2);
        if cell(cubes, next).cube_type == EMPTY_CUBE {
            if walkable(cell(cubes, (xu, yu, (p.2 - 1) as usize))) {
                Some(next)
            } else if p.2 >= 2 && cell(cubes, (xu, yu, (p.2 - 1) as usize)).cube_type
                == EMPTY_CUBE && walkable(cell(cubes, (xu, yu, (p.2 - 2) as usize))) {
                Some((xu, yu, (p.2 - 1) as usize))
            } else {
                None
            }
        } else if p.2 < GRID_HEIGHT - 1 && cell(cubes, (xu, yu, (p.2 + 1) as usize)).cube_type
            == EMPTY_CUBE && walkable(cell(cubes, next)) {
            Some((xu, yu, (p.2 + 1) as usize))
        } else {
            None
        }
    }
}

pub open spec fn push_some(s: Seq<Pos>, o: Option<Pos>) -> Seq<Pos> {
    match o {
        Some(q) => s.push(q),
        None => s,
    }
}

/// The positions a worker at `p` can step to, towards -x, +x, -y and +y in that order.
pub open spec fn path_neighbours(cubes: Seq<Cube>, p: Pos) -> Seq<Pos> {
    let x = p.0 as int;
    let y = p.1 as int;
    push_some(
        push_some(
            push_some(push_some(Seq::empty(), step_to(cubes, p, x - 1, y)), step_to(cubes, p, x + 1, y)),
            step_to(cubes, p, x, y - 1),
        ),
        step_to(cubes, p, x, y + 1),
    )
}

/// The column `(x, y)` lies outside the world or is not empty at level `z`.
pub open spec fn column_blocked(cubes: Seq<Cube>, x: int, y: int, z: usize) -> bool {
    !(0 <= x < GRID_WIDTH && 0 <= y < GRID_WIDTH) || cell(cubes, (x as usize, y as usize, z)).cube_type
        != EMPTY_CUBE
}

/// Looking for steps from `p` never asks for the cell beneath the floor: `p` is above the
/// floor, or no column next to it is empty at its level.
pub open spec fn can_look_down(cubes: Seq<Cube>, p: Pos) -> bool {
    p.2 >= 1 || {
        let x = p.0 as int;
        let y = p.1 as int;
        &&& column_blocked(cubes, x - 1, y, p.2)
        &&& column_blocked(cubes, x + 1, y, p.2)
        &&& column_blocked(cubes, x, y - 1, p.2)
        &&& column_blocked(cubes, x, y + 1, p.2)
    }
}

/// `path` leads from its first position back to `start` one step at a time: each
/// position can be stepped to from the one after it, and the last from `start`.
pub open spec fn leads_back(cubes: Seq<Cube>, start: Pos, path: Seq<Pos>) -> bool {
    &&& path.len() >= 1
    &&& path_neighbours(cubes, start).contains(path.last())
    &&& forall|i: int|
        0 <= i < path.len() - 1 ==> path_neighbours(cubes, path[i + 1]).contains(#[trigger] path[i])
}

/// A worker at `start` can walk to `end` in one or more steps.
pub open spec fn reachable(cubes: Seq<Cube>, start: Pos, end: Pos) -> bool {
    exists|path: Seq<Pos>| leads_back(cubes, start, path) && path[0] == end
}

/// In a world of the standard size, index and position determine each other.
pub proof fn lemma_index_round_trip(p: Pos)
    requires
        in_box(p),
    ensures
        pos_of_index(sidx(p)) == p,
        0 <= sidx(p) < box_len(),
{
    lemma_in_box_index(p);
    assert(sidx(p) == p.0 + p.1 * 300 + p.2 * 90000) by (nonlinear_arith);
    let i = sidx(p);
    assert(i % 300 == p.0 as int) by (nonlinear_arith)
        requires i == p.0 + p.1 * 300 + p.2 * 90000, 0 <= p.0 < 300, p.1 >= 0, p.2 >= 0;
    assert(i / 300 == p.1 + p.2 * 300) by (nonlinear_arith)
        requires i == p.0 + p.1 * 300 + p.2 * 90000, 0 <= p.0 < 300, p.1 >= 0, p.2 >= 0;
    assert((p.1 + p.2 * 300) % 300 == p.1 as int) by (nonlinear_arith)
        requires 0 <= p.1 < 300, p.2 >= 0;
    assert(i / 90000 == p.2 as int) by (nonlinear_arith)
        requires i == p.0 + p.1 * 300 + p.2 * 90000, 0 <= p.0 < 300, 0 <= p.1 < 300, p.2 >= 0;
}

proof fn lemma_index_injective(p: Pos, q: Pos)
    requires
        in_box(p),
        in_box(q),
        sidx(p) == sidx(q),
    ensures
        p == q,
{
    lemma_index_round_trip(p);
    lemma_index_round_trip(q);
}

proof fn lemma_step_to_inside(cubes: Seq<Cube>, p: Pos, x: int, y: int)
    requires
        in_box(p),
        can_look_down(cubes, p),
        (x == p.0 - 1 || x == p.0 + 1) && y == p.1 || x == p.0 && (y == p.1 - 1 || y == p.1 + 1),
    ensures
        step_to(cubes, p, x, y) matches Some(q) ==> in_box(q) && q.2 >= 1 && q != p,
{
}

/// Steps go to other positions inside the world, above the floor.
proof fn lemma_path_neighbours_inside(cubes: Seq<Cube>, p: Pos)
    requires
        in_box(p),
        can_look_down(cubes, p),
    ensures
        path_neighbours(cubes, p).len() <= 4,
        forall|k: int|
            0 <= k < path_neighbours(cubes, p).len() ==> {
                let q = #[trigger] path_neighbours(cubes, p)[k];
                &&& in_box(q)
                &&& q.2 >= 1
                &&& q != p
                &&& can_look_down(cubes, q)
            },
{
    let x = p.0 as int;
    let y = p.1 as int;
    lemma_step_to_inside(cubes, p, x - 1, y);
    lemma_step_to_inside(cubes, p, x + 1, y);
    lemma_step_to_inside(cubes, p, x, y - 1);
    lemma_step_to_inside(cubes, p, x, y + 1);
    let s1 = push_some(Seq::empty(), step_to(cubes, p, x - 1, y));
    let s2 = push_some(s1, step_to(cubes, p, x + 1, y));
    let s3 = push_some(s2, step_to(cubes, p, x, y - 1));
    let s4 = push_some(s3, step_to(cubes, p, x, y + 1));
    assert(forall|k: int| 0 <= k < s1.len() ==> in_box(#[trigger] s1[k]) && s1[k].2 >= 1 && s1[k] != p);
    assert(forall|k: int| 0 <= k < s2.len() ==> in_box(#[trigger] s2[k]) && s2[k].2 >= 1 && s2[k] != p);
    assert(forall|k: int| 0 <= k < s3.len() ==> in_box(#[trigger] s3[k]) && s3[k].2 >= 1 && s3[k] != p);
    assert(forall|k: int| 0 <= k < s4.len() ==> in_box(#[trigger] s4[k]) && s4[k].2 >= 1 && s4[k] != p);
}

fn column_cube(grid: &Grid, x: usize, y: usize, z: usize) -> (c: Cube)
    requires
        grid.is_layered(),
        in_box((x, y, z)),
        z < grid.height,
    ensures
        c == cell(grid.grid@, (x, y, z)),
{
    let i = grid.index_in_layers((x, y, z));
    grid.grid[i]
}

/// A worker at `p` looks only at cells of a grid with `h` levels: `p` lies on one of them,
/// and so does the level above it unless `p` is on the top level of the world.
pub open spec fn stands_within(p: Pos, h: int) -> bool {
    p.2 < h && (p.2 + 1 < h || p.2 + 1 >= GRID_HEIGHT)
}

/// Every position a worker at `start` stands on while looking for a way, `start` and all
/// it can reach, lies within a grid of `h` levels.
pub open spec fn search_fits(cubes: Seq<Cube>, h: int, start: Pos) -> bool {
    &&& stands_within(start, h)
    &&& forall|q: Pos| #[trigger] reachable(cubes, start, q) ==> stands_within(q, h)
}

/// In a grid of the standard size, the search from any position inside the world fits.
pub proof fn lemma_standard_search_fits(g: Grid, start: Pos)
    requires
        g.is_standard(),
        in_box(start),
        can_look_down(g.grid@, start),
    ensures
        g.is_layered(),
        search_fits(g.grid@, g.height as int, start),
{
    assert forall|q: Pos| #[trigger] reachable(g.grid@, start, q) implies stands_within(q, g.height as int) by {
        let path = choose|path: Seq<Pos>| leads_back(g.grid@, start, path) && path[0] == q;
        lemma_walk_inside(g.grid@, start, path, 0);
    }
}

/// One step from `start` or from a position reached from it reaches another.
proof fn lemma_reach_step(cubes: Seq<Cube>, start: Pos, p: Pos, q: Pos)
    requires
        p == start || reachable(cubes, start, p),
        path_neighbours(cubes, p).contains(q),
    ensures
        reachable(cubes, start, q),
{
    if p == start {
        assert(leads_back(cubes, start, seq![q]) && seq![q][0] == q);
    } else {
        let w = choose|path: Seq<Pos>| leads_back(cubes, start, path) && path[0] == p;
        let path = seq![q] + w;
        assert forall|k: int| 0 <= k < path.len() - 1 implies path_neighbours(cubes, path[k + 1]).contains(
            #[trigger] path[k],
        ) by {
            if k >= 1 {
                assert(path[k] == w[k - 1] && path[k + 1] == w[k]);
            }
        }
        assert(path.last() == w.last());
        assert(leads_back(cubes, start, path) && path[0] == q);
    }
}

fn step_towards(grid: &Grid, position: Pos, x: i32, y: i32) -> (r: Option<Pos>)
    requires
        grid.is_layered(),
        in_box(position),
        stands_within(position, grid.height as int),
        0 <= x + 1 <= GRID_WIDTH + 1,
        0 <= y + 1 <= GRID_WIDTH + 1,
        !column_blocked(grid.grid@, x as int, y as int, position.2) ==> position.2 >= 1,
    ensures
        r == step_to(grid.grid@, position, x as int, y as int),
{
    if x < 0 || x > GRID_WIDTH as i32 - 1 || y < 0 || y > GRID_WIDTH as i32 - 1 {
        return None;
    }
    let next = (x as usize, y as usize, position.2);
    if column_cube(grid, next.0, next.1, next.2).cube_type == EMPTY_CUBE {
        if column_cube(grid, next.0, next.1, next.2 - 1).is_walkable() {
            Some(next)
        } else if position.2 >= 2 && column_cube(grid, next.0, next.1, next.2 - 1).cube_type
            == EMPTY_CUBE && column_cube(grid, next.0, next.1, next.2 - 2).is_walkable() {
            Some((next.0, next.1, next.2 - 1))
        } else {
            None
        }
    } else if position.2 < GRID_HEIGHT - 1 && column_cube(grid, next.0, next.1, next.2 + 1).cube_type
        == EMPTY_CUBE && column_cube(grid, next.0, next.1, next.2).is_walkable() {
        Some((next.0, next.1, next.2 + 1))
    } else {
        None
    }
}

fn get_neighbours(position: Pos, grid: &Grid) -> (r: Vec<Pos>)
    requires
        grid.is_layered(),
        in_box(position),
        stands_within(position, grid.height as int),
        can_look_down(grid.grid@, position),
    ensures
        r@ == path_neighbours(grid.grid@, position),
{
    let mut neighbours: Vec<Pos> = Vec::new();
    let x = position.0 as i32;
    let y = position.1 as i32;
    if let Some(p) = step_towards(grid, position, x - 1, y) {
        neighbours.push(p);
    }
    if let Some(p) = step_towards(grid, position, x + 1, y) {
        neighbours.push(p);
    }
    if let Some(p) = step_towards(grid, position, x, y - 1) {
        neighbours.push(p);
    }
    if let Some(p) = step_towards(grid, position, x, y + 1) {
        neighbours.push(p);
    }
    neighbours
}

/// Largest coordinate of a destination that the squared distance to it fits in 32 bits.
pub const MAX_DESTINATION_COORD: usize = 32767;

/// The squared straight-line distance between two positions.
pub open spec fn squared_distance(a: Pos, b: Pos) -> int {
    (b.0 - a.0) * (b.0 - a.0) + (b.1 - a.1) * (b.1 - a.1) + (b.2 - a.2) * (b.2 - a.2)
}

fn square_diff(a: usize, b: usize) -> (r: u32)
    requires
        a <= MAX_DESTINATION_COORD,
        b <= MAX_DESTINATION_COORD,
    ensures
        r == (b - a) * (b - a),
        r <= MAX_DESTINATION_COORD * MAX_DESTINATION_COORD,
{
    let d: i32 = b as i32 - a as i32;
    assert(d * d <= 32767 * 32767) by (nonlinear_arith)
        requires -32767 <= d <= 32767;
    assert(d * d >= 0) by (nonlinear_arith);
    (d * d) as u32
}

fn distance(start: Pos, end: Pos) -> (d: u32)
    requires
        start.0 <= MAX_DESTINATION_COORD,
        start.1 <= MAX_DESTINATION_COORD,
        start.2 <= MAX_DESTINATION_COORD,
        end.0 <= MAX_DESTINATION_COORD,
        end.1 <= MAX_DESTINATION_COORD,
        end.2 <= MAX_DESTINATION_COORD,
    ensures
        d == squared_distance(start, end),
        d <= 3 * MAX_DESTINATION_COORD * MAX_DESTINATION_COORD,
{
    let x = square_diff(start.0, end.0);
    let y = square_diff(start.1, end.1);
    let z = square_diff(start.2, end.2);
    x + y + z
}

/// A node of the search: a position reached, how it was reached (`parent`, an index into
/// the search's arena), the steps taken (`g`), the estimate of what remains (`h`) and their
/// sum `f`.
#[derive(Clone, Copy)]
struct Node {
    h: u32,
    f: u32,
    g: u32,
    parent: Option<usize>,
    position: Pos,
}

/// The nodes form a tree rooted at `start` (index 0): every other node was reached by one
/// step from an earlier node.
#[verifier::opaque]
spec fn tree_wf(cubes: Seq<Cube>, arena: Seq<Node>, start: Pos) -> bool {
    &&& arena.len() >= 1
    &&& arena[0].position == start
    &&& arena[0].parent is None
    &&& forall|i: int|
        1 <= i < arena.len() ==> ((#[trigger] arena[i]).parent matches Some(j) && j < i
            && path_neighbours(cubes, arena[j as int].position).contains(arena[i].position))
}

proof fn lemma_tree_node(cubes: Seq<Cube>, arena: Seq<Node>, start: Pos, i: int)
    requires
        tree_wf(cubes, arena, start),
        0 <= i < arena.len(),
    ensures
        arena.len() >= 1,
        i == 0 ==> arena[0].position == start && arena[0].parent is None,
        i >= 1 ==> (arena[i].parent matches Some(j) && j < i && path_neighbours(
            cubes,
            arena[j as int].position,
        ).contains(arena[i].position)),
{
    reveal(tree_wf);
}

proof fn lemma_tree_start(cubes: Seq<Cube>, root: Node, start: Pos)
    requires
        root.position == start,
        root.parent is None,
    ensures
        tree_wf(cubes, seq![root], start),
{
    reveal(tree_wf);
}

proof fn lemma_tree_push(cubes: Seq<Cube>, arena: Seq<Node>, start: Pos, node: Node)
    requires
        tree_wf(cubes, arena, start),
        node.parent matches Some(j) && j < arena.len() && path_neighbours(
            cubes,
            arena[j as int].position,
        ).contains(node.position),
    ensures
        tree_wf(cubes, arena.push(node), start),
{
    reveal(tree_wf);
    let a2 = arena.push(node);
    assert forall|i: int| 1 <= i < a2.len() implies ((#[trigger] a2[i]).parent matches Some(j) && j < i
        && path_neighbours(cubes, a2[j as int].position).contains(a2[i].position)) by {
        if i < arena.len() {
            assert(a2[i] == arena[i]);
        }
    }
}

/// The positions from node `i` up the tree to its root, `i`'s own first.
spec fn chain(arena: Seq<Node>, i: int) -> Seq<Pos>
    decreases i,
{
    if 0 <= i < arena.len() {
        match arena[i].parent {
            Some(j) => if 0 <= j < i {
                seq![arena[i].position] + chain(arena, j as int)
            } else {
                seq![arena[i].position]
            },
            None => seq![arena[i].position],
        }
    } else {
        Seq::empty()
    }
}

/// Adding a node leaves the chains of the others as they were.
proof fn lemma_chain_push(arena: Seq<Node>, node: Node, i: int)
    requires
        0 <= i < arena.len(),
    ensures
        chain(arena.push(node), i) == chain(arena, i),
    decreases i,
{
    let a2 = arena.push(node);
    assert(a2[i] == arena[i]);
    match arena[i].parent {
        Some(j) => if 0 <= j < i {
            lemma_chain_push(arena, node, j as int);
        },
        None => {},
    }
}

/// In a tree rooted at `start`, the chain of a node starts at it, ends at `start`, and
/// without the root leads back to `start` step by step.
proof fn lemma_chain_walk(cubes: Seq<Cube>, arena: Seq<Node>, start: Pos, i: int)
    requires
        tree_wf(cubes, arena, start),
        0 <= i < arena.len(),
    ensures
        chain(arena, i).len() >= 1,
        chain(arena, i)[0] == arena[i].position,
        chain(arena, i).last() == start,
        i >= 1 ==> leads_back(cubes, start, chain(arena, i).drop_last()),
    decreases i,
{
    lemma_tree_node(cubes, arena, start, i);
    if i >= 1 {
        let j = arena[i].parent->0 as int;
        lemma_chain_walk(cubes, arena, start, j);
        let c = chain(arena, i);
        let cj = chain(arena, j);
        assert(c == seq![arena[i].position] + cj);
        let path = c.drop_last();
        if j == 0 {
            lemma_tree_node(cubes, arena, start, 0);
            assert(path =~= seq![arena[i].position]);
        } else {
            let pj = cj.drop_last();
            assert(path =~= seq![arena[i].position] + pj);
            assert(pj[0] == arena[j].position);
            assert forall|k: int| 0 <= k < path.len() - 1 implies path_neighbours(
                cubes,
                path[k + 1],
            ).contains(#[trigger] path[k]) by {
                if k >= 1 {
                    assert(path[k] == pj[k - 1] && path[k + 1] == pj[k]);
                }
            }
            assert(path.last() == pj.last());
        }
    }
}

/// Every chain repeats no position, and every node of a chain above its first is closed or
/// is `cur`.
#[verifier::opaque]
spec fn chains_simple(arena: Seq<Node>, closed: Set<usize>, cur: Option<Pos>) -> bool {
    forall|i: int|
        0 <= i < arena.len() ==> {
            &&& (#[trigger] chain(arena, i)).no_duplicates()
            &&& forall|t: int|
                1 <= t < chain(arena, i).len() ==> closed.contains(sidx(chain(arena, i)[t]) as usize)
                    || cur == Some(chain(arena, i)[t])
        }
}

proof fn lemma_simple_start(root: Node)
    requires
        root.parent is None,
    ensures
        chains_simple(seq![root], Set::empty(), None),
{
    reveal(chains_simple);
    assert(chain(seq![root], 0) =~= seq![root.position]);
}

proof fn lemma_simple_widen(arena: Seq<Node>, closed: Set<usize>, p: Pos)
    requires
        chains_simple(arena, closed, None),
    ensures
        chains_simple(arena, closed, Some(p)),
{
    reveal(chains_simple);
}

proof fn lemma_simple_close(arena: Seq<Node>, closed: Set<usize>, p: Pos)
    requires
        chains_simple(arena, closed, Some(p)),
    ensures
        chains_simple(arena, closed.insert(sidx(p) as usize), None),
{
    reveal(chains_simple);
}

/// A node reached from `cur` (node `c`) at a position that is neither closed nor `cur`
/// keeps every chain simple.
proof fn lemma_simple_push(
    cubes: Seq<Cube>,
    arena: Seq<Node>,
    start: Pos,
    closed: Set<usize>,
    c: int,
    node: Node,
)
    requires
        tree_wf(cubes, arena, start),
        chains_simple(arena, closed, Some(arena[c].position)),
        0 <= c < arena.len(),
        c <= usize::MAX,
        node.parent == Some(c as usize),
        !closed.contains(sidx(node.position) as usize),
        node.position != arena[c].position,
    ensures
        chains_simple(arena.push(node), closed, Some(arena[c].position)),
{
    reveal(chains_simple);
    let a2 = arena.push(node);
    let cur = Some(arena[c].position);
    lemma_chain_walk(cubes, arena, start, c);
    assert forall|i: int| 0 <= i < a2.len() implies {
        &&& (#[trigger] chain(a2, i)).no_duplicates()
        &&& forall|t: int|
            1 <= t < chain(a2, i).len() ==> closed.contains(sidx(chain(a2, i)[t]) as usize)
                || cur == Some(chain(a2, i)[t])
    } by {
        if i < arena.len() {
            lemma_chain_push(arena, node, i);
        } else {
            lemma_chain_push(arena, node, c);
            let cc = chain(arena, c);
            assert(i == arena.len());
            assert(a2[i] == node);
            assert(chain(a2, c) == cc);
            assert(chain(a2, i) == seq![node.position] + cc);
            assert forall|t: int| 0 <= t < cc.len() implies cc[t] != node.position by {
                if t >= 1 {
                    assert(closed.contains(sidx(cc[t]) as usize) || cur == Some(cc[t]));
                }
            }
            assert forall|x: int, y: int| 0 <= x < y < chain(a2, i).len() implies chain(a2, i)[x]
                != chain(a2, i)[y] by {
                if x == 0 {
                    assert(chain(a2, i)[y] == cc[y - 1]);
                } else {
                    assert(chain(a2, i)[x] == cc[x - 1] && chain(a2, i)[y] == cc[y - 1]);
                }
            }
            assert forall|t: int| 1 <= t < chain(a2, i).len() implies closed.contains(
                sidx(chain(a2, i)[t]) as usize,
            ) || cur == Some(chain(a2, i)[t]) by {
                assert(chain(a2, i)[t] == cc[t - 1]);
                if t >= 2 {
                    assert(closed.contains(sidx(cc[t - 1]) as usize) || cur == Some(cc[t - 1]));
                }
            }
        }
    }
}

/// Every node of the tree stands at `start` or at a position reached from it.
proof fn lemma_node_reached(cubes: Seq<Cube>, arena: Seq<Node>, start: Pos, i: int)
    requires
        tree_wf(cubes, arena, start),
        0 <= i < arena.len(),
    ensures
        arena[i].position == start || reachable(cubes, start, arena[i].position),
{
    lemma_tree_node(cubes, arena, start, i);
    if i >= 1 {
        let j = arena[i].parent->0 as int;
        lemma_chain_walk(cubes, arena, start, i);
        lemma_chain_walk(cubes, arena, start, j);
        assert(chain(arena, i) == seq![arena[i].position] + chain(arena, j));
        let path = chain(arena, i).drop_last();
        assert(path[0] == arena[i].position);
        assert(leads_back(cubes, start, path) && path[0] == arena[i].position);
    }
}

/// A simple chain, with its root dropped, repeats no position and leaves its root out.
proof fn lemma_simple_path(arena: Seq<Node>, closed: Set<usize>, cur: Option<Pos>, i: int)
    requires
        chains_simple(arena, closed, cur),
        0 <= i < arena.len(),
        chain(arena, i).len() >= 1,
    ensures
        chain(arena, i).drop_last().no_duplicates(),
        !chain(arena, i).drop_last().contains(chain(arena, i).last()),
{
    reveal(chains_simple);
    let c = chain(arena, i);
    let d = c.drop_last();
    assert forall|x: int, y: int| 0 <= x < y < d.len() implies d[x] != d[y] by {
        assert(d[x] == c[x] && d[y] == c[y]);
    }
    if d.contains(c.last()) {
        let k = choose|k: int| 0 <= k < d.len() && d[k] == c.last();
        assert(c[k] == c[c.len() - 1]);
    }
}

/// The positions from node `end` up the tree, leaving out the root: empty for the root
/// itself.
fn reconstruct_path(arena: &Vec<Node>, end: usize, Ghost(cubes): Ghost<Seq<Cube>>, Ghost(start): Ghost<Pos>) -> (path: Vec<Pos>)
    requires
        tree_wf(cubes, arena@, start),
        end < arena@.len(),
    ensures
        path@ == chain(arena@, end as int).drop_last(),
{
    let mut path: Vec<Pos> = Vec::new();
    let mut current: Option<usize> = Some(end);
    while current.is_some()
        invariant
            tree_wf(cubes, arena@, start),
            end < arena@.len(),
            current matches Some(i) ==> i < arena@.len() && path@ + chain(arena@, i as int) == chain(arena@, end as int),
            current is None ==> path@ == chain(arena@, end as int),
        decreases
            match current {
                Some(i) => i + 1,
                None => 0,
            },
    {
        let i = current.unwrap();
        let node = arena[i];
        proof {
            lemma_tree_node(cubes, arena@, start, i as int);
        }
        let ghost before = path@;
        path.push(node.position);
        proof {
            match node.parent {
                Some(j) => {
                    assert(chain(arena@, i as int) == seq![node.position] + chain(arena@, j as int));
                    assert(path@ + chain(arena@, j as int) =~= before + chain(arena@, i as int));
                },
                None => {
                    assert(chain(arena@, i as int) == seq![node.position]);
                    assert(path@ =~= before + chain(arena@, i as int));
                },
            }
        }
        current = node.parent;
    }
    let ghost full = path@;
    proof {
        lemma_chain_walk(cubes, arena@, start, end as int);
    }
    path.remove(path.len() - 1);
    assert(path@ =~= full.drop_last());
    path
}

/// Node `a` comes out of the open list before node `b`: smaller `f`, then smaller `h`.
spec fn ranks_first(a: Node, b: Node) -> bool {
    a.f < b.f || (a.f == b.f && a.h <= b.h)
}

/// The entry of `open` whose node ranks first (the earliest among equals).
fn best_open(open: &Vec<usize>, arena: &Vec<Node>) -> (b: usize)
    requires
        open@.len() > 0,
        forall|j: int| 0 <= j < open@.len() ==> open@[j] < arena@.len(),
    ensures
        b < open@.len(),
        forall|j: int|
            0 <= j < open@.len() ==> ranks_first(arena@[open@[b as int] as int], arena@[open@[j] as int]),
{
    let mut best: usize = 0;
    let mut j: usize = 1;
    while j < open.len()
        invariant
            open@.len() > 0,
            forall|k: int| 0 <= k < open@.len() ==> open@[k] < arena@.len(),
            best < j <= open@.len(),
            forall|k: int|
                0 <= k < j ==> ranks_first(arena@[open@[best as int] as int], arena@[open@[k] as int]),
        decreases open@.len() - j,
    {
        let candidate = arena[open[j]];
        let current = arena[open[best]];
        if candidate.f < current.f || (candidate.f == current.f && candidate.h < current.h) {
            best = j;
        }
        j = j + 1;
    }
    best
}

/// Every node of the search lies inside the world, away from `end` (the root aside), and is
/// recorded as discovered; `nodes` maps the index of each discovered position to its first
/// node; closed positions are the root or discovered, and every step from a closed position
/// leads to a closed or discovered one.
#[verifier::opaque]
spec fn search_frame(
    cubes: Seq<Cube>,
    start: Pos,
    end: Pos,
    arena: Seq<Node>,
    closed: Set<usize>,
    nodes: Map<usize, usize>,
) -> bool {
    &&& forall|i: int|
        0 <= i < arena.len() ==> in_box((#[trigger] arena[i]).position) && can_look_down(
            cubes,
            arena[i].position,
        )
    &&& forall|i: int|
        1 <= i < arena.len() ==> (#[trigger] arena[i]).position != end && nodes.contains_key(
            sidx(arena[i].position) as usize,
        )
    &&& forall|k: usize|
        #[trigger] nodes.contains_key(k) ==> 1 <= nodes[k] < arena.len() && sidx(
            arena[nodes[k] as int].position,
        ) == k
    &&& forall|k: usize| #[trigger] closed.contains(k) ==> k < box_len()
    &&& forall|k: usize| #[trigger]
        closed.contains(k) ==> k == sidx(start) || nodes.contains_key(k)
    &&& forall|k: usize, t: int|
        #![trigger closed.contains(k), path_neighbours(cubes, pos_of_index(k as int))[t]]
        closed.contains(k) && 0 <= t < path_neighbours(cubes, pos_of_index(k as int)).len() ==> {
            let q = path_neighbours(cubes, pos_of_index(k as int))[t];
            closed.contains(sidx(q) as usize) || nodes.contains_key(sidx(q) as usize)
        }
}

/// Every position that is discovered (or the root) and not closed, other than `skip`, has
/// a node in the open list.
#[verifier::opaque]
spec fn pending_covered(
    start: Pos,
    arena: Seq<Node>,
    open: Seq<usize>,
    closed: Set<usize>,
    nodes: Map<usize, usize>,
    skip: int,
) -> bool {
    forall|k: usize|
        (#[trigger] nodes.contains_key(k) || k == sidx(start)) && !closed.contains(k) && k != skip
            ==> exists|j: int| 0 <= j < open.len() && sidx(arena[open[j] as int].position) == k
}

proof fn lemma_search_start(cubes: Seq<Cube>, start: Pos, end: Pos, root: Node)
    requires
        in_box(start),
        can_look_down(cubes, start),
        root.position == start,
        root.parent is None,
    ensures
        search_frame(cubes, start, end, seq![root], Set::empty(), Map::empty()),
        pending_covered(start, seq![root], seq![0usize], Set::empty(), Map::empty(), -1),
{
    reveal(search_frame);
    reveal(pending_covered);
    lemma_index_round_trip(start);
    assert forall|k: usize|
        (#[trigger] Map::<usize, usize>::empty().contains_key(k) || k == sidx(start))
            && !Set::<usize>::empty().contains(k) && k != -1 implies exists|j: int|
        0 <= j < seq![0usize].len() && sidx(seq![root][seq![0usize][j] as int].position) == k by {
        assert(seq![0usize][0] == 0usize);
        assert(sidx(seq![root][0].position) == k);
    }
}

proof fn lemma_frame_facts(
    cubes: Seq<Cube>,
    start: Pos,
    end: Pos,
    arena: Seq<Node>,
    closed: Set<usize>,
    nodes: Map<usize, usize>,
)
    requires
        search_frame(cubes, start, end, arena, closed, nodes),
    ensures
        forall|i: int|
            0 <= i < arena.len() ==> in_box((#[trigger] arena[i]).position) && can_look_down(
                cubes,
                arena[i].position,
            ),
        forall|i: int| 1 <= i < arena.len() ==> (#[trigger] arena[i]).position != end,
        forall|i: int|
            1 <= i < arena.len() ==> nodes.contains_key(sidx((#[trigger] arena[i]).position) as usize),
        forall|k: usize| #[trigger] closed.contains(k) ==> k < box_len(),
{
    reveal(search_frame);
}

/// A discovered position inside the world is not `end`.
proof fn lemma_discovered_not_end(
    cubes: Seq<Cube>,
    start: Pos,
    end: Pos,
    arena: Seq<Node>,
    closed: Set<usize>,
    nodes: Map<usize, usize>,
    q: Pos,
)
    requires
        search_frame(cubes, start, end, arena, closed, nodes),
        in_box(q),
        nodes.contains_key(sidx(q) as usize),
    ensures
        q != end,
        1 <= nodes[sidx(q) as usize] < arena.len(),
{
    reveal(search_frame);
    lemma_index_round_trip(q);
    let k = nodes[sidx(q) as usize];
    lemma_index_injective(arena[k as int].position, q);
}

proof fn lemma_pending_witness(
    start: Pos,
    arena: Seq<Node>,
    open: Seq<usize>,
    closed: Set<usize>,
    nodes: Map<usize, usize>,
    skip: int,
    k: usize,
) -> (j: int)
    requires
        pending_covered(start, arena, open, closed, nodes, skip),
        nodes.contains_key(k) || k == sidx(start),
        !closed.contains(k),
        k != skip,
    ensures
        0 <= j < open.len(),
        sidx(arena[open[j] as int].position) == k,
{
    reveal(pending_covered);
    assert(nodes.contains_key(k) || k == sidx(start));
    choose|j: int| 0 <= j < open.len() && sidx(arena[open[j] as int].position) == k
}

/// Taking entry `b` out of the open list (by `swap_remove`) leaves every other pending
/// position covered, and all of them when its position is already closed.
#[verifier::spinoff_prover]
proof fn lemma_take_open(
    start: Pos,
    arena: Seq<Node>,
    open: Seq<usize>,
    closed: Set<usize>,
    nodes: Map<usize, usize>,
    b: int,
    ci: usize,
)
    requires
        pending_covered(start, arena, open, closed, nodes, -1),
        0 <= b < open.len(),
        forall|j: int| 0 <= j < open.len() ==> open[j] < arena.len(),
        sidx(arena[open[b] as int].position) == ci,
    ensures
        pending_covered(start, arena, open.update(b, open.last()).drop_last(), closed, nodes, ci as int),
        closed.contains(ci) ==> pending_covered(
            start,
            arena,
            open.update(b, open.last()).drop_last(),
            closed,
            nodes,
            -1,
        ),
{
    reveal(pending_covered);
    let after = open.update(b, open.last()).drop_last();
    assert forall|k: usize|
        (#[trigger] nodes.contains_key(k) || k == sidx(start)) && !closed.contains(k) && k != ci
            implies exists|j: int| 0 <= j < after.len() && sidx(arena[after[j] as int].position) == k by {
        let j = lemma_pending_witness(start, arena, open, closed, nodes, -1, k);
        assert(j != b);
        if j == open.len() - 1 {
            assert(after[b] == open[j]);
        } else {
            assert(after[j] == open[j]);
        }
    }
    if closed.contains(ci) {
        assert forall|k: usize|
            (#[trigger] nodes.contains_key(k) || k == sidx(start)) && !closed.contains(k) && k != -1
                implies exists|j: int| 0 <= j < after.len() && sidx(arena[after[j] as int].position) == k by {
            let j = lemma_pending_witness(start, arena, open, closed, nodes, -1, k);
            assert(j != b);
            if j == open.len() - 1 {
                assert(after[b] == open[j]);
            } else {
                assert(after[j] == open[j]);
            }
        }
    }
}

/// A new node in the open list covers its own position.
proof fn lemma_pending_push(
    start: Pos,
    arena: Seq<Node>,
    open: Seq<usize>,
    closed: Set<usize>,
    nodes: Map<usize, usize>,
    ci: usize,
    node: Node,
    nodes2: Map<usize, usize>,
)
    requires
        pending_covered(start, arena, open, closed, nodes, ci as int),
        arena.len() < usize::MAX,
        in_box(node.position),
        forall|j: int| 0 <= j < open.len() ==> open[j] < arena.len(),
        nodes2 == nodes || nodes2 == nodes.insert(sidx(node.position) as usize, arena.len() as usize),
    ensures
        pending_covered(start, arena.push(node), open.push(arena.len() as usize), closed, nodes2, ci as int),
{
    reveal(pending_covered);
    let a2 = arena.push(node);
    let o2 = open.push(arena.len() as usize);
    assert forall|k: usize|
        (#[trigger] nodes2.contains_key(k) || k == sidx(start)) && !closed.contains(k) && k != ci
            implies exists|j: int| 0 <= j < o2.len() && sidx(a2[o2[j] as int].position) == k by {
        if !nodes.contains_key(k) && k != sidx(start) {
            lemma_index_round_trip(node.position);
            assert(k == sidx(node.position));
            assert(o2[open.len() as int] == arena.len());
            assert(a2[arena.len() as int] == node);
            assert(sidx(a2[o2[open.len() as int] as int].position) == k);
        } else {
            let j = lemma_pending_witness(start, arena, open, closed, nodes, ci as int, k);
            assert(o2[j] == open[j]);
            assert(a2[open[j] as int] == arena[open[j] as int]);
        }
    }
}

/// A node for a position found for the first time keeps the search frame.
#[verifier::rlimit(40)]
proof fn lemma_discover(
    cubes: Seq<Cube>,
    start: Pos,
    end: Pos,
    arena: Seq<Node>,
    closed: Set<usize>,
    nodes: Map<usize, usize>,
    node: Node,
)
    requires
        search_frame(cubes, start, end, arena, closed, nodes),
        1 <= arena.len() < usize::MAX,
        in_box(node.position),
        can_look_down(cubes, node.position),
        node.position != end,
        !nodes.contains_key(sidx(node.position) as usize),
    ensures
        search_frame(
            cubes,
            start,
            end,
            arena.push(node),
            closed,
            nodes.insert(sidx(node.position) as usize, arena.len() as usize),
        ),
{
    reveal(search_frame);
    let a2 = arena.push(node);
    let ni = sidx(node.position) as usize;
    let n2 = nodes.insert(ni, arena.len() as usize);
    lemma_index_round_trip(node.position);
    assert forall|k: usize| #[trigger] n2.contains_key(k) implies 1 <= n2[k] < a2.len() && sidx(
        a2[n2[k] as int].position,
    ) == k by {
        if k != ni {
            assert(a2[nodes[k] as int] == arena[nodes[k] as int]);
        }
    }
    assert forall|i: int|
        1 <= i < a2.len() implies (#[trigger] a2[i]).position != end && n2.contains_key(
            sidx(a2[i].position) as usize,
        ) by {
        if i < arena.len() {
            assert(a2[i] == arena[i]);
        }
    }
    assert forall|i: int|
        0 <= i < a2.len() implies in_box((#[trigger] a2[i]).position) && can_look_down(
            cubes,
            a2[i].position,
        ) by {
        if i < arena.len() {
            assert(a2[i] == arena[i]);
        }
    }
}

/// Another node for a position already discovered keeps the search frame.
#[verifier::rlimit(40)]
proof fn lemma_improve(
    cubes: Seq<Cube>,
    start: Pos,
    end: Pos,
    arena: Seq<Node>,
    closed: Set<usize>,
    nodes: Map<usize, usize>,
    node: Node,
)
    requires
        search_frame(cubes, start, end, arena, closed, nodes),
        in_box(node.position),
        can_look_down(cubes, node.position),
        nodes.contains_key(sidx(node.position) as usize),
    ensures
        search_frame(cubes, start, end, arena.push(node), closed, nodes),
{
    lemma_discovered_not_end(cubes, start, end, arena, closed, nodes, node.position);
    reveal(search_frame);
    let a2 = arena.push(node);
    assert forall|k: usize| #[trigger] nodes.contains_key(k) implies 1 <= nodes[k] < a2.len() && sidx(
        a2[nodes[k] as int].position,
    ) == k by {
        assert(a2[nodes[k] as int] == arena[nodes[k] as int]);
    }
    assert forall|i: int|
        1 <= i < a2.len() implies (#[trigger] a2[i]).position != end && nodes.contains_key(
            sidx(a2[i].position) as usize,
        ) by {
        if i < arena.len() {
            assert(a2[i] == arena[i]);
        }
    }
    assert forall|i: int|
        0 <= i < a2.len() implies in_box((#[trigger] a2[i]).position) && can_look_down(
            cubes,
            a2[i].position,
        ) by {
        if i < arena.len() {
            assert(a2[i] == arena[i]);
        }
    }
}

/// Once every step from the current position leads to a closed or discovered position,
/// the current position is closed.
proof fn lemma_close(
    cubes: Seq<Cube>,
    start: Pos,
    end: Pos,
    arena: Seq<Node>,
    open: Seq<usize>,
    closed: Set<usize>,
    nodes: Map<usize, usize>,
    ci: usize,
    cur: int,
)
    requires
        search_frame(cubes, start, end, arena, closed, nodes),
        pending_covered(start, arena, open, closed, nodes, ci as int),
        0 <= cur < arena.len(),
        ci == sidx(arena[cur].position),
        cur == 0 ==> arena[cur].position == start,
        cur != 0 ==> nodes.contains_key(ci),
        forall|s: int|
            0 <= s < path_neighbours(cubes, arena[cur].position).len() ==> closed.contains(
                sidx(#[trigger] path_neighbours(cubes, arena[cur].position)[s]) as usize,
            ) || nodes.contains_key(sidx(path_neighbours(cubes, arena[cur].position)[s]) as usize),
    ensures
        search_frame(cubes, start, end, arena, closed.insert(ci), nodes),
        pending_covered(start, arena, open, closed.insert(ci), nodes, -1),
{
    reveal(search_frame);
    reveal(pending_covered);
    let c = arena[cur].position;
    lemma_index_round_trip(c);
    let c2 = closed.insert(ci);
    assert forall|k: usize, t: int|
        #![trigger c2.contains(k), path_neighbours(cubes, pos_of_index(k as int))[t]]
        c2.contains(k) && 0 <= t < path_neighbours(cubes, pos_of_index(k as int)).len() implies {
            let q = path_neighbours(cubes, pos_of_index(k as int))[t];
            c2.contains(sidx(q) as usize) || nodes.contains_key(sidx(q) as usize)
        } by {
        if k == ci {
            assert(pos_of_index(k as int) == c);
            let q = path_neighbours(cubes, c)[t];
            assert(closed.contains(sidx(q) as usize) || nodes.contains_key(sidx(q) as usize));
        } else {
            assert(closed.contains(k));
        }
    }
}

/// A shortest-first (A*) search for a way from `start` to `end` across `grid`.
///
/// Returns the positions of the way from `end` back to the first step after `start`
/// (`start` itself left out, no position twice), or `None` when `end` cannot be reached,
/// lies outside the world or is `start`. The grid may have any number of levels, as long as
/// every position the search stands on lies on one of them (`search_fits`). Positions are
/// explored at most once each; among open nodes with the same `f` and `h` the earliest in
/// the open list is taken.
#[verifier::rlimit(100)]
#[verifier::spinoff_prover]
pub fn find_path(start: Pos, end: Pos, grid: &Grid) -> (r: Option<Vec<Pos>>)
    requires
        grid.is_layered(),
        in_box(start),
        can_look_down(grid.grid@, start),
        search_fits(grid.grid@, grid.height as int, start),
    ensures
        r is Some <==> start != end && reachable(grid.grid@, start, end),
        r matches Some(path) ==> path@[0] == end && leads_back(grid.grid@, start, path@),
        r matches Some(path) ==> forall|i: int|
            0 <= i < path@.len() ==> in_box(#[trigger] path@[i]) && path@[i].2 >= 1,
        r matches Some(path) ==> path@.no_duplicates() && !path@.contains(start),
{
    let ghost cubes = grid.grid@;
    // An end outside the world cannot be reached.
    if !(end.0 < GRID_WIDTH && end.1 < GRID_WIDTH && end.2 < GRID_HEIGHT) {
        proof {
            if start != end && reachable(cubes, start, end) {
                let path = choose|path: Seq<Pos>| leads_back(cubes, start, path) && path[0] == end;
                lemma_walk_inside(cubes, start, path, 0);
            }
        }
        return None;
    }
    let mut closed: HashSet<usize> = HashSet::new();
    let mut nodes: HashMap<usize, usize> = HashMap::new();
    let mut arena: Vec<Node> = Vec::new();
    arena.push(Node { h: 0, f: 0, g: 0, parent: None, position: start });
    let mut open: Vec<usize> = Vec::new();
    open.push(0);
    proof {
        assert(arena@ == seq![arena@[0]]);
        assert(open@ == seq![0usize]);
        lemma_search_start(cubes, start, end, arena@[0]);
        lemma_tree_start(cubes, arena@[0], start);
        lemma_simple_start(arena@[0]);
    }
    while open.len() > 0
        invariant
            grid.is_layered(),
            search_fits(cubes, grid.height as int, start),
            cubes == grid.grid@,
            in_box(start),
            can_look_down(cubes, start),
            end.0 <= MAX_DESTINATION_COORD,
            end.1 <= MAX_DESTINATION_COORD,
            end.2 <= MAX_DESTINATION_COORD,
            tree_wf(cubes, arena@, start),
            chains_simple(arena@, closed@, None),
            search_frame(cubes, start, end, arena@, closed@, nodes@),
            pending_covered(start, arena@, open@, closed@, nodes@, -1),
            forall|j: int| 0 <= j < open@.len() ==> open@[j] < arena@.len(),
            forall|i: int| 0 <= i < arena@.len() ==> (#[trigger] arena@[i]).g <= closed@.len(),
            !closed@.contains(sidx(start) as usize) ==> open@ == seq![0usize],
            closed@.finite(),
            closed@.len() <= box_len(),
        decreases box_len() - closed@.len(), open@.len()
    {
        let b = best_open(&open, &arena);
        let ghost open_before = open@;
        let current_index = open.swap_remove(b);
        let current = arena[current_index];
        proof {
            lemma_frame_facts(cubes, start, end, arena@, closed@, nodes@);
            lemma_tree_node(cubes, arena@, start, current_index as int);
            lemma_index_round_trip(current.position);
        }
        proof {
            lemma_node_reached(cubes, arena@, start, current_index as int);
        }
        let ci = grid.index_in_layers(current.position);
        proof {
            lemma_take_open(start, arena@, open_before, closed@, nodes@, b as int, ci);
        }
        // A position is explored once; later nodes for it are passed over.
        if closed.contains(&ci) {
            continue;
        }
        proof {
            lemma_simple_widen(arena@, closed@, current.position);
            lemma_path_neighbours_inside(cubes, current.position);
            if !closed@.contains(sidx(start) as usize) {
                assert(open_before == seq![0usize]);
                assert(current_index == 0);
            }
        }
        let neighbours = get_neighbours(current.position, grid);
        let mut t: usize = 0;
        while t < neighbours.len()
            invariant
                grid.is_layered(),
                search_fits(cubes, grid.height as int, start),
                cubes == grid.grid@,
                in_box(start),
                can_look_down(cubes, start),
                end.0 <= MAX_DESTINATION_COORD,
                end.1 <= MAX_DESTINATION_COORD,
                end.2 <= MAX_DESTINATION_COORD,
                tree_wf(cubes, arena@, start),
                chains_simple(arena@, closed@, Some(current.position)),
                search_frame(cubes, start, end, arena@, closed@, nodes@),
                pending_covered(start, arena@, open@, closed@, nodes@, ci as int),
                forall|j: int| 0 <= j < open@.len() ==> open@[j] < arena@.len(),
                forall|i: int| 0 <= i < arena@.len() ==> (#[trigger] arena@[i]).g <= closed@.len() + 1,
                current_index < arena@.len(),
                current == arena@[current_index as int],
                current.g <= closed@.len(),
                ci == sidx(current.position),
                !closed@.contains(ci),
                current_index == 0 || current.position != start,
                !closed@.contains(sidx(start) as usize) ==> current.position == start,
                closed@.finite(),
                closed@.len() <= box_len(),
                neighbours@ == path_neighbours(cubes, current.position),
                forall|k: int|
                    0 <= k < neighbours@.len() ==> {
                        let q = #[trigger] neighbours@[k];
                        &&& in_box(q)
                        &&& q.2 >= 1
                        &&& q != current.position
                        &&& can_look_down(cubes, q)
                    },
                t <= neighbours@.len(),
                forall|s: int|
                    0 <= s < t ==> closed@.contains(sidx(#[trigger] neighbours@[s]) as usize)
                        || nodes@.contains_key(sidx(neighbours@[s]) as usize),
            decreases neighbours@.len() - t,
        {
            let neighbour = neighbours[t];
            proof {
                lemma_index_round_trip(neighbour);
                assert(path_neighbours(cubes, current.position).contains(neighbour)) by {
                    assert(neighbours@[t as int] == neighbour);
                }
            }
            proof {
                lemma_node_reached(cubes, arena@, start, current_index as int);
                lemma_reach_step(cubes, start, current.position, neighbour);
            }
            let ni = grid.index_in_layers(neighbour);
            if closed.contains(&ni) {
                t = t + 1;
                continue;
            }
            let g = current.g + 1;
            let h = distance(neighbour, end);
            let f = h + g;
            let node = Node { h, f, g, parent: Some(current_index), position: neighbour };
            let ghost arena_before = arena@;
            let ghost open_before2 = open@;
            let ghost nodes_before = nodes@;
            let known: Option<usize> = match nodes.get(&ni) {
                Some(k) => Some(*k),
                None => None,
            };
            match known {
                None => {
                    arena.push(node);
                    let k = arena.len() - 1;
                    open.push(k);
                    nodes.insert(ni, k);
                    proof {
                        lemma_tree_push(cubes, arena_before, start, node);
                        lemma_simple_push(cubes, arena_before, start, closed@, current_index as int, node);
                        lemma_pending_push(start, arena_before, open_before2, closed@, nodes_before,
                            ci, node, nodes_before.insert(ni, arena_before.len() as usize));
                    }
                    if neighbour.0 == end.0 && neighbour.1 == end.1 && neighbour.2 == end.2 {
                        let path = reconstruct_path(&arena, k, Ghost(cubes), Ghost(start));
                        proof {
                            assert(neighbour == end);
                            assert(arena@[k as int] == node);
                            lemma_chain_walk(cubes, arena@, start, k as int);
                            lemma_simple_path(arena@, closed@, Some(current.position), k as int);
                            assert(leads_back(cubes, start, path@) && path@[0] == end);
                            if start == end {
                                assert(closed@.contains(sidx(start) as usize));
                            }
                            assert forall|i: int| 0 <= i < path@.len() implies in_box(
                                #[trigger] path@[i],
                            ) && path@[i].2 >= 1 by {
                                lemma_walk_inside(cubes, start, path@, i);
                            }
                        }
                        return Some(path);
                    }
                    proof {
                        lemma_discover(cubes, start, end, arena_before, closed@, nodes_before, node);
                    }
                },
                Some(k) => {
                    proof {
                        lemma_discovered_not_end(cubes, start, end, arena_before, closed@,
                            nodes_before, neighbour);
                    }
                    if f < arena[k].f {
                        arena.push(node);
                        let last = arena.len() - 1;
                        open.push(last);
                        proof {
                            lemma_tree_push(cubes, arena_before, start, node);
                            lemma_simple_push(cubes, arena_before, start, closed@, current_index as int, node);
                            lemma_pending_push(start, arena_before, open_before2, closed@,
                                nodes_before, ci, node, nodes_before);
                            lemma_improve(cubes, start, end, arena_before, closed@, nodes_before,
                                node);
                        }
                    }
                },
            }
            proof {
                assert forall|i: int| 0 <= i < arena@.len() implies (#[trigger] arena@[i]).g <= closed@.len() + 1 by {
                    if i < arena_before.len() {
                        assert(arena@[i] == arena_before[i]);
                    }
                }
            }
            t = t + 1;
        }
        let ghost closed_before = closed@;
        proof {
            lemma_frame_facts(cubes, start, end, arena@, closed@, nodes@);
            lemma_tree_node(cubes, arena@, start, current_index as int);
            lemma_close(cubes, start, end, arena@, open@, closed@, nodes@, ci, current_index as int);
            lemma_frame_facts(cubes, start, end, arena@, closed@, nodes@);
            lemma_simple_close(arena@, closed@, current.position);
        }
        closed.insert(ci);
        proof {
            assert(closed@.len() == closed_before.len() + 1);
            lemma_bounded_closed(closed@);
        }
    }
    proof {
        reveal(pending_covered);
        assert(closed@.contains(sidx(start) as usize));
        if start != end && reachable(cubes, start, end) {
            reveal(search_frame);
            assert forall|k: usize, t: int|
                #![trigger closed@.contains(k), path_neighbours(cubes, pos_of_index(k as int))[t]]
                closed@.contains(k) && 0 <= t < path_neighbours(cubes, pos_of_index(k as int)).len()
                    implies closed@.contains(sidx(path_neighbours(cubes, pos_of_index(k as int))[t]) as usize) by {
                let q = path_neighbours(cubes, pos_of_index(k as int))[t];
                if nodes@.contains_key(sidx(q) as usize) && !closed@.contains(sidx(q) as usize) {
                    assert(exists|j: int| 0 <= j < open@.len() && sidx(arena@[open@[j] as int].position) == sidx(q) as usize);
                }
            }
            let path = choose|path: Seq<Pos>| leads_back(cubes, start, path) && path[0] == end;
            lemma_closed_contains_walk(cubes, start, path, closed@, 0);
            lemma_index_injective(start, end);
            let k = nodes@[sidx(end) as usize];
            lemma_index_injective(arena@[k as int].position, end);
        }
    }
    None
}

/// When every step from a closed position leads to a closed one, every position reachable
/// from a closed `start` is closed.
proof fn lemma_closed_contains_walk(
    cubes: Seq<Cube>,
    start: Pos,
    path: Seq<Pos>,
    closed: Set<usize>,
    i: int,
)
    requires
        in_box(start),
        can_look_down(cubes, start),
        closed.contains(sidx(start) as usize),
        forall|k: usize, t: int|
            #![trigger closed.contains(k), path_neighbours(cubes, pos_of_index(k as int))[t]]
            closed.contains(k) && 0 <= t < path_neighbours(cubes, pos_of_index(k as int)).len()
                ==> closed.contains(sidx(path_neighbours(cubes, pos_of_index(k as int))[t]) as usize),
        leads_back(cubes, start, path),
        0 <= i < path.len(),
    ensures
        in_box(path[i]),
        path[i].2 >= 1,
        closed.contains(sidx(path[i]) as usize),
    decreases path.len() - i,
{
    let (prev, q) = if i == path.len() - 1 {
        (start, path[i])
    } else {
        lemma_closed_contains_walk(cubes, start, path, closed, i + 1);
        (path[i + 1], path[i])
    };
    assert(path_neighbours(cubes, prev).contains(q));
    lemma_index_round_trip(prev);
    lemma_path_neighbours_inside(cubes, prev);
    let t = choose|t: int| 0 <= t < path_neighbours(cubes, prev).len() && path_neighbours(cubes, prev)[t] == q;
    assert(path_neighbours(cubes, pos_of_index(sidx(prev)))[t] == q);
}

/// A set of indices below `box_len()` has at most `box_len()` members.
proof fn lemma_bounded_closed(closed: Set<usize>)
    requires
        forall|k: usize| #[trigger] closed.contains(k) ==> k < box_len(),
    ensures
        closed.finite(),
        closed.len() <= box_len(),
{
    let all = Set::<usize>::range(0, box_len() as usize);
    vstd::set_lib::range_set_properties::<usize>(0, box_len() as usize);
    assert(closed.subset_of(all));
    vstd::set_lib::lemma_set_subset_finite(all, closed);
    vstd::set_lib::lemma_len_subset(closed, all);
}


/// Every position of `path` lies inside the world above its floor, when `path` leads back to
/// such a `start` from which steps can be looked for.
pub proof fn lemma_walk_inside(cubes: Seq<Cube>, start: Pos, path: Seq<Pos>, i: int)
    requires
        in_box(start),
        can_look_down(cubes, start),
        leads_back(cubes, start, path),
        0 <= i < path.len(),
    ensures
        in_box(path[i]),
        path[i].2 >= 1,
        can_look_down(cubes, path[i]),
    decreases path.len() - i,
{
    let prev = if i == path.len() - 1 {
        start
    } else {
        lemma_walk_inside(cubes, start, path, i + 1);
        path[i + 1]
    };
    assert(path_neighbours(cubes, prev).contains(path[i]));
    lemma_path_neighbours_inside(cubes, prev);
}

/// The way an agent last moved along the ground.
#[derive(Clone, Copy, PartialEq, Eq, Structural, Debug)]
pub enum Direction {
    Px,
    Nx,
    Py,
    Ny,
}

/// A request to the agent loop.
pub enum AgentEvent {
    /// Queue `task` behind the tasks of agent number `agent`.
    AgentAddTask { task: AgentTask, agent: usize },
}

/// A worker standing in the world.
pub struct Agent {
    pub name: String,
    pub animation: Arc<Animation>,
    pub animation_state: usize,
    pub animation_pool: Arc<AnimationPool>,
    pub position: Pos,
    pub destination: Option<Pos>,
    pub tasks: Vec<AgentTask>,
    pub active_task: Option<AgentCoroutine>,
    pub id: usize,
    pub direction: Direction,
}

/// A task in progress: it is next advanced at `end_tick`.
pub struct AgentCoroutine {
    pub end_tick: u32,
    pub task: AgentTask,
    pub completed: bool,
}

/// What an agent can be asked to do.
pub enum AgentTask {
    /// Walk along `path`, whose last position is the next step.
    Move { path: Vec<Pos>, destination: Pos },
    /// Look for a way to `destination` and walk it.
    FindPath { destination: Pos },
    /// Plough the cube at `target`.
    Plough { target: Pos },
    /// Dig the cube at `target` away.
    Dig { target: Pos },
    /// Put `cube` at `target`.
    Place { target: Pos, cube: Cube },
}

/// The positions an agent must stand on to carry out `t`, or `None` when it can do so from
/// anywhere: on top of the cube it ploughs, or next to the cell above the cube it digs or
/// places.
pub open spec fn required_positions(t: AgentTask) -> Option<Seq<Pos>> {
    match t {
        AgentTask::Move { .. } => None,
        AgentTask::FindPath { .. } => None,
        AgentTask::Plough { target } => Some(seq![(target.0, target.1, (target.2 + 1) as usize)]),
        AgentTask::Dig { target } => Some(
            horizontal_neighbours((target.0, target.1, (target.2 + 1) as usize)),
        ),
        AgentTask::Place { target, .. } => Some(
            horizontal_neighbours((target.0, target.1, (target.2 + 1) as usize)),
        ),
    }
}

/// The position above `target` and its neighbours can be formed without overflow.
pub open spec fn target_fits(target: Pos) -> bool {
    target.2 < usize::MAX && steppable(target.0) && steppable(target.1)
}

impl AgentTask {
    pub fn get_required_position(&self) -> (r: Option<Vec<Pos>>)
        requires
            *self matches AgentTask::Plough { target } ==> target.2 < usize::MAX,
            *self matches AgentTask::Dig { target } ==> target_fits(target),
            *self matches AgentTask::Place { target, .. } ==> target_fits(target),
        ensures
            r is Some <==> required_positions(*self) is Some,
            r matches Some(v) ==> v@ == required_positions(*self)->0,
    {
        match self {
            AgentTask::Move { .. } => None,
            AgentTask::FindPath { .. } => None,
            AgentTask::Plough { target } => {
                let v = vec![(target.0, target.1, target.2 + 1)];
                assert(v@ =~= seq![(target.0, target.1, (target.2 + 1) as usize)]);
                Some(v)
            },
            AgentTask::Dig { target } => Some(
                find_horizontal_neighbours((target.0, target.1, target.2 + 1)),
            ),
            AgentTask::Place { target, .. } => Some(
                find_horizontal_neighbours((target.0, target.1, target.2 + 1)),
            ),
        }
    }
}

/// Names of the animations an agent switches between.
pub open spec fn idle_name() -> Seq<char> {
    seq!['i', 'd', 'l', 'e']
}

pub open spec fn running_name() -> Seq<char> {
    seq!['r', 'u', 'n', 'n', 'i', 'n', 'g']
}

pub open spec fn ploughing_name() -> Seq<char> {
    seq!['p', 'l', 'o', 'u', 'g', 'h', 'i', 'n', 'g']
}

pub open spec fn mining_name() -> Seq<char> {
    seq!['m', 'i', 'n', 'i', 'n', 'g']
}

/// Every sequence of frames of `a` is as long as the animation, and it has at least one.
pub open spec fn frames_ok(a: Animation) -> bool {
    &&& a.length_view() >= 1
    &&& a matches Animation::CompassAwareAnimation { frames_ne, frames_se, frames_sw, frames_nw, .. }
        ==> frames_se@.len() == frames_ne@.len() && frames_sw@.len() == frames_ne@.len()
            && frames_nw@.len() == frames_ne@.len()
}

/// The pool holds the four animations agents use, and every animation in it has frames.
pub open spec fn pool_ready(pool: AnimationPool) -> bool {
    &&& has_named(pool.animations@, idle_name())
    &&& has_named(pool.animations@, running_name())
    &&& has_named(pool.animations@, ploughing_name())
    &&& has_named(pool.animations@, mining_name())
    &&& forall|i: int| 0 <= i < pool.animations@.len() ==> frames_ok(*#[trigger] pool.animations@[i])
}

/// Which of the four screen headings (0 north-east, 1 south-east, 2 south-west,
/// 3 north-west) a step along `direction` takes on screen, seen from `compass`.
pub open spec fn screen_heading(compass: Compass, direction: Direction) -> int {
    match compass {
        Compass::North => match direction {
            Direction::Px => 1,
            Direction::Nx => 3,
            Direction::Py => 2,
            Direction::Ny => 0,
        },
        Compass::East => match direction {
            Direction::Px => 2,
            Direction::Nx => 0,
            Direction::Py => 3,
            Direction::Ny => 1,
        },
        Compass::South => match direction {
            Direction::Px => 3,
            Direction::Nx => 1,
            Direction::Py => 0,
            Direction::Ny => 2,
        },
        Compass::West => match direction {
            Direction::Px => 0,
            Direction::Nx => 2,
            Direction::Py => 1,
            Direction::Ny => 3,
        },
    }
}

/// Frame `i` of `a` as seen with the agent heading `heading` on screen.
pub open spec fn frame_at(a: Animation, heading: int, i: int) -> Sprite {
    match a {
        Animation::CompassAwareAnimation { frames_ne, frames_se, frames_sw, frames_nw, .. } => {
            if heading == 0 {
                frames_ne@[i]
            } else if heading == 1 {
                frames_se@[i]
            } else if heading == 2 {
                frames_sw@[i]
            } else {
                frames_nw@[i]
            }
        },
        Animation::CameraFacingAnimation { frames, .. } => frames@[i],
    }
}

impl Agent {
    /// Switches to the animation called `animation`, from its first frame; an animation that
    /// is already playing goes on undisturbed.
    pub fn change_animation(&mut self, animation: &str)
        requires
            old(self).animation.name_view() == animation@ || has_named(
                old(self).animation_pool.animations@,
                animation@,
            ),
        ensures
            old(self).animation.name_view() == animation@ ==> *final(self) == *old(self),
            old(self).animation.name_view() != animation@ ==> {
                &&& final(self).animation_state == 0
                &&& exists|i: int|
                    first_named(old(self).animation_pool.animations@, animation@, i)
                        && final(self).animation == old(self).animation_pool.animations@[i]
                &&& final(self).animation_pool == old(self).animation_pool
                &&& final(self).name == old(self).name
                &&& final(self).position == old(self).position
                &&& final(self).destination == old(self).destination
                &&& final(self).tasks == old(self).tasks
                &&& final(self).active_task == old(self).active_task
                &&& final(self).id == old(self).id
                &&& final(self).direction == old(self).direction
            },
    {
        let wanted = animation.to_owned();
        if *self.animation.name() == wanted {
            return;
        }
        self.animation_state = 0;
        let animations = Arc::clone(&self.animation_pool);
        match animations.get(animation) {
            Some(a) => {
                self.animation = a;
            },
            None => {
                proof {
                    assert(false);
                }
            },
        }
    }

    /// Moves on to the next frame, back to the first after the last.
    pub fn advance_animation_state(&mut self)
        requires
            old(self).animation_state < usize::MAX,
        ensures
            final(self).animation_state == if old(self).animation_state + 1
                >= old(self).animation.length_view() {
                0
            } else {
                old(self).animation_state + 1
            },
            final(self).animation == old(self).animation,
            final(self).animation_pool == old(self).animation_pool,
            final(self).name == old(self).name,
            final(self).position == old(self).position,
            final(self).destination == old(self).destination,
            final(self).tasks == old(self).tasks,
            final(self).active_task == old(self).active_task,
            final(self).id == old(self).id,
            final(self).direction == old(self).direction,
    {
        self.animation_state = self.animation_state + 1;
        if self.animation_state >= self.animation.length() {
            self.animation_state = 0;
        }
    }

    /// The frame to draw the agent with, seen from `compass`.
    pub fn get_current_animation_frame(&self, compass: &Compass) -> (s: &Sprite)
        requires
            frames_ok(*self.animation),
            self.animation_state < self.animation.length_view(),
        ensures
            *s == frame_at(
                *self.animation,
                screen_heading(*compass, self.direction),
                self.animation_state as int,
            ),
    {
        let i = self.animation_state;
        let heading: u8 = match compass {
            Compass::North => match self.direction {
                Direction::Px => 1,
                Direction::Nx => 3,
                Direction::Py => 2,
                Direction::Ny => 0,
            },
            Compass::East => match self.direction {
                Direction::Px => 2,
                Direction::Nx => 0,
                Direction::Py => 3,
                Direction::Ny => 1,
            },
            Compass::South => match self.direction {
                Direction::Px => 3,
                Direction::Nx => 1,
                Direction::Py => 0,
                Direction::Ny => 2,
            },
            Compass::West => match self.direction {
                Direction::Px => 0,
                Direction::Nx => 2,
                Direction::Py => 1,
                Direction::Ny => 3,
            },
        };
        match &*self.animation {
            Animation::CompassAwareAnimation { frames_ne, frames_se, frames_sw, frames_nw, .. } => {
                if heading == 0 {
                    &frames_ne[i]
                } else if heading == 1 {
                    &frames_se[i]
                } else if heading == 2 {
                    &frames_sw[i]
                } else {
                    &frames_nw[i]
                }
            },
            Animation::CameraFacingAnimation { frames, .. } => &frames[i],
        }
    }
}

} // verus!
