//! The game loop's decisions: carrying out the agents' tasks tick by tick, and the requests
//! that reach the loop.

use vstd::prelude::*;

use crate::agents::{
    AgentEvent, can_look_down, find_path, search_fits, frames_ok, idle_name, leads_back, mining_name, ploughing_name, pool_ready,
    reachable, required_positions, running_name, Agent, AgentCoroutine, AgentTask, Direction,
};
use crate::animation::{first_named, Animation, AnimationPool};
use crate::events::GridChangeEvent;
use crate::grid::{in_box, steppable, Cube, Grid};
use crate::water::water_among;
use crate::grid::face_neighbours;
use crate::{Pos, EMPTY_CUBE, GRID_HEIGHT, GRID_WIDTH, LANTERN_CUBE, PLOUGHED_CUBE};

verus! {

/// `t` can be carried out without leaving the world: a walk has a step left and stays
/// above the floor, and a target lies inside the world.
pub open spec fn task_valid(t: AgentTask) -> bool {
    match t {
        AgentTask::Move { path, .. } => path@.len() >= 1 && forall|i: int|
            0 <= i < path@.len() ==> in_box(#[trigger] path@[i]) && path@[i].2 >= 1,
        AgentTask::FindPath { .. } => true,
        AgentTask::Plough { target } => in_box(target),
        AgentTask::Dig { target } => in_box(target),
        AgentTask::Place { target, .. } => in_box(target),
    }
}

/// The agent stands inside the world above its floor, every task it holds can be carried
/// out, a task in progress is not finished, and its animations are in order.
pub open spec fn agent_ready(a: Agent) -> bool {
    &&& in_box(a.position)
    &&& a.position.2 >= 1
    &&& a.destination matches Some(d) ==> in_box(d) && d.2 >= 1
    &&& forall|i: int| 0 <= i < a.tasks@.len() ==> task_valid(#[trigger] a.tasks@[i])
    &&& a.active_task matches Some(c) ==> !c.completed && task_valid(c.task)
    &&& pool_ready(*a.animation_pool)
    &&& frames_ok(*a.animation)
    &&& a.animation_state < a.animation.length_view()
}

/// The way a step from `from` to `to` points: along x when x changes, else along y.
pub open spec fn direction_of(from: Pos, to: Pos) -> Direction {
    if to.0 < from.0 {
        Direction::Nx
    } else if to.0 > from.0 {
        Direction::Px
    } else if to.1 < from.1 {
        Direction::Ny
    } else {
        Direction::Py
    }
}

/// `tasks` is `before` with a walk from `start` to `end` put in front when `end` can be
/// reached, and `before` unchanged when it cannot.
pub open spec fn route_queued(
    cubes: Seq<Cube>,
    start: Pos,
    end: Pos,
    before: Seq<AgentTask>,
    tasks: Seq<AgentTask>,
) -> bool {
    if start != end && reachable(cubes, start, end) {
        &&& tasks.len() == before.len() + 1
        &&& tasks[0] matches AgentTask::Move { path, destination } && destination == end
            && path@[0] == end && leads_back(cubes, start, path@)
        &&& tasks.skip(1) == before
    } else {
        tasks == before
    }
}

/// `b` is `a` with only its tasks, position, direction and task in progress changed.
pub open spec fn same_agent(a: Agent, b: Agent) -> bool {
    &&& b.name == a.name
    &&& b.animation == a.animation
    &&& b.animation_state == a.animation_state
    &&& b.animation_pool == a.animation_pool
    &&& b.destination == a.destination
    &&& b.id == a.id
}

/// `g` is `old` with only its cubes and events changed.
pub open spec fn same_frame(old: Grid, g: Grid) -> bool {
    &&& g.width_of() == old.width_of()
    &&& g.height_of() == old.height_of()
    &&& g.water_of() == old.water_of()
    &&& g.grid@.len() == old.grid@.len()
}

/// Puts a walk from `start` to `end` in front of the agent's tasks, when there is one.
#[verifier::spinoff_prover]
#[verifier::rlimit(40)]
fn queue_route(agent: &mut Agent, start: Pos, end: Pos, grid: &Grid)
    requires
        search_ok(*grid, start),
    ensures
        route_queued(grid.grid@, start, end, old(agent).tasks@, final(agent).tasks@),
        (forall|i: int| 0 <= i < old(agent).tasks@.len() ==> task_valid(
            #[trigger] old(agent).tasks@[i],
        )) ==> forall|i: int|
            0 <= i < final(agent).tasks@.len() ==> task_valid(#[trigger] final(agent).tasks@[i]),
        same_agent(*old(agent), *final(agent)),
        final(agent).position == old(agent).position,
        final(agent).direction == old(agent).direction,
        final(agent).active_task == old(agent).active_task,
{
    match find_path(start, end, grid) {
        Some(path) => {
            let ghost before = agent.tasks@;
            agent.tasks.insert(0, AgentTask::Move { path, destination: end });
            assert(agent.tasks@.skip(1) =~= before);
        },
        None => {},
    }
}


/// Every event the grid has published names a position inside the world.
pub open spec fn events_inside(g: Grid) -> bool {
    forall|i: int|
        0 <= i < g.events_of().len() ==> match #[trigger] g.events_of()[i] {
            GridChangeEvent::Delete(p) => in_box(p),
        }
}

/// An agent or a non-empty cube takes up `p`.
pub open spec fn occupied(g: Grid, p: Pos) -> bool {
    g.cube_at(p).agent is Some || g.cube_at(p).cube_type != EMPTY_CUBE
}

/// `c` turned into ploughed ground.
pub open spec fn ploughed(c: Cube) -> Cube {
    Cube { cube_type: PLOUGHED_CUBE, ..c }
}

/// The agent `a0` in the grid `g0` has carried its task in progress one step further,
/// becoming `a1` in `g1`:
/// - a walk takes its next step when the cell is free; when it is taken, the walk ends,
///   and a new way to the agent's destination, if it has one, is put in front of its tasks;
///   the walk is done when no step is left;
/// - looking for a way puts the way found in front of the tasks, starting from the agent's
///   destination if it has one, else from where it stands;
/// - ploughing and digging change the target cube (only when the agent stands above the
///   floor), placing puts the cube at the target;
/// - every task but an unfinished walk is then done.
pub open spec fn task_advanced(a0: Agent, g0: Grid, a1: Agent, g1: Grid) -> bool {
    match a0.active_task {
        None => a1 == a0 && g1 == g0,
        Some(c) => {
            &&& same_agent(a0, a1)
            &&& same_frame(g0, g1)
            &&& a1.active_task matches Some(c1) && c1.end_tick == c.end_tick && match c.task {
                AgentTask::Move { path, destination } => {
                    let next = path@.last();
                    let pos = a0.position;
                    &&& c1.task matches AgentTask::Move { path: p1, destination: d1 }
                        && p1@ == path@.drop_last() && d1 == destination
                    &&& if !occupied(g0, next) {
                        &&& a1.position == next
                        &&& a1.direction == direction_of(pos, next)
                        &&& g1.grid@ == g0.cubes_after_move(pos, next)
                        &&& g1.events_of() == g0.events_after_move(pos, next)
                        &&& a1.tasks@ == a0.tasks@
                        &&& c1.completed == (c.completed || path@.len() == 1)
                    } else {
                        &&& a1.position == pos
                        &&& a1.direction == a0.direction
                        &&& g1 == g0
                        &&& match a0.destination {
                            Some(d) => route_queued(g0.grid@, pos, d, a0.tasks@, a1.tasks@),
                            None => a1.tasks@ == a0.tasks@,
                        }
                        &&& c1.completed
                    }
                },
                AgentTask::FindPath { destination } => {
                    let start = match a0.destination {
                        Some(d) => d,
                        None => a0.position,
                    };
                    &&& c1.task == c.task
                    &&& c1.completed
                    &&& a1.position == a0.position
                    &&& a1.direction == a0.direction
                    &&& g1 == g0
                    &&& route_queued(g0.grid@, start, destination, a0.tasks@, a1.tasks@)
                },
                AgentTask::Plough { target } => {
                    &&& c1.task == c.task
                    &&& c1.completed
                    &&& a1.position == a0.position
                    &&& a1.direction == a0.direction
                    &&& a1.tasks@ == a0.tasks@
                    &&& g1.events_of() == g0.events_of()
                    &&& g1.grid@ == if a0.position.2 > 0 {
                        g0.grid@.update(g0.index_of(target), ploughed(g0.cube_at(target)))
                    } else {
                        g0.grid@
                    }
                },
                AgentTask::Dig { target } => {
                    &&& c1.task == c.task
                    &&& c1.completed
                    &&& a1.position == a0.position
                    &&& a1.direction == a0.direction
                    &&& a1.tasks@ == a0.tasks@
                    &&& g1.grid@ == if a0.position.2 > 0 {
                        g0.cubes_after_delete(target)
                    } else {
                        g0.grid@
                    }
                    &&& g1.events_of() == if a0.position.2 > 0 {
                        g0.events_after_delete(target)
                    } else {
                        g0.events_of()
                    }
                },
                AgentTask::Place { target, cube } => {
                    &&& c1.task == c.task
                    &&& c1.completed
                    &&& a1.position == a0.position
                    &&& a1.direction == a0.direction
                    &&& a1.tasks@ == a0.tasks@
                    &&& g1.events_of() == g0.events_of()
                    &&& g1.grid@ == g0.cubes_after_place(target, cube)
                },
            }
        },
    }
}

/// Everything `agent_ready` asks but that the task in progress is unfinished: that task may
/// be done instead.
pub open spec fn agent_settled(a: Agent) -> bool {
    &&& in_box(a.position)
    &&& a.position.2 >= 1
    &&& a.destination matches Some(d) ==> in_box(d) && d.2 >= 1
    &&& forall|i: int| 0 <= i < a.tasks@.len() ==> task_valid(#[trigger] a.tasks@[i])
    &&& a.active_task matches Some(c) ==> c.completed || task_valid(c.task)
    &&& pool_ready(*a.animation_pool)
    &&& frames_ok(*a.animation)
    &&& a.animation_state < a.animation.length_view()
}

fn step_direction(from: Pos, to: Pos) -> (d: Direction)
    ensures
        d == direction_of(from, to),
{
    if to.0 < from.0 {
        Direction::Nx
    } else if to.0 > from.0 {
        Direction::Px
    } else if to.1 < from.1 {
        Direction::Ny
    } else {
        Direction::Py
    }
}

/// A search for a way from `start` stays inside the grid, which is `GRID_WIDTH` wide with
/// whole levels: what `find_path` needs.
pub open spec fn search_ok(g: Grid, start: Pos) -> bool {
    &&& g.is_layered()
    &&& in_box(start)
    &&& can_look_down(g.grid@, start)
    &&& search_fits(g.grid@, g.height as int, start)
}

/// Every cell the agent's task in progress reads or writes is a cell of the grid, and every
/// way it looks for stays inside it:
/// - a walk has a step left, in the grid; taking it needs the agent's own cell, and when the
///   step is blocked the way to the destination, if there is one, is looked for from where
///   the agent stands;
/// - looking for a way starts from the agent's destination if it has one, else from where
///   it stands;
/// - ploughing and digging touch the target only when the agent stands above the floor;
/// - placing needs the target, and a lantern, which lights the world around it, a grid of
///   the standard size.
pub open spec fn advance_admissible(a: Agent, g: Grid) -> bool {
    a.active_task matches Some(c) ==> match c.task {
        AgentTask::Move { path, .. } => {
            let next = path@.last();
            &&& path@.len() >= 1
            &&& g.holds(next)
            &&& !occupied(g, next) ==> g.holds(a.position)
            &&& occupied(g, next) && a.destination is Some ==> search_ok(g, a.position)
        },
        AgentTask::FindPath { .. } => search_ok(
            g,
            match a.destination {
                Some(d) => d,
                None => a.position,
            },
        ),
        AgentTask::Plough { target } => a.position.2 > 0 ==> g.holds(target),
        AgentTask::Dig { target } => a.position.2 > 0 ==> g.holds(target),
        AgentTask::Place { target, cube } => g.holds(target) && (cube.cube_type == LANTERN_CUBE
            ==> g.is_standard() && in_box(target)),
    }
}

/// In a grid of the standard size, a ready agent's task in progress can be carried out.
proof fn lemma_standard_admissible(a: Agent, g: Grid)
    requires
        agent_ready(a),
        g.is_standard(),
    ensures
        advance_admissible(a, g),
{
    crate::agents::lemma_standard_search_fits(g, a.position);
    crate::grid::lemma_in_box_index(a.position);
    match a.destination {
        Some(d) => crate::agents::lemma_standard_search_fits(g, d),
        None => {},
    }
    match a.active_task {
        Some(c) => match c.task {
            AgentTask::Move { path, .. } => {
                assert(in_box(path@[path@.len() - 1]));
                crate::grid::lemma_in_box_index(path@[path@.len() - 1]);
            },
            AgentTask::Plough { target } => crate::grid::lemma_in_box_index(target),
            AgentTask::Dig { target } => crate::grid::lemma_in_box_index(target),
            AgentTask::Place { target, .. } => crate::grid::lemma_in_box_index(target),
            _ => {},
        },
        None => {},
    }
}

/// Carries the agent's task in progress one step further (see `task_advanced`).
pub fn advance_task(agent: &mut Agent, grid: &mut Grid)
    requires
        advance_admissible(*old(agent), *old(grid)),
    ensures
        task_advanced(*old(agent), *old(grid), *final(agent), *final(grid)),
        agent_ready(*old(agent)) ==> agent_settled(*final(agent)),
        final(grid).height == old(grid).height,
        old(grid).is_layered() ==> final(grid).is_layered(),
        old(grid).is_standard() ==> final(grid).is_standard(),
        agent_ready(*old(agent)) && events_inside(*old(grid)) ==> events_inside(*final(grid)),
{
    let coroutine = match agent.active_task.take() {
        None => {
            return ;
        },
        Some(c) => c,
    };
    let AgentCoroutine { end_tick, task, completed: was_completed } = coroutine;
    let mut completed = false;
    let task = match task {
        AgentTask::Move { mut path, destination } => {
            let next = match path.pop() {
                Some(n) => n,
                None => {
                    proof {
                        assert(false);
                    }
                    agent.position
                },
            };
            if path.len() == 0 {
                completed = true;
            }
            if !grid.is_occupied(next) {
                agent.direction = step_direction(agent.position, next);
                grid.move_cube(agent.position, next);
                agent.position = next;
            } else {
                match agent.destination {
                    Some(d) => {
                        let pos = agent.position;
                        queue_route(agent, pos, d, grid);
                    },
                    None => {},
                }
                completed = true;
            }
            AgentTask::Move { path, destination }
        },
        AgentTask::FindPath { destination } => {
            let start = match agent.destination {
                Some(d) => d,
                None => agent.position,
            };
            queue_route(agent, start, destination, grid);
            completed = true;
            AgentTask::FindPath { destination }
        },
        AgentTask::Plough { target } => {
            if agent.position.2 > 0 {
                let mut c = *grid.get_cube(target);
                c.cube_type = PLOUGHED_CUBE;
                grid.set_cube(target, c);
            }
            completed = true;
            AgentTask::Plough { target }
        },
        AgentTask::Dig { target } => {
            if agent.position.2 > 0 {
                grid.delete_cube(target);
            }
            completed = true;
            AgentTask::Dig { target }
        },
        AgentTask::Place { target, cube } => {
            grid.place_cube(target, cube);
            completed = true;
            AgentTask::Place { target, cube }
        },
    };
    agent.active_task = Some(AgentCoroutine { end_tick, task, completed: was_completed || completed });
}

/// Ticks a task takes from its start until it is next advanced.
pub open spec fn duration(t: AgentTask) -> int {
    match t {
        AgentTask::Plough { .. } => 15,
        AgentTask::Move { .. } => 1,
        AgentTask::FindPath { .. } => 0,
        AgentTask::Dig { .. } => 20,
        AgentTask::Place { .. } => 9,
    }
}

/// The animation an agent plays while carrying out `t`, if `t` asks for one.
pub open spec fn animation_for(t: AgentTask) -> Option<Seq<char>> {
    match t {
        AgentTask::Plough { .. } => Some(ploughing_name()),
        AgentTask::Move { .. } => Some(running_name()),
        AgentTask::FindPath { .. } => None,
        AgentTask::Dig { .. } => Some(mining_name()),
        AgentTask::Place { .. } => None,
    }
}

/// `a` plays the animation called `name` as `change_animation` leaves it on `b`: unchanged
/// when `b` plays it already, else from the first frame of the pool's animation of that name.
pub open spec fn switched(b: Agent, a: Agent, name: Seq<char>) -> bool {
    if b.animation.name_view() == name {
        a.animation == b.animation && a.animation_state == b.animation_state
    } else {
        &&& a.animation_state == 0
        &&& exists|i: int|
            first_named(b.animation_pool.animations@, name, i) && a.animation
                == b.animation_pool.animations@[i]
    }
}

/// A worker at `start` can walk to `end` in one or more steps.
pub open spec fn can_reach(cubes: Seq<Cube>, start: Pos, end: Pos) -> bool {
    start != end && reachable(cubes, start, end)
}

/// `k` is the first of `targets` that can be reached from `start`.
pub open spec fn first_reachable(cubes: Seq<Cube>, start: Pos, targets: Seq<Pos>, k: int) -> bool {
    &&& 0 <= k < targets.len()
    &&& can_reach(cubes, start, targets[k])
    &&& forall|j: int| 0 <= j < k ==> !can_reach(cubes, start, #[trigger] targets[j])
}

/// `a1` has taken up `next` at tick `tick` (or dropped it, when `cancel`), as `a0` was
/// before: it plays the animation the task asks for, its other fields but `tasks` stay.
pub open spec fn took_up(a0: Agent, a1: Agent, next: AgentTask, cancel: bool, tick: int) -> bool {
    &&& a1.name == a0.name
    &&& a1.animation_pool == a0.animation_pool
    &&& a1.position == a0.position
    &&& a1.destination == a0.destination
    &&& a1.id == a0.id
    &&& a1.direction == a0.direction
    &&& match animation_for(next) {
        Some(n) => switched(a0, a1, n),
        None => a1.animation == a0.animation && a1.animation_state == a0.animation_state,
    }
    &&& if cancel {
        a1.active_task is None
    } else {
        a1.active_task matches Some(c) && c.task == next && c.end_tick == tick + duration(next)
            && !c.completed
    }
}

/// `a0`, with no task in progress, has turned to its next task at tick `tick`, becoming
/// `a1`:
/// - with no task left it idles;
/// - a task it must stand elsewhere for, when it stands on none of those positions, is
///   preceded by a walk to the first of them it can reach, and dropped when it can reach
///   none;
/// - otherwise the first task is taken up.
pub open spec fn task_started(a0: Agent, cubes: Seq<Cube>, tick: int, a1: Agent) -> bool {
    if a0.tasks@.len() == 0 {
        &&& switched(a0, a1, idle_name())
        &&& a1.name == a0.name
        &&& a1.animation_pool == a0.animation_pool
        &&& a1.position == a0.position
        &&& a1.destination == a0.destination
        &&& a1.tasks@ == a0.tasks@
        &&& a1.active_task == a0.active_task
        &&& a1.id == a0.id
        &&& a1.direction == a0.direction
    } else {
        let t = a0.tasks@[0];
        let rest = a0.tasks@.skip(1);
        match required_positions(t) {
            Some(r) if !r.contains(a0.position) => {
                if exists|k: int| first_reachable(cubes, a0.position, r, k) {
                    let k = choose|k: int| first_reachable(cubes, a0.position, r, k);
                    &&& a1.tasks@ == a0.tasks@
                    &&& a1.active_task matches Some(c) && c.task matches AgentTask::Move {
                        path,
                        destination,
                    } && destination == r[k] && path@[0] == r[k] && leads_back(
                        cubes,
                        a0.position,
                        path@,
                    ) && took_up(a0, a1, c.task, false, tick)
                } else {
                    &&& a1.tasks@ == rest
                    &&& took_up(a0, a1, t, r.len() > 0, tick)
                }
            },
            _ => {
                &&& a1.tasks@ == rest
                &&& took_up(a0, a1, t, false, tick)
            },
        }
    }
}

fn contains_pos(v: &Vec<Pos>, p: Pos) -> (b: bool)
    ensures
        b == v@.contains(p),
{
    let mut i: usize = 0;
    while i < v.len()
        invariant
            i <= v@.len(),
            forall|j: int| 0 <= j < i ==> v@[j] != p,
        decreases v@.len() - i,
    {
        if v[i].0 == p.0 && v[i].1 == p.1 && v[i].2 == p.2 {
            assert(v@[i as int] == p);
            return true;
        }
        i = i + 1;
    }
    false
}

/// There is at most one first reachable target.
proof fn lemma_first_reachable_unique(cubes: Seq<Cube>, start: Pos, targets: Seq<Pos>, k1: int, k2: int)
    requires
        first_reachable(cubes, start, targets, k1),
        first_reachable(cubes, start, targets, k2),
    ensures
        k1 == k2,
{
    if k1 < k2 {
        assert(!can_reach(cubes, start, targets[k1]));
    } else if k2 < k1 {
        assert(!can_reach(cubes, start, targets[k2]));
    }
}

/// The first of `targets` that can be reached from `start`, with a way to it, if any.
fn find_detour(start: Pos, targets: &Vec<Pos>, grid: &Grid) -> (r: Option<(Pos, Vec<Pos>)>)
    requires
        grid.is_standard(),
        in_box(start),
        start.2 >= 1,
        !targets@.contains(start),
    ensures
        r is Some <==> exists|k: int| first_reachable(grid.grid@, start, targets@, k),
        r matches Some(fp) ==> {
            let k = choose|k: int| first_reachable(grid.grid@, start, targets@, k);
            &&& fp.0 == targets@[k]
            &&& fp.1@[0] == fp.0
            &&& leads_back(grid.grid@, start, fp.1@)
            &&& forall|i: int|
                0 <= i < fp.1@.len() ==> in_box(#[trigger] fp.1@[i]) && fp.1@[i].2 >= 1
        },
{
    let mut k: usize = 0;
    while k < targets.len()
        invariant
            grid.is_standard(),
            in_box(start),
            start.2 >= 1,
            !targets@.contains(start),
            k <= targets@.len(),
            forall|j: int| 0 <= j < k ==> !can_reach(grid.grid@, start, #[trigger] targets@[j]),
        decreases targets@.len() - k,
    {
        let pos = targets[k];
        assert(pos != start) by {
            assert(targets@[k as int] == pos);
        }
        proof {
            crate::agents::lemma_standard_search_fits(*grid, start);
        }
        match find_path(start, pos, grid) {
            Some(path) => {
                proof {
                    assert(first_reachable(grid.grid@, start, targets@, k as int));
                    let c = choose|c: int| first_reachable(grid.grid@, start, targets@, c);
                    lemma_first_reachable_unique(grid.grid@, start, targets@, k as int, c);
                }
                return Some((pos, path));
            },
            None => {},
        }
        k = k + 1;
    }
    proof {
        assert forall|c: int| !first_reachable(grid.grid@, start, targets@, c) by {
            if 0 <= c < targets@.len() {
                assert(!can_reach(grid.grid@, start, targets@[c]));
            }
        }
    }
    None
}

/// Plays the animation `next` asks for and, unless `cancel`, makes `next` the task in
/// progress until it is due at `game_tick` plus its duration.
fn take_up(agent: &mut Agent, next: AgentTask, cancel: bool, game_tick: u32)
    requires
        pool_ready(*old(agent).animation_pool),
        game_tick + 20 <= u32::MAX,
    ensures
        took_up(*old(agent), *final(agent), next, cancel, game_tick as int),
        final(agent).tasks == old(agent).tasks,
{
    let end_tick = match &next {
        AgentTask::Plough { .. } => {
            proof {
                reveal_strlit("ploughing");
                assert("ploughing"@ =~= ploughing_name());
            }
            agent.change_animation("ploughing");
            game_tick + 15
        },
        AgentTask::Move { .. } => {
            proof {
                reveal_strlit("running");
                assert("running"@ =~= running_name());
            }
            agent.change_animation("running");
            game_tick + 1
        },
        AgentTask::FindPath { .. } => game_tick,
        AgentTask::Dig { .. } => {
            proof {
                reveal_strlit("mining");
                assert("mining"@ =~= mining_name());
            }
            agent.change_animation("mining");
            game_tick + 20
        },
        AgentTask::Place { .. } => game_tick + 9,
    };
    agent.active_task = if cancel {
        None
    } else {
        Some(AgentCoroutine { task: next, end_tick, completed: false })
    };
}

/// An animation switched to by name from a ready pool has frames and starts within them.
proof fn lemma_switched_ready(b: Agent, a: Agent, name: Seq<char>)
    requires
        pool_ready(*b.animation_pool),
        frames_ok(*b.animation),
        b.animation_state < b.animation.length_view(),
        switched(b, a, name),
    ensures
        frames_ok(*a.animation),
        a.animation_state < a.animation.length_view(),
{
    if b.animation.name_view() != name {
        let i = choose|i: int|
            first_named(b.animation_pool.animations@, name, i) && a.animation
                == b.animation_pool.animations@[i];
        assert(frames_ok(*b.animation_pool.animations@[i]));
    }
}

/// Turns the agent to its next task (see `task_started`).
#[verifier::spinoff_prover]
pub fn start_next_task(agent: &mut Agent, grid: &Grid, game_tick: u32)
    requires
        agent_settled(*old(agent)),
        old(agent).active_task is None,
        grid.is_standard(),
        game_tick + 20 <= u32::MAX,
    ensures
        task_started(*old(agent), grid.grid@, game_tick as int, *final(agent)),
        agent_ready(*final(agent)),
{
    let ghost a0 = *agent;
    if agent.tasks.len() == 0 {
        proof {
            reveal_strlit("idle");
            assert("idle"@ =~= idle_name());
        }
        agent.change_animation("idle");
        proof {
            lemma_switched_ready(a0, *agent, idle_name());
        }
        return ;
    }
    let mut next_task = agent.tasks.remove(0);
    assert(agent.tasks@ =~= a0.tasks@.skip(1));
    assert(task_valid(next_task)) by {
        assert(next_task == a0.tasks@[0]);
    }
    let mut cancel_task = false;
    match next_task.get_required_position() {
        Some(required) => {
            if !contains_pos(&required, agent.position) {
                match find_detour(agent.position, &required, grid) {
                    Some((pos, path)) => {
                        agent.tasks.insert(0, next_task);
                        assert(agent.tasks@ =~= a0.tasks@);
                        next_task = AgentTask::Move { destination: pos, path };
                    },
                    None => {
                        cancel_task = required.len() > 0;
                    },
                }
            }
        },
        None => {},
    }
    let ghost before = *agent;
    take_up(agent, next_task, cancel_task, game_tick);
    proof {
        match animation_for(next_task) {
            Some(n) => lemma_switched_ready(before, *agent, n),
            None => {},
        }
    }
}

/// `a` after moving on to its next frame, back to the first after the last.
pub open spec fn next_frame(a: Agent) -> Agent {
    Agent {
        animation_state: if a.animation_state + 1 >= a.animation.length_view() {
            0
        } else {
            (a.animation_state + 1) as usize
        },
        ..a
    }
}

/// One tick of the game for agent `a0` in grid `g0`, at tick `tick`, giving `a1` and `g1`:
/// the agent moves on to its next frame; a task in progress that is not due yet waits; one
/// that is due is advanced, and once done the agent turns to its next task; an agent with
/// no task in progress turns to its next task at once.
pub open spec fn agent_ticked(a0: Agent, g0: Grid, tick: int, a1: Agent, g1: Grid) -> bool {
    let a = next_frame(a0);
    match a.active_task {
        Some(c) => if tick < c.end_tick {
            a1 == a && g1 == g0
        } else {
            exists|m: Agent|
                #[trigger] task_advanced(a, g0, m, g1) && if m.active_task->0.completed {
                    task_started(Agent { active_task: None, ..m }, g1.grid@, tick, a1)
                } else {
                    a1 == m
                }
        },
        None => g1 == g0 && task_started(a, g0.grid@, tick, a1),
    }
}

/// Runs one tick of the game for `agent` (see `agent_ticked`).
pub fn update_agent(agent: &mut Agent, grid: &mut Grid, game_tick: u32)
    requires
        agent_ready(*old(agent)),
        old(grid).is_standard(),
        game_tick + 20 <= u32::MAX,
    ensures
        agent_ticked(*old(agent), *old(grid), game_tick as int, *final(agent), *final(grid)),
        agent_ready(*final(agent)),
        final(grid).is_standard(),
        events_inside(*old(grid)) ==> events_inside(*final(grid)),
{
    proof {
        agent.animation.lemma_length_fits();
    }
    agent.advance_animation_state();
    let ghost a = *agent;
    let due = match &agent.active_task {
        Some(c) => Some(c.end_tick),
        None => None,
    };
    match due {
        Some(end_tick) => {
            if game_tick < end_tick {
                return ;
            }
            let ghost g0 = *grid;
            proof {
                lemma_standard_admissible(*agent, *grid);
            }
            advance_task(agent, grid);
            let ghost m = *agent;
            assert(task_advanced(a, g0, m, *grid));
            let done = match &agent.active_task {
                Some(c) => c.completed,
                None => true,
            };
            if !done {
                return ;
            }
            agent.active_task = None;
            assert(*agent == Agent { active_task: None, ..m });
        },
        None => {},
    }
    start_next_task(agent, grid, game_tick);
}

/// Every agent is ready.
pub open spec fn agents_ready(agents: Seq<Agent>) -> bool {
    forall|i: int| 0 <= i < agents.len() ==> agent_ready(#[trigger] agents[i])
}

/// One tick of the game for each of the agents `a0` in turn, from the grid `g0` to `g1`.
pub open spec fn agents_ticked(a0: Seq<Agent>, g0: Grid, tick: int, a1: Seq<Agent>, g1: Grid) -> bool {
    &&& a1.len() == a0.len()
    &&& exists|gs: Seq<Grid>|
        #![trigger gs.len()]
        gs.len() == a0.len() + 1 && gs[0] == g0 && gs.last() == g1 && forall|i: int|
            0 <= i < a0.len() ==> agent_ticked(a0[i], gs[i], tick, a1[i], #[trigger] gs[i + 1])
}

/// Runs one tick of the game for every agent, in order (see `agent_ticked`).
pub fn tick_agents(agents: &mut Vec<Agent>, grid: &mut Grid, game_tick: u32)
    requires
        agents_ready(old(agents)@),
        old(grid).is_standard(),
        events_inside(*old(grid)),
        game_tick + 20 <= u32::MAX,
    ensures
        agents_ticked(old(agents)@, *old(grid), game_tick as int, final(agents)@, *final(grid)),
        agents_ready(final(agents)@),
        final(grid).is_standard(),
        events_inside(*final(grid)),
{
    let ghost a0 = agents@;
    let ghost g0 = *grid;
    let mut pending: Vec<Agent> = Vec::new();
    std::mem::swap(&mut pending, agents);
    let mut done: Vec<Agent> = Vec::new();
    let ghost mut gs: Seq<Grid> = seq![*grid];
    while pending.len() > 0
        invariant
            done@.len() + pending@.len() == a0.len(),
            forall|i: int| 0 <= i < pending@.len() ==> pending@[i] == a0[done@.len() + i],
            agents_ready(pending@),
            agents_ready(done@),
            grid.is_standard(),
            events_inside(*grid),
            game_tick + 20 <= u32::MAX,
            gs.len() == done@.len() + 1,
            gs[0] == g0,
            gs.last() == *grid,
            forall|i: int|
                0 <= i < done@.len() ==> agent_ticked(a0[i], gs[i], game_tick as int, done@[i], #[trigger] gs[i + 1]),
        decreases pending@.len(),
    {
        let ghost before = pending@;
        let mut a = pending.remove(0);
        assert(agent_ready(before[0]));
        let ghost g_before = *grid;
        update_agent(&mut a, grid, game_tick);
        done.push(a);
        proof {
            gs = gs.push(*grid);
            assert forall|i: int| 0 <= i < pending@.len() implies pending@[i] == a0[done@.len() + i] by {
                assert(pending@[i] == before[i + 1]);
            }
            assert forall|i: int| 0 <= i < done@.len() implies agent_ticked(a0[i], gs[i], game_tick as int, done@[i], #[trigger] gs[i + 1]) by {
                if i == done@.len() - 1 {
                    assert(gs[i] == g_before);
                }
            }
        }
    }
    *agents = done;
    proof {
        assert(gs.len() == a0.len() + 1);
    }
}

/// Queues the task that `event` carries behind the tasks of the agent it names.
pub fn handle_agent_event(agents: &mut Vec<Agent>, event: AgentEvent)
    requires
        match event {
            AgentEvent::AgentAddTask { agent, .. } => agent < old(agents)@.len(),
        },
    ensures
        final(agents)@.len() == old(agents)@.len(),
        match event {
            AgentEvent::AgentAddTask { task, agent } => {
                &&& final(agents)@[agent as int].tasks@ == old(agents)@[agent as int].tasks@.push(task)
                &&& final(agents)@[agent as int] == Agent {
                    tasks: final(agents)@[agent as int].tasks,
                    ..old(agents)@[agent as int]
                }
                &&& forall|i: int|
                    0 <= i < old(agents)@.len() && i != agent ==> final(agents)@[i] == old(agents)@[i]
            },
        },
{
    match event {
        AgentEvent::AgentAddTask { task, agent } => {
            let mut a = agents.remove(agent);
            a.tasks.push(task);
            agents.insert(agent, a);
        },
    }
}

/// The water of `g` before handling `events`, one after the other.
pub open spec fn water_after_events(g: Grid, events: Seq<GridChangeEvent>) -> Seq<crate::Pos>
    decreases events.len(),
{
    if events.len() == 0 {
        g.water_of()
    } else {
        let e = events.last();
        let before = water_after_events(g, events.drop_last());
        match e {
            GridChangeEvent::Delete(pos) => before + water_among(g.world(), face_neighbours(pos)),
        }
    }
}

proof fn lemma_water_among_cubes(w1: crate::water::WaterWorld, w2: crate::water::WaterWorld, s: Seq<crate::Pos>)
    requires
        w1.cubes == w2.cubes,
    ensures
        water_among(w1, s) == water_among(w2, s),
    decreases s.len(),
{
    if s.len() > 0 {
        lemma_water_among_cubes(w1, w2, s.drop_last());
    }
}

/// Takes the events the grid has published and lets the water react to each, oldest first.
pub fn handle_grid_events(grid: &mut Grid)
    requires
        old(grid).is_standard(),
        events_inside(*old(grid)),
    ensures
        final(grid).is_standard(),
        final(grid).grid@ == old(grid).grid@,
        final(grid).events_of() == Seq::<GridChangeEvent>::empty(),
        final(grid).water_of() == water_after_events(*old(grid), old(grid).events_of()),
{
    let ghost g0 = *grid;
    let mut queue = grid.take_events();
    let ghost all = queue.cube_events@;
    while queue.cube_events.len() > 0
        invariant
            grid.is_standard(),
            grid.grid@ == g0.grid@,
            grid.events_of() == Seq::<GridChangeEvent>::empty(),
            all == g0.events_of(),
            events_inside(g0),
            queue.cube_events@.len() <= all.len(),
            queue.cube_events@ == all.skip(all.len() - queue.cube_events@.len()),
            grid.water_of() == water_after_events(g0, all.take(all.len() - queue.cube_events@.len())),
            grid.world().cubes == g0.world().cubes,
        decreases queue.cube_events@.len(),
    {
        let ghost q0 = queue.cube_events@;
        let ghost done_n = all.len() - q0.len();
        let event = match queue.next_event() {
            Some(e) => e,
            None => {
                proof {
                    assert(false);
                }
                return ;
            },
        };
        proof {
            assert(event == all[done_n]);
            match event {
                GridChangeEvent::Delete(p) => {
                    assert(in_box(p)) by {
                        assert(g0.events_of()[done_n] == event);
                    }
                },
            }
            assert(all.take(done_n + 1).drop_last() =~= all.take(done_n));
            assert(queue.cube_events@ =~= all.skip(done_n + 1));
        }
        let ghost before = *grid;
        grid.handle_grid_change_event(&event);
        proof {
            match event {
                GridChangeEvent::Delete(p) => {
                    lemma_water_among_cubes(before.world(), g0.world(), face_neighbours(p));
                },
            }
        }
    }
    proof {
        assert(all.take(all.len() as int) =~= all);
    }
}

/// Whether `t` can be carried out without leaving the world (see `task_valid`).
pub fn is_valid_task(t: &AgentTask) -> (b: bool)
    ensures
        b == task_valid(*t),
{
    match t {
        AgentTask::Move { path, destination } => {
            assert(*t == AgentTask::Move { path: *path, destination: *destination });
            if path.len() == 0 {
                return false;
            }
            let mut i: usize = 0;
            while i < path.len()
                invariant
                    *t == (AgentTask::Move { path: *path, destination: *destination }),
                    i <= path@.len(),
                    forall|k: int| 0 <= k < i ==> in_box(#[trigger] path@[k]) && path@[k].2 >= 1,
                decreases path@.len() - i,
            {
                let p = path[i];
                if !(p.0 < GRID_WIDTH && p.1 < GRID_WIDTH && p.2 < GRID_HEIGHT && p.2 >= 1) {
                    assert(!task_valid(*t)) by {
                        assert(!(in_box(path@[i as int]) && path@[i as int].2 >= 1));
                    }
                    return false;
                }
                i = i + 1;
            }
            true
        },
        AgentTask::FindPath { .. } => true,
        AgentTask::Plough { target } => target.0 < GRID_WIDTH && target.1 < GRID_WIDTH && target.2
            < GRID_HEIGHT,
        AgentTask::Dig { target } => target.0 < GRID_WIDTH && target.1 < GRID_WIDTH && target.2
            < GRID_HEIGHT,
        AgentTask::Place { target, .. } => target.0 < GRID_WIDTH && target.1 < GRID_WIDTH
            && target.2 < GRID_HEIGHT,
    }
}

/// One tick of the game loop: the water reacts to the grid's changes, the request that
/// arrived (if any) is queued unless its task reaches outside the world (such a task could
/// never be carried out and is dropped), and every agent takes its turn.
pub fn run_tick(
    agents: &mut Vec<Agent>,
    grid: &mut Grid,
    event: Option<AgentEvent>,
    game_tick: u32,
)
    requires
        agents_ready(old(agents)@),
        old(grid).is_standard(),
        events_inside(*old(grid)),
        game_tick + 20 <= u32::MAX,
        event matches Some(AgentEvent::AgentAddTask { agent, .. }) ==> agent < old(agents)@.len(),
    ensures
        agents_ready(final(agents)@),
        final(grid).is_standard(),
        events_inside(*final(grid)),
        final(agents)@.len() == old(agents)@.len(),
        exists|a_mid: Seq<Agent>, g_mid: Grid|
            #![trigger agents_ticked(a_mid, g_mid, game_tick as int, final(agents)@, *final(grid))]
            {
                &&& g_mid.grid@ == old(grid).grid@
                &&& g_mid.events_of() == Seq::<GridChangeEvent>::empty()
                &&& g_mid.water_of() == water_after_events(*old(grid), old(grid).events_of())
                &&& g_mid.is_standard()
                &&& match event {
                    Some(AgentEvent::AgentAddTask { task, agent }) if task_valid(task) => {
                        &&& a_mid.len() == old(agents)@.len()
                        &&& a_mid[agent as int] == Agent {
                            tasks: a_mid[agent as int].tasks,
                            ..old(agents)@[agent as int]
                        }
                        &&& a_mid[agent as int].tasks@ == old(agents)@[agent as int].tasks@.push(task)
                        &&& forall|i: int|
                            0 <= i < old(agents)@.len() && i != agent ==> a_mid[i] == old(agents)@[i]
                    },
                    _ => a_mid == old(agents)@,
                }
                &&& agents_ticked(a_mid, g_mid, game_tick as int, final(agents)@, *final(grid))
            },
{
    handle_grid_events(grid);
    proof {
        assert(events_inside(*grid));
    }
    let event = match event {
        Some(AgentEvent::AgentAddTask { task, agent }) => if is_valid_task(&task) {
            Some(AgentEvent::AgentAddTask { task, agent })
        } else {
            None
        },
        None => None,
    };
    match event {
        Some(e) => {
            let ghost before = agents@;
            let ghost eg = e;
            handle_agent_event(agents, e);
            proof {
                match eg {
                    AgentEvent::AgentAddTask { task, agent } => {
                        assert forall|i: int| 0 <= i < agents@.len() implies agent_ready(#[trigger] agents@[i]) by {
                            if i != agent {
                                assert(agents@[i] == before[i]);
                            } else {
                                assert(agent_ready(before[i]));
                                assert forall|k: int| 0 <= k < agents@[i].tasks@.len() implies task_valid(#[trigger] agents@[i].tasks@[k]) by {
                                    if k < before[i].tasks@.len() {
                                        assert(agents@[i].tasks@[k] == before[i].tasks@[k]);
                                    }
                                }
                            }
                        }
                    },
                }
            }
        },
        None => {},
    }
    let ghost a_mid = agents@;
    let ghost g_mid = *grid;
    tick_agents(agents, grid, game_tick);
}

pub(crate) fn frames_in_order(a: &Animation) -> (b: bool)
    ensures
        b == frames_ok(*a),
{
    match a {
        Animation::CompassAwareAnimation { frames_ne, frames_se, frames_sw, frames_nw, .. } => {
            frames_ne.len() >= 1 && frames_se.len() == frames_ne.len() && frames_sw.len()
                == frames_ne.len() && frames_nw.len() == frames_ne.len()
        },
        Animation::CameraFacingAnimation { frames, .. } => frames.len() >= 1,
    }
}

/// Whether the pool holds the four animations agents use, each with its frames in order
/// (see `pool_ready`).
pub fn is_pool_ready(pool: &AnimationPool) -> (b: bool)
    ensures
        b == pool_ready(*pool),
{
    proof {
        reveal_strlit("idle");
        reveal_strlit("running");
        reveal_strlit("ploughing");
        reveal_strlit("mining");
        assert("idle"@ =~= idle_name());
        assert("running"@ =~= running_name());
        assert("ploughing"@ =~= ploughing_name());
        assert("mining"@ =~= mining_name());
    }
    if pool.get("idle").is_none() || pool.get("running").is_none() || pool.get("ploughing").is_none()
        || pool.get("mining").is_none() {
        return false;
    }
    let mut i: usize = 0;
    while i < pool.animations.len()
        invariant
            i <= pool.animations@.len(),
            forall|k: int| 0 <= k < i ==> frames_ok(*#[trigger] pool.animations@[k]),
        decreases pool.animations@.len() - i,
    {
        if !frames_in_order(&pool.animations[i]) {
            assert(!frames_ok(*pool.animations@[i as int]));
            return false;
        }
        i = i + 1;
    }
    true
}

/// Whether the agent is ready for the game loop (see `agent_ready`).
pub fn is_agent_ready(a: &Agent) -> (b: bool)
    ensures
        b == agent_ready(*a),
{
    let p = a.position;
    if !(p.0 < GRID_WIDTH && p.1 < GRID_WIDTH && p.2 < GRID_HEIGHT && p.2 >= 1) {
        return false;
    }
    match a.destination {
        Some(d) => if !(d.0 < GRID_WIDTH && d.1 < GRID_WIDTH && d.2 < GRID_HEIGHT && d.2 >= 1) {
            return false;
        },
        None => {},
    }
    let mut i: usize = 0;
    while i < a.tasks.len()
        invariant
            i <= a.tasks@.len(),
            forall|k: int| 0 <= k < i ==> task_valid(#[trigger] a.tasks@[k]),
        decreases a.tasks@.len() - i,
    {
        if !is_valid_task(&a.tasks[i]) {
            assert(!task_valid(a.tasks@[i as int]));
            return false;
        }
        i = i + 1;
    }
    match &a.active_task {
        Some(c) => if c.completed || !is_valid_task(&c.task) {
            return false;
        },
        None => {},
    }
    is_pool_ready(&a.animation_pool) && frames_in_order(&a.animation) && a.animation_state
        < a.animation.length()
}

/// Whether every agent is ready (see `agents_ready`).
pub fn are_agents_ready(agents: &Vec<Agent>) -> (b: bool)
    ensures
        b == agents_ready(agents@),
{
    let mut i: usize = 0;
    while i < agents.len()
        invariant
            i <= agents@.len(),
            forall|k: int| 0 <= k < i ==> agent_ready(#[trigger] agents@[k]),
        decreases agents@.len() - i,
    {
        if !is_agent_ready(&agents[i]) {
            return false;
        }
        i = i + 1;
    }
    true
}

/// Whether every event the grid has published names a position inside the world (see
/// `events_inside`).
pub fn are_events_inside(grid: &Grid) -> (b: bool)
    ensures
        b == events_inside(*grid),
{
    let mut i: usize = 0;
    while i < grid.events.cube_events.len()
        invariant
            i <= grid.events_of().len(),
            forall|k: int|
                0 <= k < i ==> match #[trigger] grid.events_of()[k] {
                    GridChangeEvent::Delete(p) => in_box(p),
                },
        decreases grid.events_of().len() - i,
    {
        match grid.events.cube_events[i] {
            GridChangeEvent::Delete(p) => if !(p.0 < GRID_WIDTH && p.1 < GRID_WIDTH && p.2
                < GRID_HEIGHT) {
                return false;
            },
        }
        i = i + 1;
    }
    true
}

} // verus!
