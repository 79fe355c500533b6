//! How water moves: it falls into empty cells, tops up the water below it, and levels out
//! with its neighbours on the same level.

use vstd::prelude::*;

use crate::events::GridChangeEvent;
use crate::grid::{
    lemma_in_box_index, emptied, find_face_neighbours, find_horizontal_neighbours, face_neighbours,
    horizontal_neighbours, in_box, pos_index, Cube, Grid, FULL_WATER, MIN_WATER,
    WATER_TOLERANCE,
};
use crate::{Pos, EMPTY_CUBE, GRID_HEIGHT, GRID_WIDTH, WATER_CUBE};

verus! {

/// The state that moving water reads and changes: the cubes of a world of the standard
/// size, the events published, and the queue of water still to move.
pub struct WaterWorld {
    pub cubes: Seq<Cube>,
    pub events: Seq<GridChangeEvent>,
    pub water: Seq<Pos>,
}

impl Grid {
    pub open spec fn world(&self) -> WaterWorld {
        WaterWorld { cubes: self.grid@, events: self.events_of(), water: self.water_of() }
    }
}

/// The index of `p` in a world of the standard size.
pub open spec fn sidx(p: Pos) -> int {
    pos_index(p, GRID_WIDTH as int)
}

pub open spec fn cube_of(w: WaterWorld, p: Pos) -> Cube {
    w.cubes[sidx(p)]
}

pub open spec fn with_cube(w: WaterWorld, p: Pos, c: Cube) -> WaterWorld {
    WaterWorld { cubes: w.cubes.update(sidx(p), c), ..w }
}

/// `Grid::delete_cube` on a world.
pub open spec fn delete_in(w: WaterWorld, p: Pos) -> WaterWorld {
    WaterWorld {
        cubes: w.cubes.update(sidx(p), emptied(cube_of(w, p))),
        events: if cube_of(w, p).agent is None {
            w.events.push(GridChangeEvent::Delete(p))
        } else {
            w.events
        },
        water: w.water,
    }
}

/// `Grid::move_cube` on a world.
pub open spec fn move_in(w: WaterWorld, from: Pos, to: Pos) -> WaterWorld {
    if from == to {
        w
    } else {
        delete_in(with_cube(w, to, cube_of(w, from)), from)
    }
}

pub open spec fn enqueue(w: WaterWorld, p: Pos) -> WaterWorld {
    WaterWorld { water: w.water.push(p), ..w }
}

pub open spec fn with_level(w: WaterWorld, p: Pos, level: u32) -> WaterWorld {
    with_cube(w, p, Cube { water_level: level, ..cube_of(w, p) })
}

/// The cube at `p` becomes water holding `level`.
pub open spec fn flooded(w: WaterWorld, p: Pos, level: u32) -> WaterWorld {
    with_cube(w, p, Cube { water_level: level, cube_type: WATER_CUBE, ..cube_of(w, p) })
}

/// The two levels are not level with each other.
pub open spec fn level_differs(a: int, b: int) -> bool {
    a + WATER_TOLERANCE < b || a > b + WATER_TOLERANCE
}

/// `v`, or the largest water level when `v` is larger.
pub open spec fn capped(v: int) -> u32 {
    if v > u32::MAX {
        u32::MAX
    } else {
        v as u32
    }
}

/// The positions of `ns`, in order, that hold water or nothing and are not level with
/// `level`.
pub open spec fn levelling_partners(w: WaterWorld, level: u32, ns: Seq<Pos>) -> Seq<Pos>
    decreases ns.len(),
{
    if ns.len() == 0 {
        Seq::empty()
    } else {
        let prev = levelling_partners(w, level, ns.drop_last());
        let c = cube_of(w, ns.last());
        if (c.cube_type == WATER_CUBE || c.cube_type == EMPTY_CUBE) && level_differs(
            c.water_level as int,
            level as int,
        ) {
            prev.push(ns.last())
        } else {
            prev
        }
    }
}

/// The water held by the cubes at `s`.
pub open spec fn total_level(w: WaterWorld, s: Seq<Pos>) -> int
    decreases s.len(),
{
    if s.len() == 0 {
        0
    } else {
        total_level(w, s.drop_last()) + cube_of(w, s.last()).water_level
    }
}

/// Each target in turn becomes water at `volume` and joins the queue, or dries up (is
/// deleted) when `volume` is too thin.
pub open spec fn settle_all(w: WaterWorld, targets: Seq<Pos>, volume: u32) -> WaterWorld
    decreases targets.len(),
{
    if targets.len() == 0 {
        w
    } else {
        let w1 = settle_all(w, targets.drop_last(), volume);
        let c = targets.last();
        if volume > MIN_WATER {
            enqueue(flooded(w1, c, volume), c)
        } else {
            delete_in(w1, c)
        }
    }
}

/// The cell under `p`.
pub open spec fn below(p: Pos) -> Pos {
    (p.0, p.1, (p.2 - 1) as usize)
}

/// One move of the water at `p` (already taken off the queue): the new world, and whether
/// the whole update stops here.
///
/// - Over an empty cell the cube falls into it and stays in the queue.
/// - Over water that is not full it tops that water up: what does not fit stays above and
///   in the queue; when all of it fits the cube above is deleted.
/// - Otherwise it levels out with the neighbours on its level that hold water or nothing
///   and differ from it: they (and the cube itself, when it differs from the result) get
///   the volume of the cube and those neighbours divided by the number of neighbours, and
///   join the queue; when that volume is too thin they dry up instead. With no such
///   neighbour the update stops.
pub open spec fn water_step(w: WaterWorld, p: Pos) -> (WaterWorld, bool) {
    let b = below(p);
    let cb = cube_of(w, b);
    let above = cube_of(w, p);
    if cb.cube_type == EMPTY_CUBE {
        (enqueue(move_in(w, p, b), b), false)
    } else if cb.cube_type == WATER_CUBE && cb.water_level != FULL_WATER {
        let diff = FULL_WATER - cb.water_level;
        if above.water_level > diff {
            (
                enqueue(
                    with_level(with_level(w, p, capped(above.water_level - diff)), b, FULL_WATER),
                    p,
                ),
                false,
            )
        } else {
            (delete_in(with_level(w, b, (cb.water_level + above.water_level) as u32), p), false)
        }
    } else {
        let partners = levelling_partners(w, above.water_level, horizontal_neighbours(p));
        if partners.len() == 0 {
            (w, true)
        } else {
            let volume = (capped(above.water_level + total_level(w, partners)) / (
            partners.len() as u32)) as u32;
            let targets = if level_differs(above.water_level as int, volume as int) {
                partners.push(p)
            } else {
                partners
            };
            (settle_all(w, targets, volume), false)
        }
    }
}

/// Takes the first water cube off the queue.
pub open spec fn dequeued(w: WaterWorld) -> WaterWorld {
    WaterWorld { water: w.water.drop_first(), ..w }
}

/// `n` moves of queued water, stopping early when a move says so.
pub open spec fn water_run(w: WaterWorld, n: nat) -> WaterWorld
    decreases n,
{
    if n == 0 || w.water.len() == 0 {
        w
    } else {
        let r = water_step(dequeued(w), w.water[0]);
        if r.1 {
            r.0
        } else {
            water_run(r.0, (n - 1) as nat)
        }
    }
}

/// Every water cube that the run moves lies inside the world and above its floor (water
/// on the floor has no cell beneath it to look at).
pub open spec fn water_run_safe(w: WaterWorld, n: nat) -> bool
    decreases n,
{
    if n == 0 || w.water.len() == 0 {
        true
    } else {
        let p = w.water[0];
        let r = water_step(dequeued(w), p);
        &&& in_box(p)
        &&& p.2 >= 1
        &&& (r.1 || water_run_safe(r.0, (n - 1) as nat))
    }
}

proof fn lemma_horizontal_neighbours_inside(p: Pos)
    requires
        in_box(p),
    ensures
        forall|k: int| 0 <= k < horizontal_neighbours(p).len() ==> in_box(
            #[trigger] horizontal_neighbours(p)[k],
        ) && horizontal_neighbours(p)[k].2 == p.2,
        horizontal_neighbours(p).len() <= 4,
{
    let x = crate::grid::signed(p.0);
    let y = crate::grid::signed(p.1);
    let z = p.2;
    let s1 = crate::grid::push_if_inside_xy(Seq::empty(), x - 1, y, z);
    let s2 = crate::grid::push_if_inside_xy(s1, x + 1, y, z);
    let s3 = crate::grid::push_if_inside_xy(s2, x, y - 1, z);
    let s4 = crate::grid::push_if_inside_xy(s3, x, y + 1, z);
    assert(forall|k: int| 0 <= k < s1.len() ==> in_box(#[trigger] s1[k]) && s1[k].2 == z);
    assert(forall|k: int| 0 <= k < s2.len() ==> in_box(#[trigger] s2[k]) && s2[k].2 == z);
    assert(forall|k: int| 0 <= k < s3.len() ==> in_box(#[trigger] s3[k]) && s3[k].2 == z);
    assert(forall|k: int| 0 <= k < s4.len() ==> in_box(#[trigger] s4[k]) && s4[k].2 == z);
}

proof fn lemma_partners_from(w: WaterWorld, level: u32, ns: Seq<Pos>)
    ensures
        forall|k: int| 0 <= k < levelling_partners(w, level, ns).len() ==> ns.contains(
            #[trigger] levelling_partners(w, level, ns)[k],
        ),
        levelling_partners(w, level, ns).len() <= ns.len(),
    decreases ns.len(),
{
    if ns.len() > 0 {
        lemma_partners_from(w, level, ns.drop_last());
        let prev = levelling_partners(w, level, ns.drop_last());
        assert forall|k: int| 0 <= k < levelling_partners(w, level, ns).len() implies ns.contains(
            #[trigger] levelling_partners(w, level, ns)[k],
        ) by {
            if k < prev.len() {
                let j = choose|j: int| 0 <= j < ns.drop_last().len() && ns.drop_last()[j] == prev[k];
                assert(ns[j] == prev[k]);
            } else {
                assert(ns[ns.len() - 1] == ns.last());
            }
        }
    }
}

proof fn lemma_total_level_nonneg(w: WaterWorld, s: Seq<Pos>)
    ensures
        total_level(w, s) >= 0,
    decreases s.len(),
{
    if s.len() > 0 {
        lemma_total_level_nonneg(w, s.drop_last());
    }
}

proof fn lemma_settle_keeps_queue(w: WaterWorld, targets: Seq<Pos>, volume: u32)
    ensures
        settle_all(w, targets, volume).water.len() >= w.water.len(),
    decreases targets.len(),
{
    if targets.len() > 0 {
        lemma_settle_keeps_queue(w, targets.drop_last(), volume);
    }
}

proof fn lemma_step_keeps_queue(w: WaterWorld, p: Pos)
    ensures
        water_step(w, p).0.water.len() >= w.water.len(),
{
    let partners = levelling_partners(w, cube_of(w, p).water_level, horizontal_neighbours(p));
    if partners.len() > 0 {
        let volume = (capped(cube_of(w, p).water_level + total_level(w, partners)) / (
        partners.len() as u32)) as u32;
        lemma_settle_keeps_queue(w, partners, volume);
        lemma_settle_keeps_queue(w, partners.push(p), volume);
    }
}

/// The positions of `s`, in order, whose cubes are water.
pub open spec fn water_among(w: WaterWorld, s: Seq<Pos>) -> Seq<Pos>
    decreases s.len(),
{
    if s.len() == 0 {
        Seq::empty()
    } else if cube_of(w, s.last()).cube_type == WATER_CUBE {
        water_among(w, s.drop_last()).push(s.last())
    } else {
        water_among(w, s.drop_last())
    }
}

proof fn lemma_face_neighbours_inside(p: Pos)
    ensures
        forall|k: int| 0 <= k < face_neighbours(p).len() ==> in_box(#[trigger] face_neighbours(p)[k]),
{
    let x = crate::grid::signed(p.0);
    let y = crate::grid::signed(p.1);
    let z = crate::grid::signed(p.2);
    let s1 = crate::grid::push_if_inside(Seq::empty(), x - 1, y, z);
    let s2 = crate::grid::push_if_inside(s1, x + 1, y, z);
    let s3 = crate::grid::push_if_inside(s2, x, y - 1, z);
    let s4 = crate::grid::push_if_inside(s3, x, y + 1, z);
    let s5 = crate::grid::push_if_inside(s4, x, y, z - 1);
    let s6 = crate::grid::push_if_inside(s5, x, y, z + 1);
    assert(forall|k: int| 0 <= k < s1.len() ==> in_box(#[trigger] s1[k]));
    assert(forall|k: int| 0 <= k < s2.len() ==> in_box(#[trigger] s2[k]));
    assert(forall|k: int| 0 <= k < s3.len() ==> in_box(#[trigger] s3[k]));
    assert(forall|k: int| 0 <= k < s4.len() ==> in_box(#[trigger] s4[k]));
    assert(forall|k: int| 0 <= k < s5.len() ==> in_box(#[trigger] s5[k]));
    assert(forall|k: int| 0 <= k < s6.len() ==> in_box(#[trigger] s6[k]));
}

impl Grid {
    /// Reacts to a change of the grid: when a cube was deleted, the water cubes next to it
    /// (in the order of `face_neighbours`) join the queue of moving water.
    pub fn handle_grid_change_event(&mut self, event: &GridChangeEvent)
        requires
            old(self).is_standard(),
            match *event {
                GridChangeEvent::Delete(pos) => crate::grid::steppable(pos.0)
                    && crate::grid::steppable(pos.1) && crate::grid::steppable(pos.2),
            },
        ensures
            final(self).is_standard(),
            final(self).grid@ == old(self).grid@,
            final(self).events_of() == old(self).events_of(),
            final(self).water_of() == match *event {
                GridChangeEvent::Delete(pos) => old(self).water_of() + water_among(
                    old(self).world(),
                    face_neighbours(pos),
                ),
            },
    {
        match event {
            GridChangeEvent::Delete(pos) => {
                let neighbours = find_face_neighbours(*pos);
                proof {
                    lemma_face_neighbours_inside(*pos);
                }
                let ghost w = self.world();
                let mut k: usize = 0;
                while k < neighbours.len()
                    invariant
                        self.is_standard(),
                        self.grid@ == w.cubes,
                        self.events_of() == w.events,
                        neighbours@ == face_neighbours(*pos),
                        k <= neighbours.len(),
                        self.water_of() == w.water + water_among(w, neighbours@.take(k as int)),
                    decreases neighbours.len() - k,
                {
                    let neighbour = neighbours[k];
                    proof {
                        lemma_in_box_index(neighbour);
                        assert(neighbours@.take(k + 1).drop_last() =~= neighbours@.take(k as int));
                        assert(neighbours@.take(k + 1).last() == neighbour);
                    }
                    if self.get_cube(neighbour).cube_type == WATER_CUBE {
                        self.active_water.push_back(neighbour);
                    }
                    k = k + 1;
                }
                assert(neighbours@.take(neighbours@.len() as int) =~= neighbours@);
            },
        }
    }

    /// Moves the water at `water` once (see `water_step`); returns whether the update stops.
    fn move_water_at(&mut self, water: Pos) -> (stop: bool)
        requires
            old(self).is_standard(),
            in_box(water),
            water.2 >= 1,
        ensures
            final(self).is_standard(),
            (final(self).world(), stop) == water_step(old(self).world(), water),
    {
        let ghost w = self.world();
        proof {
            lemma_in_box_index(water);
            lemma_in_box_index(below(water));
        }
        let below = (water.0, water.1, water.2 - 1);
        let cube_below = *self.get_cube(below);
        if cube_below.cube_type == EMPTY_CUBE {
            self.move_cube(water, below);
            self.active_water.push_back(below);
            assert(self.world() == enqueue(move_in(w, water, below), below));
            return false;
        }
        if cube_below.cube_type == WATER_CUBE && cube_below.water_level != FULL_WATER {
            let mut above = *self.get_cube(water);
            let below_level = cube_below.water_level;
            if below_level > FULL_WATER || above.water_level > FULL_WATER - below_level {
                let new_level = if below_level > FULL_WATER {
                    above.water_level.saturating_add(below_level - FULL_WATER)
                } else {
                    above.water_level - (FULL_WATER - below_level)
                };
                above.water_level = new_level;
                self.set_cube(water, above);
                let mut filled = *self.get_cube(below);
                filled.water_level = FULL_WATER;
                self.set_cube(below, filled);
                self.active_water.push_back(water);
                assert(self.world() == enqueue(
                    with_level(
                        with_level(w, water, capped(cube_of(w, water).water_level - (FULL_WATER
                            - cube_below.water_level))),
                        below,
                        FULL_WATER,
                    ),
                    water,
                ));
            } else {
                let mut topped = cube_below;
                topped.water_level = below_level + above.water_level;
                self.set_cube(below, topped);
                self.delete_cube(water);
                assert(self.world() == delete_in(
                    with_level(w, below, (cube_below.water_level + cube_of(w, water).water_level) as u32),
                    water,
                ));
            }
            return false;
        }
        let current_water = *self.get_cube(water);
        let neighbours = find_horizontal_neighbours(water);
        proof {
            lemma_horizontal_neighbours_inside(water);
        }
        let mut changed: Vec<Pos> = Vec::new();
        let mut volume_available: u32 = current_water.water_level;
        let mut k: usize = 0;
        while k < neighbours.len()
            invariant
                self.world() == w,
                self.is_standard(),
                current_water == cube_of(w, water),
                neighbours@ == horizontal_neighbours(water),
                forall|j: int| 0 <= j < neighbours@.len() ==> in_box(#[trigger] neighbours@[j]),
                k <= neighbours.len(),
                changed@ == levelling_partners(w, current_water.water_level, neighbours@.take(k as int)),
                volume_available == capped(current_water.water_level + total_level(w, changed@)),
            decreases neighbours.len() - k,
        {
            let n = neighbours[k];
            proof {
                lemma_in_box_index(n);
                assert(neighbours@.take(k + 1).drop_last() =~= neighbours@.take(k as int));
                assert(neighbours@.take(k + 1).last() == n);
            }
            let neighbour_cube = *self.get_cube(n);
            if (neighbour_cube.cube_type == WATER_CUBE || neighbour_cube.cube_type == EMPTY_CUBE)
                && ((neighbour_cube.water_level as u64) + (WATER_TOLERANCE as u64)
                < current_water.water_level as u64 || neighbour_cube.water_level as u64
                > (current_water.water_level as u64) + (WATER_TOLERANCE as u64)) {
                let ghost old_changed = changed@;
                proof {
                    assert(old_changed.push(n).drop_last() =~= old_changed);
                    assert(old_changed.push(n).last() == n);
                    assert(total_level(w, old_changed.push(n)) == total_level(w, old_changed)
                        + cube_of(w, n).water_level);
                }
                assert(neighbour_cube == cube_of(w, n));
                proof {
                    lemma_total_level_nonneg(w, old_changed);
                }
                changed.push(n);
                volume_available = volume_available.saturating_add(neighbour_cube.water_level);
                assert(volume_available == capped(current_water.water_level + total_level(w, changed@)));
            }
            k = k + 1;
        }
        assert(neighbours@.take(neighbours@.len() as int) =~= neighbours@);
        if changed.len() == 0 {
            return true;
        }
        proof {
            lemma_partners_from(w, current_water.water_level, horizontal_neighbours(water));
        }
        let volume: u32 = volume_available / (changed.len() as u32);
        if (current_water.water_level as u64) + (WATER_TOLERANCE as u64) < volume as u64
            || current_water.water_level as u64 > (volume as u64) + (WATER_TOLERANCE as u64) {
            changed.push(water);
        }
        let ghost targets = changed@;
        assert(forall|j: int| 0 <= j < targets.len() ==> in_box(#[trigger] targets[j]));
        let mut t: usize = 0;
        while t < changed.len()
            invariant
                self.is_standard(),
                changed@ == targets,
                forall|j: int| 0 <= j < targets.len() ==> in_box(#[trigger] targets[j]),
                t <= changed.len(),
                self.world() == settle_all(w, targets.take(t as int), volume),
            decreases changed.len() - t,
        {
            let c = changed[t];
            proof {
                lemma_in_box_index(c);
                assert(targets.take(t + 1).drop_last() =~= targets.take(t as int));
                assert(targets.take(t + 1).last() == c);
            }
            if volume > MIN_WATER {
                let mut flood = *self.get_cube(c);
                flood.water_level = volume;
                flood.cube_type = WATER_CUBE;
                self.set_cube(c, flood);
                self.active_water.push_back(c);
            } else {
                self.delete_cube(c);
            }
            t = t + 1;
        }
        assert(targets.take(targets.len() as int) =~= targets);
        false
    }

    /// Moves each water cube that was queued when the update began once (see
    /// `water_step`), in queue order; stops early when a cube finds nothing to level with.
    pub fn update_active_water(&mut self)
        requires
            old(self).is_standard(),
            water_run_safe(old(self).world(), old(self).water_of().len()),
        ensures
            final(self).is_standard(),
            final(self).world() == water_run(old(self).world(), old(self).water_of().len()),
    {
        let ghost w0 = self.world();
        let length = self.active_water.len();
        let mut i: usize = 0;
        while i < length
            invariant
                self.is_standard(),
                i <= length,
                length == w0.water.len(),
                w0 == old(self).world(),
                self.water_of().len() >= length - i,
                water_run(self.world(), (length - i) as nat) == water_run(w0, length as nat),
                water_run_safe(self.world(), (length - i) as nat),
            decreases length - i,
        {
            let ghost before = self.world();
            let water = match self.active_water.pop_front() {
                Some(p) => p,
                None => {
                    proof {
                        assert(false);
                    }
                    return;
                },
            };
            assert(self.world() == dequeued(before));
            proof {
                lemma_step_keeps_queue(dequeued(before), water);
            }
            let stop = self.move_water_at(water);
            assert(water == before.water[0]);
            if stop {
                assert(water_run(before, (length - i) as nat) == self.world());
                assert(self.world() == water_run(w0, length as nat));
                assert(self.is_standard());
                return;
            }
            i = i + 1;
        }
    }

    /// Moves the queued water as `update_active_water` does, checking each water cube
    /// first: when the next one lies outside the world or on its floor, where
    /// `update_active_water` may not be used, it stops there, leaving that cube at the
    /// front of the queue, and returns `false`.
    pub fn try_update_active_water(&mut self) -> (ok: bool)
        requires
            old(self).is_standard(),
        ensures
            final(self).is_standard(),
            ok == water_run_safe(old(self).world(), old(self).water_of().len()),
            ok ==> final(self).world() == water_run(old(self).world(), old(self).water_of().len()),
            !ok ==> final(self).water_of().len() > 0 && !(in_box(final(self).water_of()[0])
                && final(self).water_of()[0].2 >= 1),
    {
        let ghost w0 = self.world();
        let length = self.active_water.len();
        let mut i: usize = 0;
        while i < length
            invariant
                self.is_standard(),
                i <= length,
                length == w0.water.len(),
                w0 == old(self).world(),
                self.water_of().len() >= length - i,
                water_run(self.world(), (length - i) as nat) == water_run(w0, length as nat),
                water_run_safe(self.world(), (length - i) as nat) == water_run_safe(
                    w0,
                    length as nat,
                ),
            decreases length - i,
        {
            let ghost before = self.world();
            let water = self.active_water[0];
            if !(water.0 < GRID_WIDTH && water.1 < GRID_WIDTH && water.2 < GRID_HEIGHT
                && water.2 >= 1) {
                return false;
            }
            let _front = self.active_water.pop_front();
            assert(self.world() == dequeued(before));
            proof {
                lemma_step_keeps_queue(dequeued(before), water);
            }
            let stop = self.move_water_at(water);
            if stop {
                assert(water_run(before, (length - i) as nat) == self.world());
                return true;
            }
            i = i + 1;
        }
        true
    }
}

} // verus!
