//! Firing, and the projectiles' pass with its collision rules.

use vstd::prelude::*;
use crate::executor::{in_bounds, forward_of, Pose, Executor};
use crate::world::{
    WIDTH, HEIGHT, MapPlace, Executors, idx, cell_of, pose_in, distinct_on_grid, lemma_idx, lemma_push_contains,
};

verus! {

/// The list `s` with every entry equal to `t` left out, the rest in order.
pub open spec fn without(s: Seq<(i32, i32)>, t: (i32, i32)) -> Seq<(i32, i32)>
    decreases s.len(),
{
    if s.len() == 0 {
        s
    } else if s.last() == t {
        without(s.drop_last(), t)
    } else {
        without(s.drop_last(), t).push(s.last())
    }
}

/// Drops `t` from a list of distinct coordinates, keeping the others.
fn remove_coord(v: &mut Vec<(i32, i32)>, t: (i32, i32))
    requires
        distinct_on_grid(old(v)@),
    ensures
        final(v)@ == without(old(v)@, t),
        distinct_on_grid(final(v)@),
        !final(v)@.contains(t),
        final(v)@.len() <= old(v)@.len(),
        forall|k: int| 0 <= k < final(v)@.len() ==> old(v)@.contains(#[trigger] final(v)@[k]),
        forall|e: (i32, i32)| old(v)@.contains(e) && e != t ==> final(v)@.contains(e),
{
    let mut out: Vec<(i32, i32)> = Vec::new();
    let mut i: usize = 0;
    while i < v.len()
        invariant
            0 <= i <= v@.len(),
            v@ == old(v)@,
            distinct_on_grid(v@),
            out@.len() <= i,
            forall|k: int| 0 <= k < out@.len() ==> #[trigger] out@[k] != t,
            forall|k: int| 0 <= k < out@.len() ==> exists|j: int| 0 <= j < i && v@[j] == #[trigger] out@[k],
            forall|j: int| 0 <= j < i && v@[j] != t ==> out@.contains(#[trigger] v@[j]),
            forall|k: int| 0 <= k < out@.len() ==> in_bounds(#[trigger] out@[k].0 as int, out@[k].1 as int),
            forall|j: int, k: int| 0 <= j < k < out@.len() ==> #[trigger] out@[j] != #[trigger] out@[k],
            out@ == without(v@.subrange(0, i as int), t),
        decreases v@.len() - i,
    {
        let e = v[i];
        assert(v@.subrange(0, i + 1).drop_last() == v@.subrange(0, i as int));
        if e.0 != t.0 || e.1 != t.1 {
            let ghost before = out@;
            out.push(e);
            proof {
                assert forall|k: int| 0 <= k < before.len() implies #[trigger] out@[k] != e by {
                    assert(out@[k] == before[k]);
                    let j = choose|j: int| 0 <= j < i && v@[j] == before[k];
                    assert(v@[j] != v@[i as int]);
                }
                assert forall|k: int| 0 <= k < out@.len() implies exists|j: int| 0 <= j < i + 1 && v@[j] == #[trigger] out@[k] by {
                    if k < before.len() {
                        assert(out@[k] == before[k]);
                        let j = choose|j: int| 0 <= j < i && v@[j] == before[k];
                        assert(0 <= j < i + 1 && v@[j] == out@[k]);
                    } else {
                        assert(v@[i as int] == out@[k]);
                    }
                }
                assert forall|j: int| 0 <= j < i + 1 && v@[j] != t implies out@.contains(#[trigger] v@[j]) by {
                    if j < i {
                        let k = choose|k: int| 0 <= k < before.len() && before[k] == v@[j];
                        assert(out@[k] == before[k]);
                    } else {
                        assert(out@[before.len() as int] == v@[j]);
                    }
                }
            }
        }
        i = i + 1;
    }
    assert(v@.subrange(0, i as int) == v@);
    proof {
        assert forall|k: int| 0 <= k < out@.len() implies old(v)@.contains(#[trigger] out@[k]) by {
            let j = choose|j: int| 0 <= j < i && v@[j] == out@[k];
        }
        assert forall|e: (i32, i32)| old(v)@.contains(e) && e != t implies out@.contains(e) by {
            let j = choose|j: int| 0 <= j < v@.len() && v@[j] == e;
            assert(v@[j] == e);
        }
    }
    *v = out;
}

/// A projectile fired from `p`: it stands one step ahead, with the firer's
/// heading and the firing flag set.
pub open spec fn shot_from(p: Pose) -> Executor {
    let q = forward_of(p);
    Executor { pose: Some(Pose { x: q.x, y: q.y, heading: p.heading, is_shoot: true }) }
}

/// The grid and projectile index after the vehicle at `f` fires: a
/// projectile appears one step ahead of it when that cell is empty.
pub open spec fn fire_one(g: Seq<MapPlace>, s: Seq<(i32, i32)>, f: (i32, i32)) -> (Seq<MapPlace>, Seq<(i32, i32)>) {
    let c = cell_of(g, f.0 as int, f.1 as int);
    let q = forward_of(pose_in(c));
    if (c is Enemy || c is Player) && cell_of(g, q.x as int, q.y as int) is Place {
        (g.update(idx(q.x as int, q.y as int), MapPlace::Shoot(shot_from(pose_in(c)))), s.push((q.x, q.y)))
    } else {
        (g, s)
    }
}

/// The grid and projectile index after each vehicle of `firers` fires, in
/// order.
pub open spec fn fire_pass(g: Seq<MapPlace>, s: Seq<(i32, i32)>, firers: Seq<(i32, i32)>) -> (Seq<MapPlace>, Seq<(i32, i32)>)
    decreases firers.len(),
{
    if firers.len() == 0 {
        (g, s)
    } else {
        let (g1, s1) = fire_pass(g, s, firers.drop_last());
        fire_one(g1, s1, firers.last())
    }
}

/// Who fires: every indexed enemy, then the player unless the game is lost.
pub open spec fn firers(w: Executors) -> Seq<(i32, i32)> {
    if w.is_lose {
        w.enemy_place@
    } else {
        w.enemy_place@.push((w.player_x, w.player_y))
    }
}

impl Executors {
    /// The vehicle at `(x, y)` fires: where the cell ahead of it is empty a
    /// projectile appears there and is indexed; otherwise nothing happens.
    pub fn fire_from(&mut self, x: i32, y: i32)
        requires
            old(self).grid_wf(),
            old(self).shots_wf(),
            in_bounds(x as int, y as int),
            old(self).cell(x as int, y as int) is Enemy || old(self).cell(x as int, y as int) is Player,
        ensures
            final(self).grid_wf(),
            final(self).shots_wf(),
            final(self).player_x == old(self).player_x,
            final(self).player_y == old(self).player_y,
            final(self).enemy_place == old(self).enemy_place,
            final(self).point == old(self).point,
            final(self).is_lose == old(self).is_lose,
            ({
                let p = pose_in(old(self).cell(x as int, y as int));
                let q = forward_of(p);
                if old(self).cell(q.x as int, q.y as int) is Place {
                    &&& final(self).executors@ == old(self).executors@.update(
                        idx(q.x as int, q.y as int),
                        MapPlace::Shoot(shot_from(p)),
                    )
                    &&& final(self).shoot_place@ == old(self).shoot_place@.push((q.x, q.y))
                } else {
                    &&& final(self).executors@ == old(self).executors@
                    &&& final(self).shoot_place@ == old(self).shoot_place@
                }
            }),
            forall|a: int, b: int|
                in_bounds(a, b) && #[trigger] final(self).cell(a, b) != old(self).cell(a, b) ==> old(
                    self,
                ).cell(a, b) is Place && final(self).cell(a, b) is Shoot,
    {
        let c = self.get_cell(x, y);
        let e = match c {
            MapPlace::Enemy(e) => e,
            MapPlace::Player(e) => e,
            _ => {
                return;
            },
        };
        let p = e.pose.unwrap();
        let q = p.translate_forward();
        if let MapPlace::Place = self.get_cell(q.x, q.y) {
            let shot = Executor::with_pose(Pose { x: q.x, y: q.y, heading: p.heading, is_shoot: true });
            self.set_cell(q.x, q.y, MapPlace::Shoot(shot));
            let ghost before = self.shoot_place@;
            self.shoot_place.push((q.x, q.y));
            proof {
                lemma_push_contains(before, (q.x, q.y));
                assert forall|a: int, b: int| in_bounds(a, b) && (#[trigger] self.cell(a, b)) is Shoot
                    implies self.shoot_place@.contains((a as i32, b as i32)) by {
                    if !(a == q.x && b == q.y) {
                        assert(old(self).cell(a, b) is Shoot);
                    }
                }
            }
            proof {
                assert forall|k: int| 0 <= k < before.len() implies #[trigger] self.shoot_place@[k] != (q.x, q.y) by {
                    assert(self.shoot_place@[k] == before[k]);
                    assert(old(self).cell(before[k].0 as int, before[k].1 as int) is Shoot);
                }
                assert forall|k: int| 0 <= k < self.shoot_place@.len()
                    implies (#[trigger] self.cell(self.shoot_place@[k].0 as int, self.shoot_place@[k].1 as int)) is Shoot by {
                    if k < before.len() {
                        assert(self.shoot_place@[k] == before[k]);
                        assert(old(self).cell(before[k].0 as int, before[k].1 as int) is Shoot);
                    }
                }
                assert forall|k: int| 0 <= k < self.shoot_place@.len()
                    implies in_bounds(#[trigger] self.shoot_place@[k].0 as int, self.shoot_place@[k].1 as int) by {
                    if k < before.len() {
                        assert(self.shoot_place@[k] == before[k]);
                    }
                }
            }
        }
    }

    /// Every indexed enemy fires, then the player unless the game is lost.
    pub fn shoot(&mut self)
        requires
            old(self).wf(),
        ensures
            final(self).wf(),
            final(self).player_x == old(self).player_x,
            final(self).player_y == old(self).player_y,
            final(self).enemy_place == old(self).enemy_place,
            final(self).point == old(self).point,
            final(self).is_lose == old(self).is_lose,
            (final(self).executors@, final(self).shoot_place@) == fire_pass(
                old(self).executors@,
                old(self).shoot_place@,
                firers(*old(self)),
            ),
            old(self).shoot_place@.len() <= final(self).shoot_place@.len(),
            final(self).shoot_place@.subrange(0, old(self).shoot_place@.len() as int)
                == old(self).shoot_place@,
            forall|a: int, b: int|
                in_bounds(a, b) && #[trigger] final(self).cell(a, b) != old(self).cell(a, b) ==> old(
                    self,
                ).cell(a, b) is Place && final(self).cell(a, b) is Shoot,
    {
        let ghost start = *self;
        let n = self.enemy_place.len();
        let mut i: usize = 0;
        while i < n
            invariant
                self.wf(),
                0 <= i <= n,
                n == self.enemy_place@.len(),
                self.player_x == start.player_x,
                self.player_y == start.player_y,
                self.enemy_place == start.enemy_place,
                self.point == start.point,
                self.is_lose == start.is_lose,
                start.shoot_place@.len() <= self.shoot_place@.len(),
                self.shoot_place@.subrange(0, start.shoot_place@.len() as int) == start.shoot_place@,
                forall|a: int, b: int|
                    in_bounds(a, b) && #[trigger] self.cell(a, b) != start.cell(a, b) ==> start.cell(a, b) is Place
                        && self.cell(a, b) is Shoot,
                (self.executors@, self.shoot_place@) == fire_pass(
                    start.executors@,
                    start.shoot_place@,
                    self.enemy_place@.subrange(0, i as int),
                ),
            decreases n - i,
        {
            let (x, y) = self.enemy_place[i];
            self.fire_from(x, y);
            assert(self.enemy_place@.subrange(0, i + 1).drop_last() == self.enemy_place@.subrange(0, i as int));
            i = i + 1;
        }
        assert(self.enemy_place@.subrange(0, n as int) == self.enemy_place@);
        if !self.is_lose {
            let (x, y) = (self.player_x, self.player_y);
            self.fire_from(x, y);
            assert(firers(start).drop_last() == self.enemy_place@);
        }
    }
}

fn has_coord(v: &Vec<(i32, i32)>, t: (i32, i32)) -> (r: bool)
    ensures
        r == v@.contains(t),
{
    let mut i: usize = 0;
    while i < v.len()
        invariant
            0 <= i <= v@.len(),
            forall|j: int| 0 <= j < i ==> #[trigger] v@[j] != t,
        decreases v@.len() - i,
    {
        if v[i].0 == t.0 && v[i].1 == t.1 {
            assert(v@[i as int] == t);
            return true;
        }
        i = i + 1;
    }
    false
}

/// `n + 1`, held at the largest `u64`.
pub open spec fn bump(n: u64) -> u64 {
    if n < u64::MAX { (n + 1) as u64 } else { n }
}

/// What a projectile pass works on: the grid, the enemy index, the score,
/// the loss flag and the index of the projectiles that have advanced.
pub type ShotState = (Seq<MapPlace>, Seq<(i32, i32)>, u64, bool, Seq<(i32, i32)>);

/// The projectile at `(x, y)` advances one step and what it meets is
/// resolved: into an empty cell it moves; against a projectile, its own
/// cell included, both go; against an enemy both go and the score rises;
/// against the player both go and the game is lost; a block absorbs it.
pub open spec fn shot_effect(st: ShotState, x: int, y: int) -> ShotState {
    let (g, es, pt, lose, mv) = st;
    let q = forward_of(pose_in(cell_of(g, x, y)));
    let here = idx(x, y);
    let there = idx(q.x as int, q.y as int);
    let cleared = g.update(there, MapPlace::Place).update(here, MapPlace::Place);
    match cell_of(g, q.x as int, q.y as int) {
        MapPlace::Place => (
            g.update(there, MapPlace::Shoot(Executor { pose: Some(q) })).update(here, MapPlace::Place),
            es,
            pt,
            lose,
            mv.push((q.x, q.y)),
        ),
        MapPlace::Shoot(_) => (cleared, es, pt, lose, without(mv, (q.x, q.y))),
        MapPlace::Enemy(_) => (cleared, without(es, (q.x, q.y)), bump(pt), lose, mv),
        MapPlace::Player(_) => (cleared, es, pt, true, mv),
        MapPlace::Block => (g.update(here, MapPlace::Place), es, pt, lose, mv),
    }
}

/// One entry `t` of the projectile index in a pass: skipped when the
/// projectile there has already advanced or is gone, else advanced.
pub open spec fn shot_one(st: ShotState, t: (i32, i32)) -> ShotState {
    if st.4.contains(t) || !(cell_of(st.0, t.0 as int, t.1 as int) is Shoot) {
        st
    } else {
        shot_effect(st, t.0 as int, t.1 as int)
    }
}

/// A pass over the entries of `list`, in order.
pub open spec fn shots_pass(st: ShotState, list: Seq<(i32, i32)>) -> ShotState
    decreases list.len(),
{
    if list.len() == 0 {
        st
    } else {
        shot_one(shots_pass(st, list.drop_last()), list.last())
    }
}

impl Executors {
    /// Advances the projectile at `(x, y)` one step and resolves what it
    /// meets. `moved` indexes the projectiles that have already advanced in
    /// this pass; a projectile that moves is added to it, one that is
    /// destroyed leaves it.
    pub fn shot_step(&mut self, x: i32, y: i32, moved: &mut Vec<(i32, i32)>)
        requires
            old(self).grid_wf(),
            old(self).enemies_wf(),
            in_bounds(x as int, y as int),
            old(self).cell(x as int, y as int) is Shoot,
            distinct_on_grid(old(moved)@),
            forall|j: int| 0 <= j < old(moved)@.len()
                ==> (#[trigger] old(self).cell(old(moved)@[j].0 as int, old(moved)@[j].1 as int)) is Shoot,
            !old(moved)@.contains((x, y)),
        ensures
            final(self).grid_wf(),
            final(self).enemies_wf(),
            distinct_on_grid(final(moved)@),
            forall|j: int| 0 <= j < final(moved)@.len()
                ==> (#[trigger] final(self).cell(final(moved)@[j].0 as int, final(moved)@[j].1 as int)) is Shoot,
            final(self).player_x == old(self).player_x,
            final(self).player_y == old(self).player_y,
            final(self).shoot_place == old(self).shoot_place,
            (final(self).executors@, final(self).enemy_place@, final(self).point, final(self).is_lose, final(moved)@)
                == shot_effect(
                (old(self).executors@, old(self).enemy_place@, old(self).point, old(self).is_lose, old(moved)@),
                x as int,
                y as int,
            ),
            final(self).point >= old(self).point,
            old(self).is_lose ==> final(self).is_lose,
            forall|a: int, b: int|
                in_bounds(a, b) && (#[trigger] old(self).cell(a, b)) is Block ==> final(self).cell(a, b) is Block,
            forall|a: int, b: int|
                in_bounds(a, b) && (#[trigger] final(self).cell(a, b)) is Shoot ==> final(moved)@.contains(
                    (a as i32, b as i32),
                ) || (old(self).cell(a, b) is Shoot && !(a == x && b == y) && !old(moved)@.contains(
                    (a as i32, b as i32),
                )),
    {
        let c = self.get_cell(x, y);
        let s = match c {
            MapPlace::Shoot(s) => s,
            _ => {
                return;
            },
        };
        let p = s.pose.unwrap();
        let q = p.translate_forward();
        proof {
            lemma_idx(q.x as int, q.y as int, x as int, y as int);
        }
        match self.get_cell(q.x, q.y) {
            MapPlace::Place => {
                self.set_cell(q.x, q.y, MapPlace::Shoot(Executor::with_pose(q)));
                self.set_cell(x, y, MapPlace::Place);
                let ghost before = moved@;
                moved.push((q.x, q.y));
                proof {
                    assert forall|k: int| 0 <= k < before.len() implies #[trigger] moved@[k] != (q.x, q.y) by {
                        assert(moved@[k] == before[k]);
                    }
                    assert forall|j: int| 0 <= j < moved@.len()
                        implies (#[trigger] self.cell(moved@[j].0 as int, moved@[j].1 as int)) is Shoot by {
                        if j < before.len() {
                            assert(moved@[j] == before[j]);
                            assert(before[j] != (x, y));
                        }
                    }
                }
                proof {
                    lemma_push_contains(before, (q.x, q.y));
                }
            },
            MapPlace::Shoot(_) => {
                self.set_cell(q.x, q.y, MapPlace::Place);
                self.set_cell(x, y, MapPlace::Place);
                let ghost before = moved@;
                remove_coord(moved, (q.x, q.y));
                proof {
                    assert forall|j: int| 0 <= j < moved@.len()
                        implies (#[trigger] self.cell(moved@[j].0 as int, moved@[j].1 as int)) is Shoot by {
                        assert(before.contains(moved@[j]));
                        let k = choose|k: int| 0 <= k < before.len() && before[k] == moved@[j];
                        assert(old(self).cell(before[k].0 as int, before[k].1 as int) is Shoot);
                    }
                }
            },
            MapPlace::Enemy(_) => {
                self.set_cell(q.x, q.y, MapPlace::Place);
                self.set_cell(x, y, MapPlace::Place);
                self.point = if self.point < u64::MAX { self.point + 1 } else { self.point };
                let ghost before = self.enemy_place@;
                remove_coord(&mut self.enemy_place, (q.x, q.y));
                proof {
                    assert forall|k: int| 0 <= k < self.enemy_place@.len()
                        implies (#[trigger] self.cell(self.enemy_place@[k].0 as int, self.enemy_place@[k].1 as int)) is Enemy by {
                        let e = self.enemy_place@[k];
                        assert(before.contains(e));
                        let j = choose|j: int| 0 <= j < before.len() && before[j] == e;
                        assert(old(self).cell(before[j].0 as int, before[j].1 as int) is Enemy);
                    }
                }
            },
            MapPlace::Player(_) => {
                self.set_cell(q.x, q.y, MapPlace::Place);
                self.set_cell(x, y, MapPlace::Place);
                self.is_lose = true;
                proof {
                    assert forall|k: int| 0 <= k < self.enemy_place@.len()
                        implies (#[trigger] self.cell(self.enemy_place@[k].0 as int, self.enemy_place@[k].1 as int)) is Enemy by {
                        assert(old(self).cell(self.enemy_place@[k].0 as int, self.enemy_place@[k].1 as int) is Enemy);
                    }
                }
            },
            MapPlace::Block => {
                self.set_cell(x, y, MapPlace::Place);
            },
        }
    }

    /// Advances every indexed projectile one step, resolving collisions, and
    /// rebuilds the projectile index from the projectiles that are left.
    pub fn shoot_move(&mut self)
        requires
            old(self).wf(),
        ensures
            final(self).wf(),
            final(self).player_x == old(self).player_x,
            final(self).player_y == old(self).player_y,
            final(self).point >= old(self).point,
            old(self).is_lose ==> final(self).is_lose,
            forall|a: int, b: int|
                in_bounds(a, b) && (#[trigger] old(self).cell(a, b)) is Block ==> final(self).cell(a, b) is Block,
            (final(self).executors@, final(self).enemy_place@, final(self).point, final(self).is_lose, final(self).shoot_place@)
                == shots_pass(
                (old(self).executors@, old(self).enemy_place@, old(self).point, old(self).is_lose, Seq::empty()),
                old(self).shoot_place@,
            ),
            forall|a: int, b: int|
                in_bounds(a, b) && (#[trigger] old(self).cell(a, b)) is Enemy && !(final(self).cell(a, b) is Enemy)
                    ==> !final(self).enemy_place@.contains((a as i32, b as i32)),
            forall|a: int, b: int|
                in_bounds(a, b) && (#[trigger] old(self).cell(a, b)) is Player && !(final(self).cell(a, b) is Player)
                    ==> final(self).is_lose,
    {
        let ghost start = *self;
        let mut new_place: Vec<(i32, i32)> = Vec::new();
        let n = self.shoot_place.len();
        let mut i: usize = 0;
        while i < n
            invariant
                self.grid_wf(),
                self.enemies_wf(),
                0 <= i <= n,
                n == self.shoot_place@.len(),
                self.shoot_place@ == start.shoot_place@,
                distinct_on_grid(self.shoot_place@),
                self.player_x == start.player_x,
                self.player_y == start.player_y,
                self.point >= start.point,
                start.is_lose ==> self.is_lose,
                distinct_on_grid(new_place@),
                forall|j: int| 0 <= j < new_place@.len()
                    ==> (#[trigger] self.cell(new_place@[j].0 as int, new_place@[j].1 as int)) is Shoot,
                forall|a: int, b: int|
                    in_bounds(a, b) && (#[trigger] start.cell(a, b)) is Block ==> self.cell(a, b) is Block,
                forall|a: int, b: int| in_bounds(a, b) && (#[trigger] self.cell(a, b)) is Shoot
                    ==> new_place@.contains((a as i32, b as i32)) || exists|k: int|
                        i <= k < n && self.shoot_place@[k] == (a as i32, b as i32),
                (self.executors@, self.enemy_place@, self.point, self.is_lose, new_place@) == shots_pass(
                    (start.executors@, start.enemy_place@, start.point, start.is_lose, Seq::empty()),
                    self.shoot_place@.subrange(0, i as int),
                ),
            decreases n - i,
        {
            let (x, y) = self.shoot_place[i];
            let ghost before = *self;
            let ghost np = new_place@;
            if !has_coord(&new_place, (x, y)) {
                if let MapPlace::Shoot(_) = self.get_cell(x, y) {
                    self.shot_step(x, y, &mut new_place);
                    assert forall|a: int, b: int|
                        in_bounds(a, b) && (#[trigger] start.cell(a, b)) is Block implies self.cell(a, b) is Block by {
                        assert(before.cell(a, b) is Block);
                    }
                }
            }
            assert forall|a: int, b: int| in_bounds(a, b) && (#[trigger] self.cell(a, b)) is Shoot
                implies new_place@.contains((a as i32, b as i32)) || exists|k: int|
                    i + 1 <= k < n && self.shoot_place@[k] == (a as i32, b as i32) by {
                if !new_place@.contains((a as i32, b as i32)) {
                    assert(before.cell(a, b) is Shoot);
                    assert(!np.contains((a as i32, b as i32)));
                    let k = choose|k: int| i <= k < n && self.shoot_place@[k] == (a as i32, b as i32);
                    assert(k != i);
                }
            }
            assert(self.shoot_place@.subrange(0, i + 1).drop_last() == self.shoot_place@.subrange(0, i as int));
            i = i + 1;
        }
        assert(self.shoot_place@.subrange(0, n as int) == self.shoot_place@);
        self.shoot_place = new_place;
        proof {
            assert forall|a: int, b: int|
                in_bounds(a, b) && (#[trigger] start.cell(a, b)) is Enemy && !(self.cell(a, b) is Enemy)
                    implies !self.enemy_place@.contains((a as i32, b as i32)) by {
                if self.enemy_place@.contains((a as i32, b as i32)) {
                    let k = choose|k: int| 0 <= k < self.enemy_place@.len() && self.enemy_place@[k] == (a as i32, b as i32);
                    assert(self.cell(self.enemy_place@[k].0 as int, self.enemy_place@[k].1 as int) is Enemy);
                }
            }
        }
    }
}

/// A projectile pass over a single projectile that runs into an enemy
/// removes both from the grid and raises the score by exactly one (below the
/// largest `u64`, where it saturates), leaving the loss flag as it was.
pub proof fn lemma_hit_enemy_scores_one(
    g: Seq<MapPlace>,
    es: Seq<(i32, i32)>,
    pt: u64,
    lose: bool,
    s: (i32, i32),
)
    requires
        g.len() == WIDTH * HEIGHT,
        in_bounds(s.0 as int, s.1 as int),
        cell_of(g, s.0 as int, s.1 as int) is Shoot,
        pose_in(cell_of(g, s.0 as int, s.1 as int)).wf(),
        cell_of(
            g,
            forward_of(pose_in(cell_of(g, s.0 as int, s.1 as int))).x as int,
            forward_of(pose_in(cell_of(g, s.0 as int, s.1 as int))).y as int,
        ) is Enemy,
        pt < u64::MAX,
    ensures
        ({
            let q = forward_of(pose_in(cell_of(g, s.0 as int, s.1 as int)));
            let r = shots_pass((g, es, pt, lose, Seq::empty()), seq![s]);
            &&& r.2 == pt + 1
            &&& r.3 == lose
            &&& cell_of(r.0, q.x as int, q.y as int) == MapPlace::Place
            &&& cell_of(r.0, s.0 as int, s.1 as int) == MapPlace::Place
            &&& r.4.len() == 0
        }),
{
    reveal_with_fuel(shots_pass, 2);
    let q = forward_of(pose_in(cell_of(g, s.0 as int, s.1 as int)));
    assert(seq![s].drop_last() =~= Seq::<(i32, i32)>::empty());
    assert(seq![s].last() == s);
    assert(!Seq::<(i32, i32)>::empty().contains(s));
    lemma_idx(q.x as int, q.y as int, s.0 as int, s.1 as int);
}

} // verus!
