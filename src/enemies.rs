//! The enemies' pass: each indexed enemy moves or turns on random draws.

use vstd::prelude::*;
use crate::executor::{in_bounds, forward_of, Pose, Executor, left_of, right_of};
use crate::random::random_below;
use crate::world::{
    MapPlace, Executors, idx, cell_of, pose_in, distinct_on_grid, lemma_idx, lemma_push_contains,
};

verus! {

/// The pose after an in-place turn: `1` turns right, `2` turns left, any
/// other choice keeps the pose.
pub open spec fn turn_of(p: Pose, choice: u32) -> Pose {
    if choice == 1 {
        Pose { heading: right_of(p.heading), is_shoot: false, ..p }
    } else if choice == 2 {
        Pose { heading: left_of(p.heading), is_shoot: false, ..p }
    } else {
        p
    }
}

fn turned(p: Pose, choice: u32) -> (r: Pose)
    ensures
        r == turn_of(p, choice),
{
    if choice == 1 {
        p.right()
    } else if choice == 2 {
        p.left()
    } else {
        p
    }
}

/// Whether a draw out of six sends an enemy forward (four outcomes of six);
/// the others turn it in place.
pub open spec fn goes_forward(behave: u32) -> bool {
    behave != 1 && behave != 2
}

/// The grid after the enemy at `(x, y)` acts on the draws `behave` (out of
/// six) and `fallback` (out of three), with where it ends up.
pub open spec fn enemy_effect(g: Seq<MapPlace>, x: i32, y: i32, behave: u32, fallback: u32) -> (Seq<MapPlace>, (i32, i32)) {
    let p = pose_in(cell_of(g, x as int, y as int));
    let q = forward_of(p);
    if goes_forward(behave) && cell_of(g, q.x as int, q.y as int) is Place {
        (
            g.update(idx(q.x as int, q.y as int), MapPlace::Enemy(Executor { pose: Some(q) })).update(
                idx(x as int, y as int),
                MapPlace::Place,
            ),
            (q.x, q.y),
        )
    } else {
        let t = if goes_forward(behave) { turn_of(p, fallback) } else { turn_of(p, behave) };
        (g.update(idx(x as int, y as int), MapPlace::Enemy(Executor { pose: Some(t) })), (x, y))
    }
}

/// The grid and the rebuilt enemy index after each enemy of `list` acts in
/// order, the `k`-th on `draws[k]`.
pub open spec fn enemies_pass(g: Seq<MapPlace>, list: Seq<(i32, i32)>, draws: Seq<(u32, u32)>) -> (Seq<MapPlace>, Seq<(i32, i32)>)
    decreases list.len(),
{
    if list.len() == 0 {
        (g, Seq::empty())
    } else {
        let (g1, l1) = enemies_pass(g, list.drop_last(), draws);
        let d = draws[list.len() - 1];
        let (g2, r) = enemy_effect(g1, list.last().0, list.last().1, d.0, d.1);
        (g2, l1.push(r))
    }
}

/// `after` is what the enemies' pass makes of `before` on some draws, one
/// pair for each indexed enemy, each a draw out of six and a draw out of
/// three.
pub open spec fn enemies_moved(before: Executors, after: Executors) -> bool {
    exists|d: Seq<(u32, u32)>|
        d.len() == before.enemy_place@.len() && (forall|k: int| 0 <= k < d.len() ==> #[trigger] d[k].0 < 6 && d[k].1 < 3)
            && (after.executors@, after.enemy_place@) == #[trigger] enemies_pass(
            before.executors@,
            before.enemy_place@,
            d,
        )
}

impl Executors {
    /// Moves the enemy at `(x, y)` by one draw `behave` out of six and, should
    /// its way be blocked, one draw `fallback` out of three (stay, turn right,
    /// turn left). Returns where the enemy is afterwards.
    pub fn enemy_act(&mut self, x: i32, y: i32, behave: u32, fallback: u32) -> (r: (i32, i32))
        requires
            old(self).grid_wf(),
            in_bounds(x as int, y as int),
            old(self).cell(x as int, y as int) is Enemy,
            behave < 6,
            fallback < 3,
        ensures
            final(self).grid_wf(),
            final(self).player_x == old(self).player_x,
            final(self).player_y == old(self).player_y,
            final(self).enemy_place == old(self).enemy_place,
            final(self).shoot_place == old(self).shoot_place,
            final(self).point == old(self).point,
            final(self).is_lose == old(self).is_lose,
            (final(self).executors@, r) == enemy_effect(old(self).executors@, x, y, behave, fallback),
            in_bounds(r.0 as int, r.1 as int),
            final(self).cell(r.0 as int, r.1 as int) is Enemy,
            r != (x, y) ==> old(self).cell(r.0 as int, r.1 as int) is Place
                && final(self).cell(x as int, y as int) is Place,
            forall|a: int, b: int|
                in_bounds(a, b) && !(a == x && b == y) && !(a == r.0 && b == r.1)
                    ==> #[trigger] final(self).cell(a, b) == old(self).cell(a, b),
    {
        let c = self.get_cell(x, y);
        if let MapPlace::Enemy(enemy) = c {
            let p = enemy.pose.unwrap();
            if behave != 1 && behave != 2 {
                let q = p.translate_forward();
                if let MapPlace::Place = self.get_cell(q.x, q.y) {
                    self.set_cell(q.x, q.y, MapPlace::Enemy(Executor::with_pose(q)));
                    self.set_cell(x, y, MapPlace::Place);
                    proof {
                        lemma_idx(q.x as int, q.y as int, x as int, y as int);
                    }
                    (q.x, q.y)
                } else {
                    let t = turned(p, fallback);
                    self.set_cell(x, y, MapPlace::Enemy(Executor::with_pose(t)));
                    (x, y)
                }
            } else {
                let t = turned(p, behave);
                self.set_cell(x, y, MapPlace::Enemy(Executor::with_pose(t)));
                (x, y)
            }
        } else {
            (x, y)
        }
    }
}

impl Executors {
    /// Moves every indexed enemy once, the `k`-th by the draws `draws[k]`
    /// (see `enemy_act`), and rebuilds the enemy index from where each one
    /// ends up.
    pub fn enemy_move_by(&mut self, draws: &Vec<(u32, u32)>)
        requires
            old(self).wf(),
            draws@.len() >= old(self).enemy_place@.len(),
            forall|k: int| 0 <= k < draws@.len() ==> #[trigger] draws@[k].0 < 6 && draws@[k].1 < 3,
        ensures
            final(self).wf(),
            (final(self).executors@, final(self).enemy_place@) == enemies_pass(
                old(self).executors@,
                old(self).enemy_place@,
                draws@,
            ),
            final(self).enemy_place@.len() == old(self).enemy_place@.len(),
            final(self).player_x == old(self).player_x,
            final(self).player_y == old(self).player_y,
            final(self).shoot_place == old(self).shoot_place,
            final(self).point == old(self).point,
            final(self).is_lose == old(self).is_lose,
            forall|a: int, b: int|
                in_bounds(a, b) && #[trigger] final(self).cell(a, b) != old(self).cell(a, b) ==> (
                old(self).cell(a, b) is Place || old(self).cell(a, b) is Enemy) && (final(self).cell(a, b) is Place
                    || final(self).cell(a, b) is Enemy),
    {
        let ghost start = *self;
        let mut new_place: Vec<(i32, i32)> = Vec::new();
        let n = self.enemy_place.len();
        let mut i: usize = 0;
        while i < n
            invariant
                self.grid_wf(),
                self.enemy_place@ == start.enemy_place@,
                self.shoot_place == start.shoot_place,
                self.player_x == start.player_x,
                self.player_y == start.player_y,
                self.point == start.point,
                self.is_lose == start.is_lose,
                n == self.enemy_place@.len(),
                n <= draws@.len(),
                forall|k: int| 0 <= k < draws@.len() ==> #[trigger] draws@[k].0 < 6 && draws@[k].1 < 3,
                0 <= i <= n,
                new_place@.len() == i,
                (self.executors@, new_place@) == enemies_pass(
                    start.executors@,
                    self.enemy_place@.subrange(0, i as int),
                    draws@,
                ),
                distinct_on_grid(self.enemy_place@),
                distinct_on_grid(new_place@),
                forall|k: int| i <= k < n
                    ==> (#[trigger] self.cell(self.enemy_place@[k].0 as int, self.enemy_place@[k].1 as int)) is Enemy,
                forall|j: int| 0 <= j < new_place@.len()
                    ==> (#[trigger] self.cell(new_place@[j].0 as int, new_place@[j].1 as int)) is Enemy,
                forall|j: int, k: int| 0 <= j < new_place@.len() && i <= k < n
                    ==> #[trigger] new_place@[j] != #[trigger] self.enemy_place@[k],
                forall|a: int, b: int| in_bounds(a, b) && (#[trigger] self.cell(a, b)) is Enemy
                    ==> new_place@.contains((a as i32, b as i32)) || exists|k: int|
                        i <= k < n && self.enemy_place@[k] == (a as i32, b as i32),
                forall|a: int, b: int|
                    in_bounds(a, b) && #[trigger] self.cell(a, b) != start.cell(a, b) ==> (
                    start.cell(a, b) is Place || start.cell(a, b) is Enemy) && (self.cell(a, b) is Place
                        || self.cell(a, b) is Enemy),
            decreases n - i,
        {
            let (x, y) = self.enemy_place[i];
            let (b, f) = draws[i];
            let ghost before = *self;
            let ghost np = new_place@;
            let r = self.enemy_act(x, y, b, f);
            new_place.push(r);
            assert(self.enemy_place@.subrange(0, i + 1).drop_last() == self.enemy_place@.subrange(0, i as int));
            proof {
                assert forall|j: int, k: int| 0 <= j < new_place@.len() && i + 1 <= k < n
                    implies #[trigger] new_place@[j] != #[trigger] self.enemy_place@[k] by {
                    if j < i {
                        assert(np[j] == new_place@[j]);
                    } else {
                        assert(self.enemy_place@[i as int] != self.enemy_place@[k]);
                    }
                }
                assert forall|j: int| 0 <= j < new_place@.len()
                    implies (#[trigger] self.cell(new_place@[j].0 as int, new_place@[j].1 as int)) is Enemy by {
                    if j < i {
                        assert(np[j] == new_place@[j]);
                        assert(np[j] != self.enemy_place@[i as int]);
                    }
                }
                assert forall|j: int, k: int| 0 <= j < k < new_place@.len()
                    implies #[trigger] new_place@[j] != #[trigger] new_place@[k] by {
                    if k == i {
                        assert(np[j] == new_place@[j]);
                        assert(np[j] != self.enemy_place@[i as int]);
                    } else {
                        assert(np[j] == new_place@[j]);
                        assert(np[k] == new_place@[k]);
                    }
                }
                assert forall|k: int| 0 <= k < new_place@.len() implies in_bounds(
                    #[trigger] new_place@[k].0 as int,
                    new_place@[k].1 as int,
                ) by {
                    if k < i {
                        assert(np[k] == new_place@[k]);
                    }
                }
                assert forall|k: int| i + 1 <= k < n
                    implies (#[trigger] self.cell(self.enemy_place@[k].0 as int, self.enemy_place@[k].1 as int)) is Enemy by {
                    assert(self.enemy_place@[i as int] != self.enemy_place@[k]);
                }
                lemma_push_contains(np, r);
                assert forall|a: int, b: int| in_bounds(a, b) && (#[trigger] self.cell(a, b)) is Enemy
                    implies new_place@.contains((a as i32, b as i32)) || exists|k: int|
                        i + 1 <= k < n && self.enemy_place@[k] == (a as i32, b as i32) by {
                    if !(a == r.0 && b == r.1) && !(a == x && b == y) {
                        assert(before.cell(a, b) is Enemy);
                        if !np.contains((a as i32, b as i32)) {
                            let k = choose|k: int| i <= k < n && self.enemy_place@[k] == (a as i32, b as i32);
                            assert(k != i);
                        }
                    }
                }
            }
            i = i + 1;
        }
        proof {
            assert forall|k: int| 0 <= k < self.shoot_place@.len()
                implies (#[trigger] self.cell(self.shoot_place@[k].0 as int, self.shoot_place@[k].1 as int)) is Shoot by {
                let (a, b) = (self.shoot_place@[k].0 as int, self.shoot_place@[k].1 as int);
                assert(in_bounds(self.shoot_place@[k].0 as int, self.shoot_place@[k].1 as int));
                assert(start.cell(a, b) is Shoot);
            }
            assert forall|a: int, b: int| in_bounds(a, b) && (#[trigger] self.cell(a, b)) is Shoot
                implies self.shoot_place@.contains((a as i32, b as i32)) by {
                assert(start.cell(a, b) is Shoot);
            }
        }
        assert(self.enemy_place@.subrange(0, n as int) == self.enemy_place@);
        self.enemy_place = new_place;
    }

    /// Moves every indexed enemy once, by draws from the thread's random
    /// generator.
    pub fn enemy_move(&mut self)
        requires
            old(self).wf(),
        ensures
            final(self).wf(),
            final(self).enemy_place@.len() == old(self).enemy_place@.len(),
            final(self).player_x == old(self).player_x,
            final(self).player_y == old(self).player_y,
            final(self).shoot_place == old(self).shoot_place,
            final(self).point == old(self).point,
            final(self).is_lose == old(self).is_lose,
            enemies_moved(*old(self), *final(self)),
            forall|a: int, b: int|
                in_bounds(a, b) && #[trigger] final(self).cell(a, b) != old(self).cell(a, b) ==> (
                old(self).cell(a, b) is Place || old(self).cell(a, b) is Enemy) && (final(self).cell(a, b) is Place
                    || final(self).cell(a, b) is Enemy),
    {
        let ghost before = *self;
        let n = self.enemy_place.len();
        let mut draws: Vec<(u32, u32)> = Vec::new();
        let mut i: usize = 0;
        while i < n
            invariant
                0 <= i <= n,
                draws@.len() == i,
                forall|k: int| 0 <= k < draws@.len() ==> #[trigger] draws@[k].0 < 6 && draws@[k].1 < 3,
            decreases n - i,
        {
            let behave = random_below(6);
            let fallback = random_below(3);
            draws.push((behave, fallback));
            i = i + 1;
        }
        self.enemy_move_by(&draws);
        assert(draws@.len() == before.enemy_place@.len());
    }
}

} // verus!
