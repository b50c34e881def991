//! The world: the grid of cells, its occupant indices, score and loss
//! flag, with construction, spawning and the player's moves.

use vstd::prelude::*;
use vstd::string::StringSliceAdditionalSpecFns;
use crate::executor::{
    X_MAX, Y_MAX, in_bounds, forward_of, Pose, Executor, Command, command_of, apply_command,
};
use crate::random::random_below;

verus! {

/// Number of columns: `x` runs over `-X_MAX..=X_MAX`.
pub const WIDTH: usize = 13;

/// Number of rows: `y` runs over `-Y_MAX..=Y_MAX`.
pub const HEIGHT: usize = 11;

/// What one grid cell holds.
#[derive(Debug, Copy, Clone, PartialEq, Eq, Structural)]
pub enum MapPlace {
    Player(Executor),
    Enemy(Executor),
    Shoot(Executor),
    Place,
    Block,
}

/// Row-major position of `(x, y)` in the grid: `col = x + X_MAX`,
/// `row = y + Y_MAX`.
pub open spec fn idx(x: int, y: int) -> int {
    (y + Y_MAX as int) * WIDTH as int + (x + X_MAX as int)
}

/// The cell at `(x, y)` of the grid `g`.
pub open spec fn cell_of(g: Seq<MapPlace>, x: int, y: int) -> MapPlace {
    g[idx(x, y)]
}

/// A vehicle or projectile in a cell carries a valid pose at that cell.
pub open spec fn holds_at(c: MapPlace, x: int, y: int) -> bool {
    match c {
        MapPlace::Player(e) => at(e, x, y),
        MapPlace::Enemy(e) => at(e, x, y),
        MapPlace::Shoot(e) => at(e, x, y),
        _ => true,
    }
}

/// `e` has a valid pose at `(x, y)`.
pub open spec fn at(e: Executor, x: int, y: int) -> bool {
    &&& e.pose is Some
    &&& e.pose->Some_0.wf()
    &&& e.pose->Some_0.x == x
    &&& e.pose->Some_0.y == y
}

/// The pose of the vehicle or projectile in a cell.
pub open spec fn pose_in(c: MapPlace) -> Pose {
    match c {
        MapPlace::Player(e) => e.pose->Some_0,
        MapPlace::Enemy(e) => e.pose->Some_0,
        MapPlace::Shoot(e) => e.pose->Some_0,
        _ => Pose { x: 0, y: 0, heading: 'N', is_shoot: false },
    }
}

/// The coordinate pairs of a list are on the grid and pairwise distinct.
pub open spec fn distinct_on_grid(s: Seq<(i32, i32)>) -> bool {
    &&& forall|k: int| 0 <= k < s.len() ==> in_bounds(#[trigger] s[k].0 as int, s[k].1 as int)
    &&& forall|j: int, k: int| 0 <= j < k < s.len() ==> #[trigger] s[j] != #[trigger] s[k]
}

/// The grid, its player, enemy and projectile indices, the score and the
/// loss flag.
pub struct Executors {
    /// The cells, row by row.
    pub executors: Vec<MapPlace>,
    pub player_x: i32,
    pub player_y: i32,
    pub enemy_place: Vec<(i32, i32)>,
    pub shoot_place: Vec<(i32, i32)>,
    pub point: u64,
    pub is_lose: bool,
}

/// The player's spawn point.
pub open spec fn player_spawn() -> (i32, i32) {
    (0, Y_MAX)
}

/// The two enemy spawn points.
pub open spec fn enemy_spawns() -> Seq<(i32, i32)> {
    seq![((X_MAX - 2) as i32, (-Y_MAX) as i32), ((-X_MAX + 2) as i32, (-Y_MAX) as i32)]
}

/// A fresh vehicle at `(x, y)` facing `heading`.
pub open spec fn fresh(x: i32, y: i32, heading: char) -> Executor {
    Executor { pose: Some(Pose { x, y, heading, is_shoot: false }) }
}

impl Executors {
    /// The cell at `(x, y)`.
    #[verifier::inline]
    pub open spec fn cell(self, x: int, y: int) -> MapPlace {
        self.executors@[idx(x, y)]
    }

    /// The grid holds its cells, each occupant with a pose at its own cell,
    /// and exactly one player, at the player coordinate, until the game is
    /// lost, none after.
    pub open spec fn grid_wf(self) -> bool {
        &&& self.executors@.len() == WIDTH * HEIGHT
        &&& forall|x: int, y: int| in_bounds(x, y) ==> holds_at(#[trigger] self.cell(x, y), x, y)
        &&& in_bounds(self.player_x as int, self.player_y as int)
        &&& forall|x: int, y: int|
            in_bounds(x, y) && #[trigger] self.cell(x, y) is Player ==> !self.is_lose
                && x == self.player_x && y == self.player_y
        &&& !self.is_lose ==> self.cell(self.player_x as int, self.player_y as int) is Player
    }

    /// Every enemy index names an enemy cell, without repeats, and every
    /// enemy cell is indexed.
    pub open spec fn enemies_wf(self) -> bool {
        &&& distinct_on_grid(self.enemy_place@)
        &&& forall|k: int| 0 <= k < self.enemy_place@.len()
            ==> (#[trigger] self.cell(self.enemy_place@[k].0 as int, self.enemy_place@[k].1 as int)) is Enemy
        &&& forall|a: int, b: int| in_bounds(a, b) && (#[trigger] self.cell(a, b)) is Enemy
            ==> self.enemy_place@.contains((a as i32, b as i32))
    }

    /// Every projectile index names a projectile cell, without repeats, and
    /// every projectile cell is indexed.
    pub open spec fn shots_wf(self) -> bool {
        &&& distinct_on_grid(self.shoot_place@)
        &&& forall|k: int| 0 <= k < self.shoot_place@.len()
            ==> (#[trigger] self.cell(self.shoot_place@[k].0 as int, self.shoot_place@[k].1 as int)) is Shoot
        &&& forall|a: int, b: int| in_bounds(a, b) && (#[trigger] self.cell(a, b)) is Shoot
            ==> self.shoot_place@.contains((a as i32, b as i32))
    }

    /// The whole world is consistent.
    pub open spec fn wf(self) -> bool {
        self.grid_wf() && self.enemies_wf() && self.shots_wf()
    }
}

/// Distinct coordinates on the grid have distinct positions in it.
pub(crate) proof fn lemma_idx(x1: int, y1: int, x2: int, y2: int)
    requires
        in_bounds(x1, y1),
        in_bounds(x2, y2),
    ensures
        0 <= idx(x1, y1) < WIDTH * HEIGHT,
        idx(x1, y1) == idx(x2, y2) <==> (x1 == x2 && y1 == y2),
{
    assert(0 <= idx(x1, y1) < WIDTH * HEIGHT) by (nonlinear_arith)
        requires in_bounds(x1, y1);
    assert(idx(x1, y1) == idx(x2, y2) ==> (x1 == x2 && y1 == y2)) by (nonlinear_arith)
        requires in_bounds(x1, y1), in_bounds(x2, y2);
}

pub(crate) fn index_of(x: i32, y: i32) -> (r: usize)
    requires
        in_bounds(x as int, y as int),
    ensures
        r == idx(x as int, y as int),
        r < WIDTH * HEIGHT,
{
    proof { lemma_idx(x as int, y as int, x as int, y as int); }
    ((y + Y_MAX) as usize) * WIDTH + ((x + X_MAX) as usize)
}

impl Executors {
    /// The cell at `(x, y)`.
    pub fn get_cell(&self, x: i32, y: i32) -> (r: MapPlace)
        requires
            self.executors@.len() == WIDTH * HEIGHT,
            in_bounds(x as int, y as int),
        ensures
            r == self.cell(x as int, y as int),
    {
        self.executors[index_of(x, y)]
    }

    pub(crate) fn set_cell(&mut self, x: i32, y: i32, v: MapPlace)
        requires
            old(self).executors@.len() == WIDTH * HEIGHT,
            in_bounds(x as int, y as int),
        ensures
            final(self).executors@ == old(self).executors@.update(idx(x as int, y as int), v),
            final(self).executors@.len() == WIDTH * HEIGHT,
            forall|a: int, b: int| in_bounds(a, b) ==> #[trigger] final(self).cell(a, b) == if a == x && b == y {
                v
            } else {
                old(self).cell(a, b)
            },
            final(self).player_x == old(self).player_x,
            final(self).player_y == old(self).player_y,
            final(self).enemy_place == old(self).enemy_place,
            final(self).shoot_place == old(self).shoot_place,
            final(self).point == old(self).point,
            final(self).is_lose == old(self).is_lose,
    {
        let i = index_of(x, y);
        self.executors.set(i, v);
        proof {
            assert forall|a: int, b: int| in_bounds(a, b) implies #[trigger] self.cell(a, b) == if a == x && b == y {
                v
            } else {
                old(self).cell(a, b)
            } by {
                lemma_idx(a, b, x as int, y as int);
            }
        }
    }
}

/// Pushing onto a list keeps what it held and adds the new entry.
pub(crate) proof fn lemma_push_contains(s: Seq<(i32, i32)>, e: (i32, i32))
    ensures
        s.push(e).contains(e),
        forall|t: (i32, i32)| s.contains(t) ==> #[trigger] s.push(e).contains(t),
{
    assert(s.push(e)[s.len() as int] == e);
    assert forall|t: (i32, i32)| s.contains(t) implies #[trigger] s.push(e).contains(t) by {
        let k = choose|k: int| 0 <= k < s.len() && s[k] == t;
        assert(s.push(e)[k] == t);
    }
}

/// The grid and enemy index after spawning: a fresh enemy facing south is
/// placed and indexed at each spawn point whose cell is empty, the first
/// spawn point first.
pub open spec fn spawn_result(w: Executors) -> (Seq<MapPlace>, Seq<(i32, i32)>) {
    let (s0, s1) = (enemy_spawns()[0], enemy_spawns()[1]);
    let free0 = w.cell(s0.0 as int, s0.1 as int) is Place;
    let free1 = w.cell(s1.0 as int, s1.1 as int) is Place;
    let g0 = if free0 {
        w.executors@.update(idx(s0.0 as int, s0.1 as int), MapPlace::Enemy(fresh(s0.0, s0.1, 'S')))
    } else {
        w.executors@
    };
    let l0 = if free0 { w.enemy_place@.push(s0) } else { w.enemy_place@ };
    (
        if free1 { g0.update(idx(s1.0 as int, s1.1 as int), MapPlace::Enemy(fresh(s1.0, s1.1, 'S'))) } else { g0 },
        if free1 { l0.push(s1) } else { l0 },
    )
}

impl Executors {
    /// The player's pose, read from its cell.
    pub open spec fn player_pose(self) -> Pose {
        pose_in(self.cell(self.player_x as int, self.player_y as int))
    }

    /// Carries out a command string on the player. Once the game is lost the
    /// player is frozen and nothing changes. A forward step is taken only
    /// into an empty cell; a blocked step, like an unknown command, changes
    /// nothing. Turns happen in place.
    pub fn player_move(&mut self, cmds: &str)
        requires
            old(self).wf(),
        ensures
            final(self).wf(),
            final(self).enemy_place == old(self).enemy_place,
            final(self).shoot_place == old(self).shoot_place,
            final(self).point == old(self).point,
            final(self).is_lose == old(self).is_lose,
            ({
                let c = command_of(cmds.spec_bytes());
                let p = old(self).player_pose();
                let q = forward_of(p);
                let g = old(self).executors@;
                let here = idx(p.x as int, p.y as int);
                if old(self).is_lose || c == Command::Unknown {
                    *final(self) == *old(self)
                } else if c == Command::Forward {
                    if old(self).cell(q.x as int, q.y as int) is Place {
                        &&& final(self).executors@ == g.update(
                            idx(q.x as int, q.y as int),
                            MapPlace::Player(Executor { pose: Some(q) }),
                        ).update(here, MapPlace::Place)
                        &&& final(self).player_x == q.x
                        &&& final(self).player_y == q.y
                    } else {
                        *final(self) == *old(self)
                    }
                } else {
                    &&& final(self).executors@ == g.update(
                        here,
                        MapPlace::Player(Executor { pose: Some(apply_command(p, c)) }),
                    )
                    &&& final(self).player_x == old(self).player_x
                    &&& final(self).player_y == old(self).player_y
                }
            }),
            command_of(cmds.spec_bytes()) == Command::Forward && !(old(self).cell(
                forward_of(old(self).player_pose()).x as int,
                forward_of(old(self).player_pose()).y as int,
            ) is Place) ==> final(self).player_x == old(self).player_x && final(self).player_y
                == old(self).player_y && final(self).player_pose() == old(self).player_pose(),
    {
        if self.is_lose {
            return;
        }
        let (px, py) = (self.player_x, self.player_y);
        let mut player = match self.get_cell(px, py) {
            MapPlace::Player(e) => e,
            _ => {
                return;
            },
        };
        let p = player.pose.unwrap();
        let cmd = Command::parse(cmds);
        match cmd {
            Command::Forward => {
                let q = p.translate_forward();
                if let MapPlace::Place = self.get_cell(q.x, q.y) {
                    proof {
                        lemma_idx(q.x as int, q.y as int, px as int, py as int);
                    }
                    self.set_cell(q.x, q.y, MapPlace::Player(Executor::with_pose(q)));
                    self.set_cell(px, py, MapPlace::Place);
                    self.player_x = q.x;
                    self.player_y = q.y;
                }
            },
            Command::Unknown => {},
            _ => {
                let _ = player.apply(cmd);
                self.set_cell(px, py, MapPlace::Player(player));
            },
        }
    }

    /// Places a fresh enemy facing south at `(x, y)` and indexes it, if the
    /// cell there is empty.
    fn spawn_at(&mut self, x: i32, y: i32)
        requires
            old(self).wf(),
            in_bounds(x as int, y as int),
        ensures
            final(self).wf(),
            final(self).player_x == old(self).player_x,
            final(self).player_y == old(self).player_y,
            final(self).shoot_place == old(self).shoot_place,
            final(self).point == old(self).point,
            final(self).is_lose == old(self).is_lose,
            if old(self).cell(x as int, y as int) is Place {
                &&& final(self).executors@ == old(self).executors@.update(
                    idx(x as int, y as int),
                    MapPlace::Enemy(fresh(x, y, 'S')),
                )
                &&& final(self).enemy_place@ == old(self).enemy_place@.push((x, y))
            } else {
                *final(self) == *old(self)
            },
    {
        if let MapPlace::Place = self.get_cell(x, y) {
            self.set_cell(x, y, MapPlace::Enemy(Executor::with_pose(Pose::new(x, y, 'S'))));
            let ghost before = self.enemy_place@;
            self.enemy_place.push((x, y));
            proof {
                lemma_push_contains(before, (x, y));
                assert forall|a: int, b: int| in_bounds(a, b) && (#[trigger] self.cell(a, b)) is Enemy
                    implies self.enemy_place@.contains((a as i32, b as i32)) by {
                    if !(a == x && b == y) {
                        assert(old(self).cell(a, b) is Enemy);
                    }
                }
            }
            proof {
                assert forall|k: int| 0 <= k < before.len() implies #[trigger] self.enemy_place@[k] != (x, y) by {
                    assert(self.enemy_place@[k] == before[k]);
                    assert(old(self).cell(before[k].0 as int, before[k].1 as int) is Enemy);
                }
            }
        }
    }

    /// Spawns a fresh enemy at each of the two spawn points whose cell is
    /// empty; an occupied spawn point is skipped.
    pub fn spawn(&mut self)
        requires
            old(self).wf(),
        ensures
            final(self).wf(),
            final(self).player_x == old(self).player_x,
            final(self).player_y == old(self).player_y,
            final(self).shoot_place == old(self).shoot_place,
            final(self).point == old(self).point,
            final(self).is_lose == old(self).is_lose,
            (final(self).executors@, final(self).enemy_place@) == spawn_result(*old(self)),
    {
        proof {
            lemma_idx((X_MAX - 2) as int, -(Y_MAX as int), (-X_MAX + 2) as int, -(Y_MAX as int));
        }
        self.spawn_at(X_MAX - 2, -Y_MAX);
        self.spawn_at(-X_MAX + 2, -Y_MAX);
    }
}

/// A grid of `WIDTH * HEIGHT` empty cells.
fn empty_grid() -> (r: Vec<MapPlace>)
    ensures
        r@.len() == WIDTH * HEIGHT,
        forall|k: int| 0 <= k < r@.len() ==> #[trigger] r@[k] == MapPlace::Place,
{
    let mut g: Vec<MapPlace> = Vec::new();
    let mut i: usize = 0;
    while i < WIDTH * HEIGHT
        invariant
            0 <= i <= WIDTH * HEIGHT,
            g@.len() == i,
            forall|k: int| 0 <= k < g@.len() ==> #[trigger] g@[k] == MapPlace::Place,
        decreases WIDTH * HEIGHT - i,
    {
        g.push(MapPlace::Place);
        i = i + 1;
    }
    g
}

impl Executors {
    /// A world whose only occupant is the player at `pose`.
    pub fn with_player(pose: Pose) -> (r: Executors)
        requires
            pose.wf(),
        ensures
            r.wf(),
            r.player_x == pose.x,
            r.player_y == pose.y,
            r.enemy_place@.len() == 0,
            r.shoot_place@.len() == 0,
            r.point == 0,
            !r.is_lose,
            forall|a: int, b: int| in_bounds(a, b) ==> #[trigger] r.cell(a, b) == if a == pose.x && b == pose.y {
                MapPlace::Player(Executor { pose: Some(pose) })
            } else {
                MapPlace::Place
            },
    {
        let mut w = Executors {
            executors: empty_grid(),
            player_x: pose.x,
            player_y: pose.y,
            enemy_place: Vec::new(),
            shoot_place: Vec::new(),
            point: 0,
            is_lose: false,
        };
        proof {
            assert forall|a: int, b: int| in_bounds(a, b) implies #[trigger] w.cell(a, b) == MapPlace::Place by {
                lemma_idx(a, b, a, b);
            }
        }
        w.set_cell(pose.x, pose.y, MapPlace::Player(Executor::with_pose(pose)));
        w
    }

    /// A world with blocks at the given coordinates (a repeated coordinate
    /// is simply blocked again), the player at its spawn point facing north
    /// and an enemy at each of the two spawn points facing south. The
    /// occupants overwrite any block at their spawn points.
    pub fn with_blocks(blocks: &Vec<(i32, i32)>) -> (r: Executors)
        requires
            forall|k: int| 0 <= k < blocks@.len() ==> in_bounds(#[trigger] blocks@[k].0 as int, blocks@[k].1 as int),
        ensures
            r.wf(),
            (r.player_x, r.player_y) == player_spawn(),
            r.enemy_place@ == enemy_spawns(),
            r.shoot_place@.len() == 0,
            r.point == 0,
            !r.is_lose,
            forall|a: int, b: int| in_bounds(a, b) ==> #[trigger] r.cell(a, b) == if (a, b) == (
                player_spawn().0 as int,
                player_spawn().1 as int,
            ) {
                MapPlace::Player(fresh(player_spawn().0, player_spawn().1, 'N'))
            } else if (a, b) == (enemy_spawns()[0].0 as int, enemy_spawns()[0].1 as int) {
                MapPlace::Enemy(fresh(enemy_spawns()[0].0, enemy_spawns()[0].1, 'S'))
            } else if (a, b) == (enemy_spawns()[1].0 as int, enemy_spawns()[1].1 as int) {
                MapPlace::Enemy(fresh(enemy_spawns()[1].0, enemy_spawns()[1].1, 'S'))
            } else if blocks@.contains((a as i32, b as i32)) {
                MapPlace::Block
            } else {
                MapPlace::Place
            },
    {
        let mut w = Executors {
            executors: empty_grid(),
            player_x: 0,
            player_y: Y_MAX,
            enemy_place: Vec::new(),
            shoot_place: Vec::new(),
            point: 0,
            is_lose: false,
        };
        let mut i: usize = 0;
        while i < blocks.len()
            invariant
                0 <= i <= blocks@.len(),
                w.executors@.len() == WIDTH * HEIGHT,
                w.player_x == 0,
                w.player_y == Y_MAX,
                w.enemy_place@.len() == 0,
                w.shoot_place@.len() == 0,
                w.point == 0,
                !w.is_lose,
                forall|k: int| 0 <= k < blocks@.len() ==> in_bounds(#[trigger] blocks@[k].0 as int, blocks@[k].1 as int),
                forall|a: int, b: int| in_bounds(a, b) ==> #[trigger] w.cell(a, b) == if blocks@.subrange(0, i as int).contains((a as i32, b as i32)) {
                    MapPlace::Block
                } else {
                    MapPlace::Place
                },
            decreases blocks@.len() - i,
        {
            let (bx, by) = blocks[i];
            let ghost before = w;
            w.set_cell(bx, by, MapPlace::Block);
            proof {
                let pre = blocks@.subrange(0, i as int);
                let post = blocks@.subrange(0, i + 1);
                assert(post == pre.push((bx, by)));
                assert forall|a: int, b: int| in_bounds(a, b) implies #[trigger] w.cell(a, b) == if post.contains((a as i32, b as i32)) {
                    MapPlace::Block
                } else {
                    MapPlace::Place
                } by {
                    if post.contains((a as i32, b as i32)) && !(a == bx && b == by) {
                        let k = choose|k: int| 0 <= k < post.len() && post[k] == (a as i32, b as i32);
                        assert(pre[k] == post[k]);
                    }
                    if pre.contains((a as i32, b as i32)) {
                        let k = choose|k: int| 0 <= k < pre.len() && pre[k] == (a as i32, b as i32);
                        assert(post[k] == pre[k]);
                    }
                    if a == bx && b == by {
                        assert(post[i as int] == (a as i32, b as i32));
                    }
                }
            }
            i = i + 1;
        }
        assert(blocks@.subrange(0, i as int) == blocks@);
        proof {
            lemma_idx(0, Y_MAX as int, (X_MAX - 2) as int, -(Y_MAX as int));
            lemma_idx(0, Y_MAX as int, (-X_MAX + 2) as int, -(Y_MAX as int));
            lemma_idx((X_MAX - 2) as int, -(Y_MAX as int), (-X_MAX + 2) as int, -(Y_MAX as int));
        }
        w.set_cell(0, Y_MAX, MapPlace::Player(Executor::with_pose(Pose::new(0, Y_MAX, 'N'))));
        w.set_cell(X_MAX - 2, -Y_MAX, MapPlace::Enemy(Executor::with_pose(Pose::new(X_MAX - 2, -Y_MAX, 'S'))));
        w.enemy_place.push((X_MAX - 2, -Y_MAX));
        w.set_cell(-X_MAX + 2, -Y_MAX, MapPlace::Enemy(Executor::with_pose(Pose::new(-X_MAX + 2, -Y_MAX, 'S'))));
        w.enemy_place.push((-X_MAX + 2, -Y_MAX));
        assert(w.enemy_place@ == enemy_spawns());
        w
    }

    /// A fresh world: ten blocks at positions drawn from the thread's random
    /// generator, then the player and the two enemies at their spawn points.
    pub fn new() -> (r: Executors)
        ensures
            r.wf(),
            (r.player_x, r.player_y) == player_spawn(),
            r.enemy_place@ == enemy_spawns(),
            r.shoot_place@.len() == 0,
            r.point == 0,
            !r.is_lose,
            r.cell(player_spawn().0 as int, player_spawn().1 as int) == MapPlace::Player(
                fresh(player_spawn().0, player_spawn().1, 'N'),
            ),
            r.cell(enemy_spawns()[0].0 as int, enemy_spawns()[0].1 as int) == MapPlace::Enemy(
                fresh(enemy_spawns()[0].0, enemy_spawns()[0].1, 'S'),
            ),
            r.cell(enemy_spawns()[1].0 as int, enemy_spawns()[1].1 as int) == MapPlace::Enemy(
                fresh(enemy_spawns()[1].0, enemy_spawns()[1].1, 'S'),
            ),
            forall|a: int, b: int|
                in_bounds(a, b) && (a, b) != (player_spawn().0 as int, player_spawn().1 as int) && !(
                #[trigger] r.cell(a, b) is Enemy) ==> r.cell(a, b) is Place || r.cell(a, b) is Block,
    {
        let mut blocks: Vec<(i32, i32)> = Vec::new();
        let mut i: usize = 0;
        while i < 10
            invariant
                0 <= i <= 10,
                forall|k: int| 0 <= k < blocks@.len() ==> in_bounds(#[trigger] blocks@[k].0 as int, blocks@[k].1 as int),
            decreases 10 - i,
        {
            let col = random_below(WIDTH as u32);
            let row = random_below(HEIGHT as u32);
            blocks.push((col as i32 - X_MAX, row as i32 - Y_MAX));
            i = i + 1;
        }
        Executors::with_blocks(&blocks)
    }

    /// Places an enemy at `pose` and indexes it, if its cell is empty;
    /// returns whether it did.
    pub fn add_enemy(&mut self, pose: Pose) -> (r: bool)
        requires
            old(self).wf(),
            pose.wf(),
        ensures
            final(self).wf(),
            r == old(self).cell(pose.x as int, pose.y as int) is Place,
            final(self).player_x == old(self).player_x,
            final(self).player_y == old(self).player_y,
            final(self).shoot_place == old(self).shoot_place,
            final(self).point == old(self).point,
            final(self).is_lose == old(self).is_lose,
            r ==> final(self).executors@ == old(self).executors@.update(
                idx(pose.x as int, pose.y as int),
                MapPlace::Enemy(Executor { pose: Some(pose) }),
            ) && final(self).enemy_place@ == old(self).enemy_place@.push((pose.x, pose.y)),
            !r ==> *final(self) == *old(self),
    {
        if let MapPlace::Place = self.get_cell(pose.x, pose.y) {
            self.set_cell(pose.x, pose.y, MapPlace::Enemy(Executor::with_pose(pose)));
            let ghost before = self.enemy_place@;
            self.enemy_place.push((pose.x, pose.y));
            proof {
                lemma_push_contains(before, (pose.x, pose.y));
                assert forall|a: int, b: int| in_bounds(a, b) && (#[trigger] self.cell(a, b)) is Enemy
                    implies self.enemy_place@.contains((a as i32, b as i32)) by {
                    if !(a == pose.x && b == pose.y) {
                        assert(old(self).cell(a, b) is Enemy);
                    }
                }
            }
            proof {
                assert forall|k: int| 0 <= k < before.len() implies #[trigger] self.enemy_place@[k] != (pose.x, pose.y) by {
                    assert(self.enemy_place@[k] == before[k]);
                    assert(old(self).cell(before[k].0 as int, before[k].1 as int) is Enemy);
                }
            }
            true
        } else {
            false
        }
    }

    /// Places a projectile at `pose` and indexes it, if its cell is empty;
    /// returns whether it did.
    pub fn add_shot(&mut self, pose: Pose) -> (r: bool)
        requires
            old(self).wf(),
            pose.wf(),
        ensures
            final(self).wf(),
            r == old(self).cell(pose.x as int, pose.y as int) is Place,
            final(self).player_x == old(self).player_x,
            final(self).player_y == old(self).player_y,
            final(self).enemy_place == old(self).enemy_place,
            final(self).point == old(self).point,
            final(self).is_lose == old(self).is_lose,
            r ==> final(self).executors@ == old(self).executors@.update(
                idx(pose.x as int, pose.y as int),
                MapPlace::Shoot(Executor { pose: Some(pose) }),
            ) && final(self).shoot_place@ == old(self).shoot_place@.push((pose.x, pose.y)),
            !r ==> *final(self) == *old(self),
    {
        if let MapPlace::Place = self.get_cell(pose.x, pose.y) {
            self.set_cell(pose.x, pose.y, MapPlace::Shoot(Executor::with_pose(pose)));
            let ghost before = self.shoot_place@;
            self.shoot_place.push((pose.x, pose.y));
            proof {
                lemma_push_contains(before, (pose.x, pose.y));
                assert forall|a: int, b: int| in_bounds(a, b) && (#[trigger] self.cell(a, b)) is Shoot
                    implies self.shoot_place@.contains((a as i32, b as i32)) by {
                    if !(a == pose.x && b == pose.y) {
                        assert(old(self).cell(a, b) is Shoot);
                    }
                }
            }
            proof {
                assert forall|k: int| 0 <= k < before.len() implies #[trigger] self.shoot_place@[k] != (pose.x, pose.y) by {
                    assert(self.shoot_place@[k] == before[k]);
                    assert(old(self).cell(before[k].0 as int, before[k].1 as int) is Shoot);
                }
            }
            true
        } else {
            false
        }
    }
}

impl Default for MapPlace {
    /// An empty cell.
    fn default() -> (r: MapPlace)
        ensures
            r == MapPlace::Place,
    {
        MapPlace::Place
    }
}

/// In a consistent world no coordinate is both an enemy index and a
/// projectile index: each cell has one occupant.
pub proof fn lemma_indices_disjoint(w: Executors)
    requires
        w.wf(),
    ensures
        forall|j: int, k: int|
            0 <= j < w.enemy_place@.len() && 0 <= k < w.shoot_place@.len() ==> #[trigger] w.enemy_place@[j]
                != #[trigger] w.shoot_place@[k],
{
    assert forall|j: int, k: int|
        0 <= j < w.enemy_place@.len() && 0 <= k < w.shoot_place@.len() implies #[trigger] w.enemy_place@[j]
            != #[trigger] w.shoot_place@[k] by {
        assert(w.cell(w.enemy_place@[j].0 as int, w.enemy_place@[j].1 as int) is Enemy);
        assert(w.cell(w.shoot_place@[k].0 as int, w.shoot_place@[k].1 as int) is Shoot);
    }
}

} // verus!
