//! Ticks delivered by the scheduler, and how the world answers them.

use vstd::prelude::*;
use crate::world::{Executors, spawn_result};
use crate::enemies::enemies_moved;
use crate::shots::{fire_pass, firers, shots_pass};

verus! {

/// A tick delivered to the world by the scheduler.
#[derive(Debug, Copy, Clone, PartialEq, Eq, Structural)]
pub enum AppMessage {
    SpawnEnemy,
    MoveEnemies,
    MoveShoot,
    Shoot,
    End,
}

impl Executors {
    /// Runs the operation that a tick names; `End` changes nothing.
    pub fn handle(&mut self, msg: AppMessage)
        requires
            old(self).wf(),
        ensures
            final(self).wf(),
            final(self).player_x == old(self).player_x,
            final(self).player_y == old(self).player_y,
            msg == AppMessage::End ==> *final(self) == *old(self),
            msg == AppMessage::SpawnEnemy ==> {
                &&& (final(self).executors@, final(self).enemy_place@) == spawn_result(*old(self))
                &&& final(self).shoot_place == old(self).shoot_place
                &&& final(self).point == old(self).point
                &&& final(self).is_lose == old(self).is_lose
            },
            msg == AppMessage::MoveEnemies ==> {
                &&& enemies_moved(*old(self), *final(self))
                &&& final(self).shoot_place == old(self).shoot_place
                &&& final(self).point == old(self).point
                &&& final(self).is_lose == old(self).is_lose
            },
            msg == AppMessage::Shoot ==> {
                &&& (final(self).executors@, final(self).shoot_place@) == fire_pass(
                    old(self).executors@,
                    old(self).shoot_place@,
                    firers(*old(self)),
                )
                &&& final(self).enemy_place == old(self).enemy_place
                &&& final(self).point == old(self).point
                &&& final(self).is_lose == old(self).is_lose
            },
            msg == AppMessage::MoveShoot ==> (final(self).executors@, final(self).enemy_place@, final(self).point,
                final(self).is_lose, final(self).shoot_place@) == shots_pass(
                (old(self).executors@, old(self).enemy_place@, old(self).point, old(self).is_lose, Seq::empty()),
                old(self).shoot_place@,
            ),
    {
        match msg {
            AppMessage::SpawnEnemy => self.spawn(),
            AppMessage::MoveEnemies => self.enemy_move(),
            AppMessage::MoveShoot => self.shoot_move(),
            AppMessage::Shoot => self.shoot(),
            AppMessage::End => {},
        }
    }
}

} // verus!
