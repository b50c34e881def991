use car_battle::executor::{Executor, Pose};
use car_battle::play::AppMessage;
use car_battle::world::{Executors, MapPlace};

fn enemy(x: i32, y: i32, h: char) -> MapPlace {
    MapPlace::Enemy(Executor::with_pose(Pose::new(x, y, h)))
}

fn player(x: i32, y: i32, h: char) -> MapPlace {
    MapPlace::Player(Executor::with_pose(Pose::new(x, y, h)))
}

#[test]
fn player_blocked_by_enemy_stays() {
    let mut w = Executors::with_player(Pose::new(0, 0, 'S'));
    assert!(w.add_enemy(Pose::new(0, 1, 'S')));
    w.player_move("forward");
    assert_eq!((w.player_x, w.player_y), (0, 0));
    assert_eq!(w.get_cell(0, 0), player(0, 0, 'S'));
    assert_eq!(w.get_cell(0, 1), enemy(0, 1, 'S'));
}

#[test]
fn player_moves_into_empty_cell() {
    let mut w = Executors::with_player(Pose::new(0, 0, 'S'));
    w.player_move("M");
    assert_eq!((w.player_x, w.player_y), (0, 1));
    assert_eq!(w.get_cell(0, 1), player(0, 1, 'S'));
    assert_eq!(w.get_cell(0, 0), MapPlace::Place);
}

#[test]
fn player_blocked_by_block_and_edge() {
    let mut w = Executors::with_blocks(&vec![(0, 4)]);
    assert_eq!(w.get_cell(0, 4), MapPlace::Block);
    w.player_move("forward");
    assert_eq!((w.player_x, w.player_y), (0, 5));
    w.player_move("rotate-left");
    w.player_move("rotate-left");
    assert_eq!(w.get_cell(0, 5), player(0, 5, 'S'));
    w.player_move("forward");
    assert_eq!((w.player_x, w.player_y), (0, 5));
    w.player_move("teleport");
    assert_eq!(w.get_cell(0, 5), player(0, 5, 'S'));
}

#[test]
fn shot_hits_player_and_game_is_lost() {
    let mut w = Executors::with_player(Pose::new(0, 0, 'N'));
    assert!(w.add_shot(Pose::new(0, 1, 'N')));
    w.shoot_move();
    assert_eq!(w.get_cell(0, 0), MapPlace::Place);
    assert_eq!(w.get_cell(0, 1), MapPlace::Place);
    assert!(w.shoot_place.is_empty());
    assert!(w.is_lose);
    w.player_move("rotate-left");
    assert_eq!(w.get_cell(0, 0), MapPlace::Place);
}

#[test]
fn shot_hits_enemy_and_scores() {
    let mut w = Executors::with_player(Pose::new(5, 5, 'N'));
    assert!(w.add_enemy(Pose::new(0, 0, 'E')));
    assert!(w.add_shot(Pose::new(0, -1, 'S')));
    w.shoot_move();
    assert_eq!(w.get_cell(0, 0), MapPlace::Place);
    assert_eq!(w.get_cell(0, -1), MapPlace::Place);
    assert!(w.enemy_place.is_empty());
    assert!(w.shoot_place.is_empty());
    assert_eq!(w.point, 1);
    assert!(!w.is_lose);
}

#[test]
fn two_shots_annihilate() {
    let mut w = Executors::with_player(Pose::new(5, 5, 'N'));
    assert!(w.add_shot(Pose::new(0, 0, 'S')));
    assert!(w.add_shot(Pose::new(0, 1, 'N')));
    w.shoot_move();
    assert_eq!(w.get_cell(0, 0), MapPlace::Place);
    assert_eq!(w.get_cell(0, 1), MapPlace::Place);
    assert!(w.shoot_place.is_empty());
    assert_eq!(w.point, 0);
}

#[test]
fn shot_at_edge_destroys_itself() {
    let mut w = Executors::with_player(Pose::new(5, 5, 'N'));
    assert!(w.add_shot(Pose::new(0, -5, 'N')));
    w.shoot_move();
    assert_eq!(w.get_cell(0, -5), MapPlace::Place);
    assert!(w.shoot_place.is_empty());
}

#[test]
fn shot_absorbed_by_block() {
    let mut w = Executors::with_blocks(&vec![(0, 0)]);
    assert!(w.add_shot(Pose::new(0, 1, 'N')));
    w.shoot_move();
    assert_eq!(w.get_cell(0, 0), MapPlace::Block);
    assert_eq!(w.get_cell(0, 1), MapPlace::Place);
    assert!(w.shoot_place.is_empty());
}

#[test]
fn shot_moves_into_empty_cell() {
    let mut w = Executors::with_player(Pose::new(5, 5, 'N'));
    assert!(w.add_shot(Pose::new(0, 0, 'E')));
    w.shoot_move();
    assert_eq!(w.get_cell(0, 0), MapPlace::Place);
    assert_eq!(w.get_cell(1, 0), MapPlace::Shoot(Executor::with_pose(Pose::new(1, 0, 'E'))));
    assert_eq!(w.shoot_place, vec![(1, 0)]);
}

#[test]
fn fire_creates_shot_ahead() {
    let mut w = Executors::with_player(Pose::new(0, 0, 'N'));
    w.shoot();
    let mut shot = Pose::new(0, -1, 'N');
    shot.is_shoot = true;
    assert_eq!(w.get_cell(0, -1), MapPlace::Shoot(Executor::with_pose(shot)));
    assert_eq!(w.shoot_place, vec![(0, -1)]);
    assert_eq!(w.get_cell(0, 0), player(0, 0, 'N'));
}

#[test]
fn fire_onto_occupied_cell_creates_nothing() {
    let mut w = Executors::with_player(Pose::new(0, 0, 'N'));
    assert!(w.add_enemy(Pose::new(0, -1, 'S')));
    w.shoot();
    assert!(w.shoot_place.is_empty());
    assert_eq!(w.get_cell(0, -1), enemy(0, -1, 'S'));
    assert_eq!(w.get_cell(0, 0), player(0, 0, 'N'));
}

#[test]
fn spawn_fills_empty_spawn_points_only() {
    let mut w = Executors::with_player(Pose::new(0, 0, 'N'));
    assert!(w.add_shot(Pose::new(-4, -5, 'E')));
    w.spawn();
    assert_eq!(w.enemy_place, vec![(4, -5)]);
    assert_eq!(w.get_cell(4, -5), enemy(4, -5, 'S'));
    w.spawn();
    assert_eq!(w.enemy_place, vec![(4, -5)]);
}

#[test]
fn new_world_layout() {
    let w = Executors::new();
    assert_eq!((w.player_x, w.player_y), (0, 5));
    assert_eq!(w.get_cell(0, 5), player(0, 5, 'N'));
    assert_eq!(w.enemy_place, vec![(4, -5), (-4, -5)]);
    assert_eq!(w.get_cell(4, -5), enemy(4, -5, 'S'));
    assert_eq!(w.get_cell(-4, -5), enemy(-4, -5, 'S'));
    assert_eq!(w.point, 0);
    assert!(!w.is_lose);
    let blocks = w.executors.iter().filter(|c| **c == MapPlace::Block).count();
    assert!(blocks <= 10);
}

#[test]
fn enemy_draws_decide_its_move() {
    let mut w = Executors::with_player(Pose::new(5, 5, 'N'));
    assert!(w.add_enemy(Pose::new(0, 0, 'S')));
    w.enemy_move_by(&vec![(0, 0)]);
    assert_eq!(w.enemy_place, vec![(0, 1)]);
    assert_eq!(w.get_cell(0, 1), enemy(0, 1, 'S'));
    assert_eq!(w.get_cell(0, 0), MapPlace::Place);
    w.enemy_move_by(&vec![(1, 0)]);
    assert_eq!(w.get_cell(0, 1), enemy(0, 1, 'W'));
    w.enemy_move_by(&vec![(2, 0)]);
    assert_eq!(w.get_cell(0, 1), enemy(0, 1, 'S'));
}

#[test]
fn blocked_enemy_falls_back() {
    let mut w = Executors::with_player(Pose::new(0, 1, 'N'));
    assert!(w.add_enemy(Pose::new(0, 0, 'S')));
    w.enemy_move_by(&vec![(4, 0)]);
    assert_eq!(w.get_cell(0, 0), enemy(0, 0, 'S'));
    w.enemy_move_by(&vec![(5, 1)]);
    assert_eq!(w.get_cell(0, 0), enemy(0, 0, 'W'));
    w.enemy_move_by(&vec![(2, 0)]);
    assert_eq!(w.get_cell(0, 0), enemy(0, 0, 'S'));
    assert_eq!(w.enemy_place, vec![(0, 0)]);
}

#[test]
fn random_enemy_pass_keeps_the_index() {
    let mut w = Executors::with_blocks(&vec![]);
    for _ in 0..20 {
        w.enemy_move();
        assert_eq!(w.enemy_place.len(), 2);
        for &(x, y) in &w.enemy_place {
            assert!(matches!(w.get_cell(x, y), MapPlace::Enemy(_)));
        }
    }
}

#[test]
fn end_tick_changes_nothing() {
    let mut w = Executors::with_player(Pose::new(0, 0, 'N'));
    w.handle(AppMessage::End);
    assert!(w.shoot_place.is_empty());
    w.handle(AppMessage::Shoot);
    assert_eq!(w.shoot_place, vec![(0, -1)]);
    w.handle(AppMessage::MoveShoot);
    assert_eq!(w.shoot_place, vec![(0, -2)]);
    w.handle(AppMessage::SpawnEnemy);
    assert_eq!(w.enemy_place.len(), 2);
    w.handle(AppMessage::MoveEnemies);
    assert_eq!(w.enemy_place.len(), 2);
}

#[test]
fn shots_in_a_row_follow_index_order() {
    let mut w = Executors::with_player(Pose::new(5, 5, 'N'));
    assert!(w.add_shot(Pose::new(0, 1, 'S')));
    assert!(w.add_shot(Pose::new(0, 0, 'S')));
    w.shoot_move();
    assert_eq!(w.shoot_place, vec![(0, 2), (0, 1)]);
    assert_eq!(w.get_cell(0, 0), MapPlace::Place);

    let mut v = Executors::with_player(Pose::new(5, 5, 'N'));
    assert!(v.add_shot(Pose::new(0, 0, 'S')));
    assert!(v.add_shot(Pose::new(0, 1, 'S')));
    v.shoot_move();
    assert!(v.shoot_place.is_empty());
}

#[test]
fn moved_shot_is_not_moved_twice() {
    let mut w = Executors::with_player(Pose::new(5, 5, 'N'));
    assert!(w.add_shot(Pose::new(0, 0, 'S')));
    assert!(w.add_shot(Pose::new(1, 1, 'W')));
    assert!(w.add_shot(Pose::new(0, 1, 'E')));
    w.shoot_move();
    assert_eq!(w.shoot_place, vec![(0, 1)]);
    assert_eq!(w.get_cell(0, 1), MapPlace::Shoot(Executor::with_pose(Pose::new(0, 1, 'W'))));
    assert_eq!(w.get_cell(0, 0), MapPlace::Place);
    assert_eq!(w.get_cell(1, 1), MapPlace::Place);
}

#[test]
fn enemies_fire_before_the_player() {
    let mut w = Executors::with_player(Pose::new(0, 2, 'N'));
    assert!(w.add_enemy(Pose::new(0, 0, 'S')));
    w.shoot();
    let mut shot = Pose::new(0, 1, 'S');
    shot.is_shoot = true;
    assert_eq!(w.shoot_place, vec![(0, 1)]);
    assert_eq!(w.get_cell(0, 1), MapPlace::Shoot(Executor::with_pose(shot)));
}

#[test]
fn lost_player_does_not_fire() {
    let mut w = Executors::with_player(Pose::new(0, 0, 'N'));
    assert!(w.add_shot(Pose::new(0, 1, 'N')));
    w.shoot_move();
    assert!(w.is_lose);
    w.shoot();
    assert!(w.shoot_place.is_empty());
}
