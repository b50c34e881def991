use car_battle::executor::{AgentError, Command, Executor, Pose, X_MAX, Y_MAX};

#[test]
fn go_straight() {
    let mut car = Executor::with_pose(Pose::new(0, 0, 'N'));
    for _ in 0..10 {
        car.execute("M").unwrap();
    }
    // North decreases `y`: ten steps stop at the northern edge.
    assert_eq!(car, Executor::with_pose(Pose::new(0, -5, 'N')));
}

#[test]
fn go_circle() {
    let mut car = Executor::with_pose(Pose::new(0, 0, 'N'));
    car.execute("L").unwrap();
    car.execute("L").unwrap();
    car.execute("L").unwrap();
    car.execute("L").unwrap();
    car.execute("R").unwrap();
    car.execute("R").unwrap();
    car.execute("R").unwrap();
    car.execute("R").unwrap();
    car.execute("M").unwrap();
    car.execute("L").unwrap();
    // The single step north lands on `y == -1`.
    assert_eq!(car, Executor::with_pose(Pose::new(0, -1, 'W')));
}

#[test]
fn forward_ten_times_stops_at_the_edge() {
    let mut car = Executor::with_pose(Pose::new(0, 0, 'N'));
    for _ in 0..10 {
        car.execute("forward").unwrap();
    }
    assert_eq!(car.query(), Ok((0, -5, 'N')));
}

#[test]
fn turns_and_one_step_with_command_words() {
    let mut car = Executor::with_pose(Pose::new(0, 0, 'N'));
    for _ in 0..4 {
        car.execute("rotate-left").unwrap();
    }
    for _ in 0..4 {
        car.execute("rotate-right").unwrap();
    }
    car.execute("forward").unwrap();
    car.execute("rotate-left").unwrap();
    assert_eq!(car.query(), Ok((0, -1, 'W')));
}

#[test]
fn four_turns_return_to_the_start() {
    for h in ['N', 'E', 'S', 'W'] {
        let p = Pose::new(2, -3, h);
        assert_eq!(p.left().left().left().left(), p);
        assert_eq!(p.right().right().right().right(), p);
        assert_eq!(p.left().right().heading, h);
    }
}

#[test]
fn left_and_right_cycles() {
    let p = Pose::new(0, 0, 'E');
    assert_eq!(p.left().heading, 'N');
    assert_eq!(p.left().left().heading, 'W');
    assert_eq!(p.right().heading, 'S');
    assert_eq!(p.right().right().heading, 'W');
}

#[test]
fn forward_steps_along_each_heading() {
    assert_eq!(Pose::new(0, 0, 'N').translate_forward(), Pose::new(0, -1, 'N'));
    assert_eq!(Pose::new(0, 0, 'S').translate_forward(), Pose::new(0, 1, 'S'));
    assert_eq!(Pose::new(0, 0, 'E').translate_forward(), Pose::new(1, 0, 'E'));
    assert_eq!(Pose::new(0, 0, 'W').translate_forward(), Pose::new(-1, 0, 'W'));
}

#[test]
fn forward_is_held_at_every_edge() {
    assert_eq!(Pose::new(X_MAX, 0, 'E').translate_forward(), Pose::new(X_MAX, 0, 'E'));
    assert_eq!(Pose::new(-X_MAX, 0, 'W').translate_forward(), Pose::new(-X_MAX, 0, 'W'));
    assert_eq!(Pose::new(0, Y_MAX, 'S').translate_forward(), Pose::new(0, Y_MAX, 'S'));
    assert_eq!(Pose::new(0, -Y_MAX, 'N').translate_forward(), Pose::new(0, -Y_MAX, 'N'));
    let mut p = Pose::new(-3, 2, 'E');
    for _ in 0..30 {
        p = p.translate_forward();
        assert!(p.x.abs() <= X_MAX && p.y.abs() <= Y_MAX);
    }
    assert_eq!(p, Pose::new(X_MAX, 2, 'E'));
}

#[test]
fn unknown_command_changes_nothing() {
    let mut car = Executor::with_pose(Pose::new(1, 1, 'S'));
    assert_eq!(car.execute("jump"), Ok(()));
    assert_eq!(car, Executor::with_pose(Pose::new(1, 1, 'S')));
}

#[test]
fn vehicle_without_pose_is_invalid() {
    let mut car = Executor { pose: None };
    assert_eq!(car.execute("M"), Err(AgentError::InvalidState));
    assert_eq!(car.query(), Err(AgentError::InvalidState));
    assert_eq!(car, Executor { pose: None });
}

#[test]
fn parse_reads_both_spellings() {
    assert_eq!(Command::parse("M"), Command::Forward);
    assert_eq!(Command::parse("forward"), Command::Forward);
    assert_eq!(Command::parse("L"), Command::RotateLeft);
    assert_eq!(Command::parse("rotate-left"), Command::RotateLeft);
    assert_eq!(Command::parse("R"), Command::RotateRight);
    assert_eq!(Command::parse("rotate-right"), Command::RotateRight);
    assert_eq!(Command::parse("forwards"), Command::Unknown);
    assert_eq!(Command::parse(""), Command::Unknown);
}

#[test]
fn default_pose_is_origin_facing_north() {
    assert_eq!(Pose::default(), Pose::new(0, 0, 'N'));
}

#[test]
fn default_vehicle_has_no_pose() {
    let car = Executor::default();
    assert_eq!(car, Executor { pose: None });
    assert_eq!(car.query(), Err(AgentError::InvalidState));
}
