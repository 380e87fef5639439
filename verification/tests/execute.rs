use motion_core::command::{Command, IntakeCommand, LadyBrownCommand, Vec2};
use motion_core::execute::{
    autonomous, execute_command, move_settler, Action, Step, MOVE_TIMEOUT_MS, PAUSE_AFTER_MOVE_MS,
    SETTLE_DURATION_MS,
};
use motion_core::settle::Settler;

#[test]
fn move_settler_has_the_times_of_a_move() {
    assert_eq!(SETTLE_DURATION_MS, 250);
    assert_eq!(MOVE_TIMEOUT_MS, 2000);
    assert_eq!(PAUSE_AFTER_MOVE_MS, 250);
    assert_eq!(move_settler(), Settler::new(250, 2000));
}

fn step(action: Action<f64>, pause: u64) -> Step<f64> {
    Step { action, speed: None, pause }
}

#[test]
fn execute_command_plans_moves() {
    let p = Vec2::new(1.0, 2.0);
    assert_eq!(execute_command(Command::Coordinate(p), None), step(Action::SeekPoint(p), 0));
    assert_eq!(execute_command(Command::DriveBy(12.0), None), step(Action::DriveDistance(12.0), 250));
    assert_eq!(execute_command(Command::TurnTo(90.0), None), step(Action::TurnToNegated(90.0), 250));
    assert_eq!(
        execute_command(Command::CubicBezier(p, p, p, p), None),
        step(Action::FollowCurve(p, p, p, p), 0)
    );
}

#[test]
fn execute_command_plans_everything_else() {
    assert_eq!(execute_command(Command::<f64>::Sleep(750), None), step(Action::Wait(750), 0));
    assert_eq!(
        execute_command(Command::IntakeCommand(IntakeCommand::Voltage(6.0)), None),
        step(Action::Intake(IntakeCommand::Voltage(6.0)), 0)
    );
    assert_eq!(
        execute_command(Command::LadyBrownCommand(LadyBrownCommand::Angle(100.0)), None),
        step(Action::LadyBrown(LadyBrownCommand::Angle(100.0)), 0)
    );
    assert_eq!(execute_command(Command::<f64>::NextLBStage, None), step(Action::NextLadyBrownStage, 0));
    assert_eq!(execute_command(Command::<f64>::ToggleClamp, None), step(Action::ToggleClamp, 0));
}

#[test]
fn execute_command_does_nothing_for_the_rest() {
    let nothing = step(Action::Nothing, 0);
    assert_eq!(execute_command(Command::TurnBy(5.0), None), nothing);
    assert_eq!(execute_command(Command::Pose(Vec2::new(0.0, 0.0), 1.0), None), nothing);
    assert_eq!(execute_command(Command::<f64>::ToggleIntake, None), nothing);
    assert_eq!(execute_command(Command::<f64>::ToggleIntakeReverse, None), nothing);
    assert_eq!(execute_command(Command::<f64>::ToggleIntakePiston, None), nothing);
    assert_eq!(execute_command(Command::<f64>::ToggleLadyBrown, None), nothing);
}

#[test]
fn a_speed_command_sets_the_speed_and_nothing_else_changes_it() {
    assert_eq!(
        execute_command(Command::Speed(0.8), None),
        Step { action: Action::Nothing, speed: Some(0.8), pause: 0 }
    );
    assert_eq!(
        execute_command(Command::Speed(1.0), Some(0.8)),
        Step { action: Action::Nothing, speed: Some(1.0), pause: 0 }
    );
    assert_eq!(
        execute_command(Command::DriveBy(3.0), Some(0.8)),
        Step { action: Action::DriveDistance(3.0), speed: Some(0.8), pause: 250 }
    );
    assert_eq!(
        execute_command(Command::<f64>::ToggleClamp, Some(0.5)),
        Step { action: Action::ToggleClamp, speed: Some(0.5), pause: 0 }
    );
}

#[test]
fn autonomous_seeds_from_a_leading_pose_and_skips_it() {
    let path = [Command::Pose(Vec2::new(12.0, 48.0), 90.0), Command::DriveBy(3.0), Command::Sleep(5)];
    let (seed, steps) = autonomous(&path);
    assert_eq!(seed, Some((Vec2::new(12.0, 48.0), 90.0)));
    assert_eq!(steps, vec![step(Action::DriveDistance(3.0), 250), step(Action::Wait(5), 0)]);
}

#[test]
fn autonomous_skips_the_first_command_whatever_it_is() {
    let path = [Command::Coordinate(Vec2::new(1.0, 1.0)), Command::TurnTo(45.0)];
    let (seed, steps) = autonomous(&path);
    assert_eq!(seed, None);
    assert_eq!(steps, vec![step(Action::TurnToNegated(45.0), 250)]);
    let (seed, steps) = autonomous(&[Command::DriveBy(1.0)]);
    assert_eq!(seed, None);
    assert_eq!(steps, vec![]);
    let (_, steps) = autonomous(&[Command::Speed(0.5), Command::DriveBy(1.0)]);
    assert_eq!(steps, vec![step(Action::DriveDistance(1.0), 250)]);
}

#[test]
fn autonomous_of_an_empty_path_does_nothing() {
    let (seed, steps) = autonomous::<f64>(&[]);
    assert_eq!(seed, None);
    assert_eq!(steps, vec![]);
}

#[test]
fn autonomous_keeps_a_speed_in_effect_until_the_next() {
    let path = [
        Command::Coordinate(Vec2::new(12.0, 48.0)),
        Command::DriveBy(1.0),
        Command::Speed(0.8),
        Command::DriveBy(32.0),
        Command::Sleep(750),
        Command::Speed(1.0),
        Command::TurnTo(90.0),
        Command::DriveBy(-26.0),
    ];
    let (_, steps) = autonomous(&path);
    let speeds: Vec<Option<f64>> = steps.iter().map(|s| s.speed).collect();
    assert_eq!(
        speeds,
        vec![None, Some(0.8), Some(0.8), Some(0.8), Some(1.0), Some(1.0), Some(1.0)]
    );
    let actions: Vec<Action<f64>> = steps.iter().map(|s| s.action).collect();
    assert_eq!(
        actions,
        vec![
            Action::DriveDistance(1.0),
            Action::Nothing,
            Action::DriveDistance(32.0),
            Action::Wait(750),
            Action::Nothing,
            Action::TurnToNegated(90.0),
            Action::DriveDistance(-26.0),
        ]
    );
}
