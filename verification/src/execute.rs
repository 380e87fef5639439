//! What carrying out a command takes: the move or the action it asks
//! for, and the pause that follows it.
//!
//! The library decides; its caller drives the motors, waits, and reports
//! each tick to a settler.

use vstd::prelude::*;
use crate::command::{Command, IntakeCommand, LadyBrownCommand, Vec2};
use crate::settle::Settler;

verus! {

/// How long, in milliseconds, a move's error must stay within tolerance.
pub const SETTLE_DURATION_MS: u64 = 250;

/// After how many milliseconds a move is given up.
pub const MOVE_TIMEOUT_MS: u64 = 2000;

/// How long, in milliseconds, the robot rests after a drive or a turn.
pub const PAUSE_AFTER_MOVE_MS: u64 = 250;

/// What the executor is to do for one command.
#[derive(Clone, Copy, Debug, PartialEq)]
pub enum Action<S> {
    /// Seek a point: turn towards it and close the distance to it.
    SeekPoint(Vec2<S>),
    /// Follow the curve with these four control points.
    FollowCurve(Vec2<S>, Vec2<S>, Vec2<S>, Vec2<S>),
    /// Drive a distance along the current heading.
    DriveDistance(S),
    /// Turn to the heading opposite in sign to the given angle: the
    /// heading sensor counts the other way round.
    TurnToNegated(S),
    /// Wait for this many milliseconds.
    Wait(u64),
    /// Hand the instruction to the intake.
    Intake(IntakeCommand<S>),
    /// Hand the instruction to the scoring arm.
    LadyBrown(LadyBrownCommand<S>),
    /// Move the scoring arm to its next stage.
    NextLadyBrownStage,
    /// Toggle both pistons of the goal clamp.
    ToggleClamp,
    /// Do nothing.
    Nothing,
}

/// One step of execution: an action, the speed it is done at, and the
/// pause after it.
#[derive(Clone, Copy, Debug, PartialEq)]
pub struct Step<S> {
    pub action: Action<S>,
    /// The scale of the linear controller's voltage ceiling that is in
    /// effect once this step is taken; `None` while no speed has been set.
    pub speed: Option<S>,
    /// Milliseconds to rest once the action is over.
    pub pause: u64,
}

impl<S> Action<S> {
    /// Whether the action is a move that runs until it has settled or
    /// timed out.
    pub open spec fn is_move(self) -> bool {
        self is SeekPoint || self is DriveDistance || self is TurnToNegated
    }
}

/// The action that carries out `command`. Setting a speed, a relative
/// turn, a pose and the plain subsystem toggles ask for none.
pub open spec fn action_for<S>(command: Command<S>) -> Action<S> {
    match command {
        Command::Coordinate(p) => Action::SeekPoint(p),
        Command::CubicBezier(p0, p1, p2, p3) => Action::FollowCurve(p0, p1, p2, p3),
        Command::DriveBy(d) => Action::DriveDistance(d),
        Command::TurnTo(a) => Action::TurnToNegated(a),
        Command::Sleep(ms) => Action::Wait(ms),
        Command::IntakeCommand(c) => Action::Intake(c),
        Command::LadyBrownCommand(c) => Action::LadyBrown(c),
        Command::NextLBStage => Action::NextLadyBrownStage,
        Command::ToggleClamp => Action::ToggleClamp,
        _ => Action::Nothing,
    }
}

/// The rest after `command`: a drive and a turn are followed by a pause.
pub open spec fn pause_for<S>(command: Command<S>) -> u64 {
    if command is DriveBy || command is TurnTo {
        PAUSE_AFTER_MOVE_MS
    } else {
        0
    }
}

/// The speed in effect after `command`, if `speed` was in effect before
/// it: a speed command sets it, and nothing else changes it.
pub open spec fn speed_after<S>(speed: Option<S>, command: Command<S>) -> Option<S> {
    match command {
        Command::Speed(s) => Some(s),
        _ => speed,
    }
}

/// The step that carries out `command` when `speed` is in effect.
pub open spec fn step_for<S>(command: Command<S>, speed: Option<S>) -> Step<S> {
    Step { action: action_for(command), speed: speed_after(speed, command), pause: pause_for(command) }
}

/// Says what carrying out `command` takes, given the speed in effect.
pub fn execute_command<S: Copy>(command: Command<S>, speed: Option<S>) -> (step: Step<S>)
    ensures
        step == step_for(command, speed),
{
    let action = match command {
        Command::Coordinate(p) => Action::SeekPoint(p),
        Command::CubicBezier(p0, p1, p2, p3) => Action::FollowCurve(p0, p1, p2, p3),
        Command::DriveBy(d) => Action::DriveDistance(d),
        Command::TurnTo(a) => Action::TurnToNegated(a),
        Command::Sleep(ms) => Action::Wait(ms),
        Command::IntakeCommand(c) => Action::Intake(c),
        Command::LadyBrownCommand(c) => Action::LadyBrown(c),
        Command::NextLBStage => Action::NextLadyBrownStage,
        Command::ToggleClamp => Action::ToggleClamp,
        _ => Action::Nothing,
    };
    let pause = match command {
        Command::DriveBy(_) => PAUSE_AFTER_MOVE_MS,
        Command::TurnTo(_) => PAUSE_AFTER_MOVE_MS,
        _ => 0,
    };
    let speed = match command {
        Command::Speed(s) => Some(s),
        _ => speed,
    };
    Step { action, speed, pause }
}

/// The settler that watches one move.
pub fn move_settler() -> (s: Settler)
    ensures
        s == (Settler {
            duration: SETTLE_DURATION_MS,
            timeout: MOVE_TIMEOUT_MS,
            started: None,
            within_since: None,
        }),
{
    Settler::new(SETTLE_DURATION_MS, MOVE_TIMEOUT_MS)
}

/// The pose that an autonomous run is seeded with: that of the path's
/// first command, if it is a pose.
pub open spec fn seed_of<S>(path: Seq<Command<S>>) -> Option<(Vec2<S>, S)> {
    if path.len() > 0 && path[0] is Pose {
        Some((path[0]->Pose_0, path[0]->Pose_1))
    } else {
        None
    }
}

/// The speed in effect once the first `n` commands after the start have
/// been carried out.
pub open spec fn speed_at<S>(path: Seq<Command<S>>, n: int) -> Option<S>
    decreases n,
{
    if n <= 0 {
        None
    } else {
        speed_after(speed_at(path, n - 1), path[n])
    }
}

/// The steps of an autonomous run: one for each command after the first,
/// which only says where the robot starts.
pub open spec fn steps_of<S>(path: Seq<Command<S>>) -> Seq<Step<S>> {
    Seq::new(
        if path.len() > 0 {
            (path.len() - 1) as nat
        } else {
            0
        },
        |i: int| step_for(path[i + 1], speed_at(path, i)),
    )
}

/// The speed in effect is that of the latest speed command: if `path[j]`
/// sets a speed and no command from there up to the `n`-th sets another,
/// that speed is in effect after the `n`-th.
pub proof fn lemma_speed_is_the_latest<S>(path: Seq<Command<S>>, j: int, n: int)
    requires
        1 <= j <= n < path.len(),
        path[j] is Speed,
        forall|k: int| j < k <= n ==> !(#[trigger] path[k] is Speed),
    ensures
        speed_at(path, n) == Some(path[j]->Speed_0),
    decreases n - j,
{
    if j < n {
        lemma_speed_is_the_latest(path, j, n - 1);
    }
}

/// While no speed command has been carried out, no speed is in effect.
pub proof fn lemma_no_speed_before_the_first<S>(path: Seq<Command<S>>, n: int)
    requires
        0 <= n < path.len(),
        forall|k: int| 1 <= k <= n ==> !(#[trigger] path[k] is Speed),
    ensures
        speed_at(path, n) is None,
    decreases n,
{
    if n > 0 {
        lemma_no_speed_before_the_first(path, n - 1);
    }
}

/// Lays out an autonomous run: the pose to seed the tracking with, if the
/// path gives one, and the steps to take in order, each with the speed
/// that is in effect for it.
pub fn autonomous<S: Copy>(path: &[Command<S>]) -> (plan: (Option<(Vec2<S>, S)>, Vec<Step<S>>))
    ensures
        plan.0 == seed_of(path@),
        plan.1@ == steps_of(path@),
{
    let mut steps: Vec<Step<S>> = Vec::new();
    if path.len() == 0 {
        assert(steps@ =~= steps_of(path@));
        return (None, steps);
    }
    let seed = match path[0] {
        Command::Pose(position, heading) => Some((position, heading)),
        _ => None,
    };
    let mut speed: Option<S> = None;
    let mut i: usize = 1;
    while i < path.len()
        invariant
            1 <= i <= path@.len(),
            steps@.len() == i - 1,
            speed == speed_at(path@, i - 1),
            forall|j: int|
                0 <= j < i - 1 ==> #[trigger] steps@[j] == step_for(path@[j + 1], speed_at(path@, j)),
        decreases path@.len() - i,
    {
        let step = execute_command(path[i], speed);
        speed = step.speed;
        steps.push(step);
        i += 1;
    }
    assert(steps@ =~= steps_of(path@));
    (seed, steps)
}

} // verus!
