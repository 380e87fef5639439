//! The command model: positions, poses, and the instructions of a path.
//!
//! The types are generic in their scalar `S`. The library never computes
//! with a scalar; it carries it, compares where it was put, and hands it
//! to the arithmetic that its caller supplies.

use vstd::prelude::*;

verus! {

/// A point or a displacement in the plane.
#[derive(Clone, Copy, Debug, PartialEq)]
pub struct Vec2<S> {
    pub x: S,
    pub y: S,
}

impl<S> Vec2<S> {
    /// The vector with the given coordinates.
    pub fn new(x: S, y: S) -> (v: Self)
        ensures
            v == (Vec2 { x, y }),
    {
        Vec2 { x, y }
    }
}

impl<S: Copy> Vec2<S> {
    /// Both coordinates as a pair.
    pub fn get(&self) -> (r: (S, S))
        ensures
            r == (self.x, self.y),
    {
        (self.x, self.y)
    }
}

impl<S: View> View for Vec2<S> {
    type V = Vec2<S::V>;

    open spec fn view(&self) -> Vec2<S::V> {
        Vec2 { x: self.x@, y: self.y@ }
    }
}

/// A position together with the heading, in degrees, that the robot faces.
#[derive(Clone, Copy, Debug, PartialEq)]
pub struct Pose<S> {
    pub position: Vec2<S>,
    pub heading: S,
}

impl<S> Pose<S> {
    /// The pose at `position`, facing `heading`.
    pub fn new(position: Vec2<S>, heading: S) -> (p: Self)
        ensures
            p == (Pose { position, heading }),
    {
        Pose { position, heading }
    }
}

/// What the intake is told to do.
#[derive(Clone, Copy, Debug, PartialEq)]
pub enum IntakeCommand<S> {
    Off,
    On,
    Voltage(S),
}

impl<S> IntakeCommand<S> {
    /// The opposite of a switch position: off becomes on, and anything
    /// that runs the intake becomes off.
    pub open spec fn toggled(self) -> Self {
        match self {
            IntakeCommand::Off => IntakeCommand::On,
            IntakeCommand::On => IntakeCommand::Off,
            IntakeCommand::Voltage(_) => IntakeCommand::Off,
        }
    }
}

impl<S> vstd::std_specs::ops::NotSpecImpl for IntakeCommand<S> {
    open spec fn obeys_not_spec() -> bool {
        true
    }

    open spec fn not_req(self) -> bool {
        true
    }

    open spec fn not_spec(self) -> Self {
        self.toggled()
    }
}

impl<S> core::ops::Not for IntakeCommand<S> {
    type Output = Self;

    /// Toggles the intake.
    fn not(self) -> (r: Self) {
        match self {
            IntakeCommand::Off => IntakeCommand::On,
            IntakeCommand::On => IntakeCommand::Off,
            IntakeCommand::Voltage(_) => IntakeCommand::Off,
        }
    }
}

impl<S: View> View for IntakeCommand<S> {
    type V = IntakeCommand<S::V>;

    open spec fn view(&self) -> IntakeCommand<S::V> {
        match self {
            IntakeCommand::Off => IntakeCommand::Off,
            IntakeCommand::On => IntakeCommand::On,
            IntakeCommand::Voltage(v) => IntakeCommand::Voltage(v@),
        }
    }
}

/// What the scoring arm is told to do.
#[derive(Clone, Copy, Debug, PartialEq)]
pub enum LadyBrownCommand<S> {
    Next,
    Angle(S),
    Voltage(S),
}

impl<S: View> View for LadyBrownCommand<S> {
    type V = LadyBrownCommand<S::V>;

    open spec fn view(&self) -> LadyBrownCommand<S::V> {
        match self {
            LadyBrownCommand::Next => LadyBrownCommand::Next,
            LadyBrownCommand::Angle(v) => LadyBrownCommand::Angle(v@),
            LadyBrownCommand::Voltage(v) => LadyBrownCommand::Voltage(v@),
        }
    }
}

/// One instruction of a path.
#[derive(Clone, Copy, Debug, PartialEq)]
pub enum Command<S> {
    /// Move to a point on the field.
    Coordinate(Vec2<S>),
    /// Follow a cubic Bezier curve with these four control points.
    CubicBezier(Vec2<S>, Vec2<S>, Vec2<S>, Vec2<S>),
    /// Drive forward by a distance along the current heading.
    DriveBy(S),
    /// Take up a position and a heading.
    Pose(Vec2<S>, S),
    /// Turn by an angle relative to the current heading.
    TurnBy(S),
    /// Turn to an absolute heading.
    TurnTo(S),
    /// Scale the voltage ceiling of all later moves.
    Speed(S),
    /// Wait for a number of milliseconds.
    Sleep(u64),
    /// Hand an instruction to the intake.
    IntakeCommand(IntakeCommand<S>),
    /// Move the scoring arm to its next stage.
    NextLBStage,
    /// Hand an instruction to the scoring arm.
    LadyBrownCommand(LadyBrownCommand<S>),
    /// Toggle the goal clamp.
    ToggleClamp,
    /// Toggle the intake.
    ToggleIntake,
    /// Toggle the intake's direction.
    ToggleIntakeReverse,
    /// Toggle the intake's piston.
    ToggleIntakePiston,
    /// Toggle the scoring arm.
    ToggleLadyBrown,
}

impl<S: View> View for Command<S> {
    type V = Command<S::V>;

    open spec fn view(&self) -> Command<S::V> {
        match self {
            Command::Coordinate(p) => Command::Coordinate(p@),
            Command::CubicBezier(p0, p1, p2, p3) => Command::CubicBezier(p0@, p1@, p2@, p3@),
            Command::DriveBy(d) => Command::DriveBy(d@),
            Command::Pose(p, h) => Command::Pose(p@, h@),
            Command::TurnBy(a) => Command::TurnBy(a@),
            Command::TurnTo(a) => Command::TurnTo(a@),
            Command::Speed(s) => Command::Speed(s@),
            Command::Sleep(ms) => Command::Sleep(*ms),
            Command::IntakeCommand(c) => Command::IntakeCommand(c@),
            Command::NextLBStage => Command::NextLBStage,
            Command::LadyBrownCommand(c) => Command::LadyBrownCommand(c@),
            Command::ToggleClamp => Command::ToggleClamp,
            Command::ToggleIntake => Command::ToggleIntake,
            Command::ToggleIntakeReverse => Command::ToggleIntakeReverse,
            Command::ToggleIntakePiston => Command::ToggleIntakePiston,
            Command::ToggleLadyBrown => Command::ToggleLadyBrown,
        }
    }
}

} // verus!
