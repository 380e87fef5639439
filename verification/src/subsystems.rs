//! The scoring arm's stages: a fixed cycle of four target positions.

use vstd::prelude::*;

verus! {

/// A stage of the scoring arm.
#[derive(Clone, Copy, Debug, PartialEq, Eq, Structural)]
pub enum Stage {
    /// Resting position, which the arm falls back to.
    Rest,
    /// In line with the intake, to pick up a ring.
    Load,
    /// Lined up before scoring.
    Align,
    /// Scoring position on the wall stake.
    Score,
}

/// What the arm's motors are told at one tick.
#[derive(Clone, Copy, Debug, PartialEq, Eq, Structural)]
pub enum ArmDrive {
    /// Drive downwards.
    Lower,
    /// Drive upwards.
    Raise,
    /// Brake and let the arm coast.
    Coast,
    /// Brake and hold the position.
    Hold,
}

impl Stage {
    /// The place of the stage in the cycle, from 0.
    pub open spec fn index(self) -> int {
        match self {
            Stage::Rest => 0,
            Stage::Load => 1,
            Stage::Align => 2,
            Stage::Score => 3,
        }
    }

    /// The stage at a place in the cycle.
    pub open spec fn at(index: int) -> Stage {
        if index % 4 == 0 {
            Stage::Rest
        } else if index % 4 == 1 {
            Stage::Load
        } else if index % 4 == 2 {
            Stage::Align
        } else {
            Stage::Score
        }
    }

    /// The stage reached from this one by `n` steps round the cycle.
    pub open spec fn advanced(self, n: nat) -> Stage {
        Stage::at(self.index() + n)
    }

    /// The arm's target angle at this stage, in whole degrees.
    pub open spec fn target(self) -> u32 {
        match self {
            Stage::Rest => 80,
            Stage::Load => 8,
            Stage::Align => 100,
            Stage::Score => 150,
        }
    }

    /// What the motors do at this stage, given whether the arm is above
    /// and whether it is below the stage's target angle: at rest the arm
    /// is driven down to its target and then coasts; at the other stages
    /// it is driven up to its target and then held.
    pub open spec fn drive(self, above: bool, below: bool) -> ArmDrive {
        match self {
            Stage::Rest => if above {
                ArmDrive::Lower
            } else {
                ArmDrive::Coast
            },
            _ => if below {
                ArmDrive::Raise
            } else {
                ArmDrive::Hold
            },
        }
    }

    /// The stage after this one; after the last comes the first.
    pub fn next(self) -> (s: Stage)
        ensures
            s == self.advanced(1),
    {
        match self {
            Stage::Rest => Stage::Load,
            Stage::Load => Stage::Align,
            Stage::Align => Stage::Score,
            Stage::Score => Stage::Rest,
        }
    }

    /// The target angle of this stage, in whole degrees.
    pub fn target_angle(self) -> (a: u32)
        ensures
            a == self.target(),
    {
        match self {
            Stage::Rest => 80,
            Stage::Load => 8,
            Stage::Align => 100,
            Stage::Score => 150,
        }
    }

    /// Decides what the motors do at one tick.
    pub fn arm_drive(self, above: bool, below: bool) -> (d: ArmDrive)
        ensures
            d == self.drive(above, below),
    {
        match self {
            Stage::Rest => if above {
                ArmDrive::Lower
            } else {
                ArmDrive::Coast
            },
            _ => if below {
                ArmDrive::Raise
            } else {
                ArmDrive::Hold
            },
        }
    }
}

/// Stepping round the cycle adds up: `m` steps and then `n` steps are
/// `m + n` steps.
pub proof fn lemma_advance_adds(s: Stage, m: nat, n: nat)
    ensures
        s.advanced(m).advanced(n) == s.advanced(m + n),
{
}

/// Four steps round the cycle lead back to where they began.
pub proof fn lemma_cycle_of_four(s: Stage)
    ensures
        s.advanced(4) == s,
        s.advanced(0) == s,
{
}

} // verus!
