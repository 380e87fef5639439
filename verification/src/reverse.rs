//! Mirroring a path to the other side of the field.
//!
//! Every position and every absolute heading of a path is replaced by its
//! mirror image; the caller supplies how a point and an angle are
//! mirrored.

use vstd::prelude::*;
use crate::command::{Command, Vec2};

verus! {

/// Whether `mirrored` is `command` seen from the other side: its points
/// mirrored by `reverse_coord`, the heading of an absolute turn mirrored
/// by `reverse_angle`, and everything else, the heading of a pose too, as
/// it was.
pub open spec fn is_mirror_of<S, C, A>(
    command: Command<S>,
    mirrored: Command<S>,
    reverse_coord: C,
    reverse_angle: A,
) -> bool where C: Fn(Vec2<S>) -> Vec2<S>, A: Fn(S) -> S {
    match command {
        Command::TurnTo(angle) => {
            &&& mirrored is TurnTo
            &&& call_ensures(reverse_angle, (angle,), mirrored->TurnTo_0)
        },
        Command::Coordinate(coord) => {
            &&& mirrored is Coordinate
            &&& call_ensures(reverse_coord, (coord,), mirrored->Coordinate_0)
        },
        Command::CubicBezier(p0, p1, p2, p3) => {
            &&& mirrored is CubicBezier
            &&& call_ensures(reverse_coord, (p0,), mirrored->CubicBezier_0)
            &&& call_ensures(reverse_coord, (p1,), mirrored->CubicBezier_1)
            &&& call_ensures(reverse_coord, (p2,), mirrored->CubicBezier_2)
            &&& call_ensures(reverse_coord, (p3,), mirrored->CubicBezier_3)
        },
        Command::Pose(coord, angle) => {
            &&& mirrored is Pose
            &&& call_ensures(reverse_coord, (coord,), mirrored->Pose_0)
            &&& mirrored->Pose_1 == angle
        },
        _ => mirrored == command,
    }
}

/// Mirrors every command of a path.
pub fn invert_coords<S: Copy, C, A>(commands: &[Command<S>], reverse_coord: C, reverse_angle: A) -> (out:
    Vec<Command<S>>) where C: Fn(Vec2<S>) -> Vec2<S>, A: Fn(S) -> S
    requires
        forall|p: Vec2<S>| call_requires(reverse_coord, (p,)),
        forall|a: S| call_requires(reverse_angle, (a,)),
    ensures
        out@.len() == commands@.len(),
        forall|i: int|
            0 <= i < commands@.len() ==> is_mirror_of(
                commands@[i],
                #[trigger] out@[i],
                reverse_coord,
                reverse_angle,
            ),
{
    let mut out: Vec<Command<S>> = Vec::new();
    let mut i: usize = 0;
    while i < commands.len()
        invariant
            i <= commands@.len(),
            out@.len() == i,
            forall|j: int|
                0 <= j < i ==> is_mirror_of(
                    commands@[j],
                    #[trigger] out@[j],
                    reverse_coord,
                    reverse_angle,
                ),
            forall|p: Vec2<S>| call_requires(reverse_coord, (p,)),
            forall|a: S| call_requires(reverse_angle, (a,)),
        decreases commands@.len() - i,
    {
        let command = commands[i];
        let mirrored = match command {
            Command::TurnTo(angle) => Command::TurnTo(reverse_angle(angle)),
            Command::Coordinate(coord) => Command::Coordinate(reverse_coord(coord)),
            Command::CubicBezier(p0, p1, p2, p3) => Command::CubicBezier(
                reverse_coord(p0),
                reverse_coord(p1),
                reverse_coord(p2),
                reverse_coord(p3),
            ),
            Command::Pose(coord, angle) => Command::Pose(reverse_coord(coord), angle),
            _ => command,
        };
        out.push(mirrored);
        i += 1;
    }
    out
}

} // verus!
