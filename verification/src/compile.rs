//! The path compiler: every position that a path implies, written out.
//!
//! Compiling walks the path once with a running pose. Commands that move
//! the robot are replaced by the point they lead to, turns change the
//! heading and leave no trace, and every other command is passed on.
//!
//! The compiler does no arithmetic of its own. The caller supplies how a
//! drive advances a position and how turns change a heading, and the
//! contract says which of the caller's results the output holds.

use vstd::prelude::*;
use crate::command::{Command, Pose, Vec2};

verus! {

/// The pose a path starts from: given by its first command if that is a
/// point, a pose or a curve, and else the origin, facing `zero`.
pub open spec fn start_pose<S>(path: Seq<Command<S>>, zero: S) -> Pose<S> {
    let origin = Pose { position: Vec2 { x: zero, y: zero }, heading: zero };
    if path.len() == 0 {
        origin
    } else {
        match path[0] {
            Command::Coordinate(c) => Pose { position: c, heading: zero },
            Command::CubicBezier(p0, _, _, _) => Pose { position: p0, heading: zero },
            Command::Pose(c, a) => Pose { position: c, heading: a },
            _ => origin,
        }
    }
}

/// How many leading commands the start pose uses up: a first point or
/// pose is taken as the start; anything else is still to be compiled.
pub open spec fn start_len<S>(path: Seq<Command<S>>) -> int {
    if path.len() > 0 && (path[0] is Coordinate || path[0] is Pose) {
        1
    } else {
        0
    }
}

/// Whether `after` is the pose that `command` leads to from `before`,
/// where `advance`, `turn_by` and `turn_to` do the arithmetic.
pub open spec fn leads_to<S, A, B, T>(
    before: Pose<S>,
    command: Command<S>,
    after: Pose<S>,
    advance: A,
    turn_by: B,
    turn_to: T,
) -> bool where A: Fn(Vec2<S>, S, S) -> Vec2<S>, B: Fn(S, S) -> S, T: Fn(S) -> S {
    match command {
        Command::Coordinate(c) => after == (Pose { position: c, heading: before.heading }),
        Command::DriveBy(d) => {
            &&& call_ensures(advance, (before.position, before.heading, d), after.position)
            &&& after.heading == before.heading
        },
        Command::TurnBy(a) => {
            &&& after.position == before.position
            &&& call_ensures(turn_by, (before.heading, a), after.heading)
        },
        Command::TurnTo(a) => {
            &&& after.position == before.position
            &&& call_ensures(turn_to, (a,), after.heading)
        },
        Command::Pose(c, a) => after == (Pose { position: c, heading: a }),
        _ => after == before,
    }
}

/// What compiling writes for `command`, given the pose it leads to: the
/// new position for a move, nothing for a turn, the command itself for
/// anything else.
pub open spec fn written_for<S>(command: Command<S>, after: Pose<S>) -> Seq<Command<S>> {
    match command {
        Command::Coordinate(_) => seq![command],
        Command::DriveBy(_) => seq![Command::Coordinate(after.position)],
        Command::Pose(_, _) => seq![Command::Coordinate(after.position)],
        Command::TurnBy(_) => Seq::empty(),
        Command::TurnTo(_) => Seq::empty(),
        _ => seq![command],
    }
}

/// What compiling writes for the first `n` of `rest`, where `poses[i + 1]`
/// is the pose that `rest[i]` leads to.
pub open spec fn written<S>(rest: Seq<Command<S>>, poses: Seq<Pose<S>>, n: int) -> Seq<Command<S>>
    decreases n,
{
    if n <= 0 {
        Seq::empty()
    } else {
        written(rest, poses, n - 1) + written_for(rest[n - 1], poses[n])
    }
}

/// Whether `poses` is a run through `rest` from `start`: one pose before
/// each command and one after the last, each led to by the command
/// before it.
pub open spec fn is_run<S, A, B, T>(
    poses: Seq<Pose<S>>,
    start: Pose<S>,
    rest: Seq<Command<S>>,
    advance: A,
    turn_by: B,
    turn_to: T,
) -> bool where A: Fn(Vec2<S>, S, S) -> Vec2<S>, B: Fn(S, S) -> S, T: Fn(S) -> S {
    &&& poses.len() == rest.len() + 1
    &&& poses[0] == start
    &&& forall|i: int|
        0 <= i < rest.len() ==> leads_to(
            poses[i],
            #[trigger] rest[i],
            poses[i + 1],
            advance,
            turn_by,
            turn_to,
        )
}

/// Whether `out` is `path` compiled: the start position, followed by what
/// is written for each command after the start along some run of poses.
pub open spec fn is_compiled<S, A, B, T>(
    path: Seq<Command<S>>,
    zero: S,
    out: Seq<Command<S>>,
    advance: A,
    turn_by: B,
    turn_to: T,
) -> bool where A: Fn(Vec2<S>, S, S) -> Vec2<S>, B: Fn(S, S) -> S, T: Fn(S) -> S {
    let start = start_pose(path, zero);
    let rest = path.skip(start_len(path));
    exists|poses: Seq<Pose<S>>|
        {
            &&& is_run(poses, start, rest, advance, turn_by, turn_to)
            &&& out == seq![Command::Coordinate(start.position)] + #[trigger] written(
                rest,
                poses,
                rest.len() as int,
            )
        }
}

/// Whether every command of a path is a point.
pub open spec fn all_coordinates<S>(path: Seq<Command<S>>) -> bool {
    forall|i: int| 0 <= i < path.len() ==> #[trigger] path[i] is Coordinate
}

/// What is written for the first `n` commands depends on the poses up to
/// the `n`-th alone.
pub proof fn lemma_written_prefix<S>(
    rest: Seq<Command<S>>,
    poses: Seq<Pose<S>>,
    longer: Seq<Pose<S>>,
    n: int,
)
    requires
        0 <= n < poses.len() <= longer.len(),
        forall|i: int| 0 <= i < poses.len() ==> poses[i] == longer[i],
    ensures
        written(rest, poses, n) == written(rest, longer, n),
    decreases n,
{
    if n > 0 {
        lemma_written_prefix(rest, poses, longer, n - 1);
    }
}

/// Points are written as they stand, whatever the poses.
pub proof fn lemma_written_coordinates<S>(rest: Seq<Command<S>>, poses: Seq<Pose<S>>, n: int)
    requires
        0 <= n <= rest.len(),
        all_coordinates(rest),
    ensures
        written(rest, poses, n) == rest.take(n),
    decreases n,
{
    if n > 0 {
        lemma_written_coordinates(rest, poses, n - 1);
        assert(rest.take(n) =~= rest.take(n - 1) + seq![rest[n - 1]]);
    } else {
        assert(rest.take(0) =~= Seq::<Command<S>>::empty());
    }
}

/// At most one command is written for each command read.
pub proof fn lemma_written_len<S>(rest: Seq<Command<S>>, poses: Seq<Pose<S>>, n: int)
    requires
        0 <= n,
    ensures
        written(rest, poses, n).len() <= n,
    decreases n,
{
    if n > 0 {
        lemma_written_len(rest, poses, n - 1);
    }
}

/// A compiled path begins with a point, and is longer than the path it
/// was compiled from by one command at most.
pub proof fn lemma_compiled_len<S, A, B, T>(
    path: Seq<Command<S>>,
    zero: S,
    out: Seq<Command<S>>,
    advance: A,
    turn_by: B,
    turn_to: T,
) where A: Fn(Vec2<S>, S, S) -> Vec2<S>, B: Fn(S, S) -> S, T: Fn(S) -> S
    requires
        is_compiled(path, zero, out, advance, turn_by, turn_to),
    ensures
        1 <= out.len() <= path.len() + 1,
        out[0] == Command::Coordinate(start_pose(path, zero).position),
{
    let start = start_pose(path, zero);
    let rest = path.skip(start_len(path));
    let poses = choose|poses: Seq<Pose<S>>|
        {
            &&& is_run(poses, start, rest, advance, turn_by, turn_to)
            &&& out == seq![Command::Coordinate(start.position)] + #[trigger] written(
                rest,
                poses,
                rest.len() as int,
            )
        };
    lemma_written_len(rest, poses, rest.len() as int);
}

/// Compiling a path that is not empty and holds nothing but points gives
/// the path back, whatever arithmetic is supplied.
pub proof fn lemma_compiling_points_changes_nothing<S, A, B, T>(
    path: Seq<Command<S>>,
    zero: S,
    out: Seq<Command<S>>,
    advance: A,
    turn_by: B,
    turn_to: T,
) where A: Fn(Vec2<S>, S, S) -> Vec2<S>, B: Fn(S, S) -> S, T: Fn(S) -> S
    requires
        path.len() > 0,
        all_coordinates(path),
        is_compiled(path, zero, out, advance, turn_by, turn_to),
    ensures
        out == path,
{
    let start = start_pose(path, zero);
    let rest = path.skip(start_len(path));
    let poses = choose|poses: Seq<Pose<S>>|
        {
            &&& is_run(poses, start, rest, advance, turn_by, turn_to)
            &&& out == seq![Command::Coordinate(start.position)] + #[trigger] written(
                rest,
                poses,
                rest.len() as int,
            )
        };
    assert(path[0] is Coordinate);
    assert(all_coordinates(rest)) by {
        assert forall|i: int| 0 <= i < rest.len() implies #[trigger] rest[i] is Coordinate by {
            assert(rest[i] == path[i + 1]);
        }
    }
    lemma_written_coordinates(rest, poses, rest.len() as int);
    assert(rest.take(rest.len() as int) =~= rest);
    assert(out =~= path);
}

/// Compiles a path into one in which every position is written out.
///
/// `zero` is the scalar that stands for the origin's coordinates and for
/// the heading at the start. `advance(position, heading, distance)` gives
/// the position reached by driving `distance` along `heading`;
/// `turn_by(heading, angle)` and `turn_to(angle)` give the heading after a
/// relative and an absolute turn.
pub fn command_to_coords<S: Copy, A, B, T>(
    path: &[Command<S>],
    zero: S,
    advance: A,
    turn_by: B,
    turn_to: T,
) -> (out: Vec<Command<S>>) where
    A: Fn(Vec2<S>, S, S) -> Vec2<S>,
    B: Fn(S, S) -> S,
    T: Fn(S) -> S,

    requires
        forall|p: Vec2<S>, h: S, d: S| call_requires(advance, (p, h, d)),
        forall|h: S, a: S| call_requires(turn_by, (h, a)),
        forall|a: S| call_requires(turn_to, (a,)),
    ensures
        is_compiled(path@, zero, out@, advance, turn_by, turn_to),
        path@.len() > 0 && all_coordinates(path@) ==> out@ == path@,
{
    let origin = Pose { position: Vec2 { x: zero, y: zero }, heading: zero };
    let mut pose: Pose<S> = origin;
    let mut next: usize = 0;
    if path.len() > 0 {
        match path[0] {
            Command::Coordinate(c) => {
                pose = Pose { position: c, heading: zero };
                next = 1;
            },
            Command::CubicBezier(p0, _, _, _) => {
                pose = Pose { position: p0, heading: zero };
            },
            Command::Pose(c, a) => {
                pose = Pose { position: c, heading: a };
                next = 1;
            },
            _ => {},
        }
    }
    let ghost start = pose;
    let ghost rest = path@.skip(next as int);
    let ghost mut poses: Seq<Pose<S>> = seq![pose];
    let mut out: Vec<Command<S>> = Vec::new();
    out.push(Command::Coordinate(pose.position));
    let first: usize = next;
    assert(out@ =~= seq![Command::Coordinate(start.position)] + written(rest, poses, 0));
    while next < path.len()
        invariant
            first <= next <= path@.len(),
            rest == path@.skip(first as int),
            poses.len() == next - first + 1,
            poses[0] == start,
            poses[next - first] == pose,
            forall|i: int|
                0 <= i < next - first ==> leads_to(
                    poses[i],
                    #[trigger] rest[i],
                    poses[i + 1],
                    advance,
                    turn_by,
                    turn_to,
                ),
            out@ == seq![Command::Coordinate(start.position)] + written(
                rest,
                poses,
                next - first,
            ),
            forall|p: Vec2<S>, h: S, d: S| call_requires(advance, (p, h, d)),
            forall|h: S, a: S| call_requires(turn_by, (h, a)),
            forall|a: S| call_requires(turn_to, (a,)),
        decreases path@.len() - next,
    {
        let command = path[next];
        let ghost before = pose;
        let ghost old_poses = poses;
        let ghost old_out = out@;
        let ghost k = next - first;
        assert(rest[k] == command);
        match command {
            Command::Coordinate(c) => {
                pose = Pose { position: c, heading: pose.heading };
                out.push(command);
            },
            Command::DriveBy(d) => {
                let reached = advance(pose.position, pose.heading, d);
                pose = Pose { position: reached, heading: pose.heading };
                out.push(Command::Coordinate(reached));
            },
            Command::TurnBy(a) => {
                let heading = turn_by(pose.heading, a);
                pose = Pose { position: pose.position, heading };
            },
            Command::TurnTo(a) => {
                let heading = turn_to(a);
                pose = Pose { position: pose.position, heading };
            },
            Command::Pose(c, a) => {
                pose = Pose { position: c, heading: a };
                out.push(Command::Coordinate(c));
            },
            _ => {
                out.push(command);
            },
        }
        proof {
            poses = old_poses.push(pose);
            assert(leads_to(before, command, pose, advance, turn_by, turn_to));
            lemma_written_prefix(rest, old_poses, poses, k);
            assert(out@ =~= old_out + written_for(command, pose));
            assert(out@ =~= seq![Command::Coordinate(start.position)] + written(
                rest,
                poses,
                k + 1,
            ));
            assert forall|i: int| 0 <= i < k + 1 implies leads_to(
                poses[i],
                #[trigger] rest[i],
                poses[i + 1],
                advance,
                turn_by,
                turn_to,
            ) by {
                if i < k {
                    assert(poses[i] == old_poses[i] && poses[i + 1] == old_poses[i + 1]);
                }
            }
        }
        next += 1;
    }
    proof {
        assert(start == start_pose(path@, zero));
        assert(first == start_len(path@));
        assert(is_run(poses, start, rest, advance, turn_by, turn_to));
        assert(is_compiled(path@, zero, out@, advance, turn_by, turn_to));
        if path@.len() > 0 && all_coordinates(path@) {
            lemma_compiling_points_changes_nothing(path@, zero, out@, advance, turn_by, turn_to);
        }
    }
    out
}

} // verus!
