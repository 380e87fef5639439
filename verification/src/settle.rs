//! When a move is over: settled within tolerance, or out of time.
//!
//! A move has settled once its error has stayed within tolerance for a
//! required time without a break, and it is given up once its timeout has
//! passed, whichever comes first. The caller reads the clock and judges
//! the error; the settler keeps the two time stamps and decides.

use vstd::prelude::*;

verus! {

/// What a settler says of a move at one tick.
#[derive(Clone, Copy, Debug, PartialEq, Eq, Structural)]
pub enum Verdict {
    /// The move goes on.
    Moving,
    /// The error has stayed within tolerance for the required time.
    Settled,
    /// The timeout has passed.
    TimedOut,
}

/// The settling rule of one move, with the times it has seen so far. All
/// times are in milliseconds.
#[derive(Clone, Copy, Debug, PartialEq, Eq, Structural)]
pub struct Settler {
    /// How long the error must stay within tolerance.
    pub duration: u64,
    /// After how long the move is given up.
    pub timeout: u64,
    /// When the first tick was seen.
    pub started: Option<u64>,
    /// Since when the error has been within tolerance without a break.
    pub within_since: Option<u64>,
}

/// The time from `since` to `now`; none if the clock has gone back.
pub open spec fn elapsed(since: u64, now: u64) -> int {
    if now >= since {
        now - since
    } else {
        0
    }
}

impl Settler {
    /// When the move began, given that a tick is seen at `now`.
    pub open spec fn start_at(self, now: u64) -> u64 {
        match self.started {
            Some(t) => t,
            None => now,
        }
    }

    /// Since when the error counts as within tolerance, given that it is
    /// within tolerance at `now`.
    pub open spec fn within_at(self, now: u64) -> u64 {
        match self.within_since {
            Some(t) => t,
            None => now,
        }
    }

    /// The verdict at a tick at time `now` at which the error is within
    /// tolerance or not. The timeout is looked at first.
    pub open spec fn verdict(self, now: u64, within: bool) -> Verdict {
        if elapsed(self.start_at(now), now) >= self.timeout {
            Verdict::TimedOut
        } else if within && elapsed(self.within_at(now), now) >= self.duration {
            Verdict::Settled
        } else {
            Verdict::Moving
        }
    }

    /// The settler after that tick.
    pub open spec fn after(self, now: u64, within: bool) -> Settler {
        let started = Some(self.start_at(now));
        if elapsed(self.start_at(now), now) >= self.timeout {
            Settler { started, ..self }
        } else if within {
            Settler { started, within_since: Some(self.within_at(now)), ..self }
        } else {
            Settler { started, within_since: None, ..self }
        }
    }

    /// A settler for a move that has not begun.
    pub fn new(duration: u64, timeout: u64) -> (s: Settler)
        ensures
            s == (Settler { duration, timeout, started: None, within_since: None }),
    {
        Settler { duration, timeout, started: None, within_since: None }
    }

    /// Takes note of one tick and says whether the move is over.
    pub fn check(&mut self, now: u64, within: bool) -> (v: Verdict)
        ensures
            v == old(self).verdict(now, within),
            *final(self) == old(self).after(now, within),
    {
        let start: u64 = match self.started {
            Some(t) => t,
            None => now,
        };
        self.started = Some(start);
        let run: u64 = if now >= start {
            now - start
        } else {
            0
        };
        if run >= self.timeout {
            return Verdict::TimedOut;
        }
        if within {
            let since: u64 = match self.within_since {
                Some(t) => t,
                None => now,
            };
            self.within_since = Some(since);
            let held: u64 = if now >= since {
                now - since
            } else {
                0
            };
            if held >= self.duration {
                return Verdict::Settled;
            }
        } else {
            self.within_since = None;
        }
        Verdict::Moving
    }
}

/// One tick: the time it is seen at, and whether the error is within
/// tolerance then.
pub struct Tick {
    pub now: u64,
    pub within: bool,
}

/// The settler after the first `n` of `ticks`.
pub open spec fn settler_after(s: Settler, ticks: Seq<Tick>, n: int) -> Settler
    decreases n,
{
    if n <= 0 {
        s
    } else {
        settler_after(s, ticks, n - 1).after(ticks[n - 1].now, ticks[n - 1].within)
    }
}

/// The verdict at tick `i`, after the ticks before it.
pub open spec fn verdict_at(s: Settler, ticks: Seq<Tick>, i: int) -> Verdict {
    settler_after(s, ticks, i).verdict(ticks[i].now, ticks[i].within)
}

/// Whether the clock never goes back over the ticks.
pub open spec fn clock_runs_on(ticks: Seq<Tick>) -> bool {
    forall|i: int, j: int|
        0 <= i <= j < ticks.len() ==> (#[trigger] ticks[i]).now <= (#[trigger] ticks[j]).now
}

/// From the first tick on, the move's beginning is the time of that tick.
pub proof fn lemma_started_at_first_tick(s: Settler, ticks: Seq<Tick>, n: int)
    requires
        s.started is None,
        1 <= n <= ticks.len(),
    ensures
        settler_after(s, ticks, n).started == Some(ticks[0].now),
        settler_after(s, ticks, n).timeout == s.timeout,
        settler_after(s, ticks, n).duration == s.duration,
    decreases n,
{
    if n > 1 {
        lemma_started_at_first_tick(s, ticks, n - 1);
    } else {
        assert(settler_after(s, ticks, 0) == s);
    }
}

/// A move whose error is never within tolerance is never called settled:
/// at each tick it goes on if less than the timeout has passed since the
/// first tick, and is out of time if not. So it ends at the first tick at
/// or after its timeout, and not before.
pub proof fn lemma_never_within_ends_at_timeout(s: Settler, ticks: Seq<Tick>, i: int)
    requires
        s.started is None,
        0 <= i < ticks.len(),
        clock_runs_on(ticks),
        forall|j: int| 0 <= j <= i ==> !(#[trigger] ticks[j]).within,
    ensures
        verdict_at(s, ticks, i) == (if ticks[i].now - ticks[0].now >= s.timeout {
            Verdict::TimedOut
        } else {
            Verdict::Moving
        }),
{
    if i > 0 {
        lemma_started_at_first_tick(s, ticks, i);
    }
}

/// No move outlasts its timeout: whatever the error does, a tick at or
/// after the timeout, counted from the first tick, is out of time.
pub proof fn lemma_timeout_is_final(s: Settler, ticks: Seq<Tick>, i: int)
    requires
        s.started is None,
        0 <= i < ticks.len(),
        clock_runs_on(ticks),
        ticks[i].now - ticks[0].now >= s.timeout,
    ensures
        verdict_at(s, ticks, i) == Verdict::TimedOut,
{
    if i > 0 {
        lemma_started_at_first_tick(s, ticks, i);
    }
}

/// Since when the error has been within tolerance at tick `i`: the first
/// tick of the unbroken run of such ticks that ends at `i`.
pub open spec fn run_start(ticks: Seq<Tick>, i: int) -> int
    decreases i,
{
    if i > 0 && ticks[i - 1].within {
        run_start(ticks, i - 1)
    } else {
        i
    }
}

/// While the move goes on, the settler remembers when the present run of
/// ticks within tolerance began.
pub proof fn lemma_within_since_run_start(s: Settler, ticks: Seq<Tick>, n: int)
    requires
        s.started is None,
        s.within_since is None,
        0 <= n <= ticks.len(),
        clock_runs_on(ticks),
        forall|j: int| 0 <= j < n ==> (#[trigger] ticks[j]).now - ticks[0].now < s.timeout,
    ensures
        settler_after(s, ticks, n).within_since == (if n > 0 && ticks[n - 1].within {
            Some(ticks[run_start(ticks, n - 1)].now)
        } else {
            None
        }),
        0 <= run_start(ticks, n) <= n,
    decreases n,
{
    if n > 0 {
        lemma_within_since_run_start(s, ticks, n - 1);
        if n > 1 {
            lemma_started_at_first_tick(s, ticks, n - 1);
        }
    }
}

/// Before its timeout a move is called settled at exactly those ticks at
/// which the error is within tolerance and has been so, without a break,
/// for the required time.
pub proof fn lemma_settled_when_held(s: Settler, ticks: Seq<Tick>, i: int)
    requires
        s.started is None,
        s.within_since is None,
        0 <= i < ticks.len(),
        clock_runs_on(ticks),
        forall|j: int| 0 <= j <= i ==> (#[trigger] ticks[j]).now - ticks[0].now < s.timeout,
    ensures
        verdict_at(s, ticks, i) == Verdict::Settled <==> ticks[i].within && ticks[i].now
            - ticks[run_start(ticks, i)].now >= s.duration,
        verdict_at(s, ticks, i) != Verdict::TimedOut,
{
    lemma_within_since_run_start(s, ticks, i);
    if i > 0 {
        lemma_started_at_first_tick(s, ticks, i);
    }
}

} // verus!
