//! The verdicts of end-to-end runs, and when a repeated run stops.
use vstd::prelude::*;

verus! {

/// How one end-to-end run went.
#[derive(Debug, Clone, Copy, PartialEq, Eq, Structural)]
pub enum State {
    Success,
    Fail,
    /// The run showed what it was looking for.
    Verified,
}

/// A tenth of a second, in nanoseconds.
pub const SLOW_RUN_NANOS: u128 = 100_000_000;

/// The verdict of a run that stops a backend under load: a failed worker
/// fails it; otherwise a run slower than a tenth of a second shows the
/// problem looked for.
pub fn backend_stop_verdict(success: bool, elapsed_nanos: u128) -> (r: State)
    ensures
        r == if !success {
            State::Fail
        } else if elapsed_nanos > SLOW_RUN_NANOS {
            State::Verified
        } else {
            State::Success
        },
{
    if !success {
        State::Fail
    } else if elapsed_nanos > SLOW_RUN_NANOS {
        State::Verified
    } else {
        State::Success
    }
}

/// The verdict of a run that must end within a tenth of a second.
pub fn timeout_verdict(success: bool, elapsed_nanos: u128) -> (r: State)
    ensures
        r == if !success || elapsed_nanos > SLOW_RUN_NANOS {
            State::Fail
        } else {
            State::Success
        },
{
    if !success || elapsed_nanos > SLOW_RUN_NANOS {
        State::Fail
    } else {
        State::Success
    }
}

/// How a repeated run ended, with the number of runs made.
#[derive(Debug, Clone, Copy, PartialEq, Eq, Structural)]
pub enum RepeatEnd {
    Failed(usize),
    Verified(usize),
    Completed(usize),
}

/// What a run of a repeated test decides, once `done` of the `times` runs
/// were made and the last one ended in `last`: `None` to run again.
pub open spec fn spec_repeat_next(done: usize, times: usize, last: State) -> Option<RepeatEnd> {
    match last {
        State::Fail => Some(RepeatEnd::Failed(done)),
        State::Verified => Some(RepeatEnd::Verified(done)),
        State::Success => if done >= times {
            Some(RepeatEnd::Completed(times))
        } else {
            None
        },
    }
}

/// Whether a repeated test of `times` runs ends before its first run.
pub fn repeat_ends_at_once(times: usize) -> (r: Option<RepeatEnd>)
    ensures
        r == if times == 0 {
            Some(RepeatEnd::Completed(0))
        } else {
            None::<RepeatEnd>
        },
{
    if times == 0 {
        Some(RepeatEnd::Completed(0))
    } else {
        None
    }
}

/// After `done` of `times` runs, the last of which ended in `last`: the end
/// of the repeated test, or `None` to run again. A failed or a verified run
/// ends it; so does the last run.
pub fn repeat_next(done: usize, times: usize, last: State) -> (r: Option<RepeatEnd>)
    ensures
        r == spec_repeat_next(done, times, last),
{
    match last {
        State::Fail => Some(RepeatEnd::Failed(done)),
        State::Verified => Some(RepeatEnd::Verified(done)),
        State::Success => if done >= times {
            Some(RepeatEnd::Completed(times))
        } else {
            None
        },
    }
}

/// How a repeated test ends for the outcomes `runs` of its runs, in order.
pub open spec fn repeat_outcome(runs: Seq<State>, times: usize) -> RepeatEnd
    decreases runs.len(),
{
    if runs.len() == 0 {
        RepeatEnd::Completed(times)
    } else {
        match runs[0] {
            State::Fail => RepeatEnd::Failed((times - runs.len() + 1) as usize),
            State::Verified => RepeatEnd::Verified((times - runs.len() + 1) as usize),
            State::Success => repeat_outcome(runs.drop_first(), times),
        }
    }
}

/// Driving a repeated test by `repeat_next` stops at its first failed or
/// verified run, reporting that run's number, and otherwise after `times`
/// successful runs.
pub proof fn law_repeat_stops_at_first_verdict(runs: Seq<State>, times: usize, done: usize)
    requires
        runs.len() == times - done,
        done < times,
    ensures
        ({
            let next = spec_repeat_next((done + 1) as usize, times, runs[0]);
            &&& next is Some ==> next->0 == repeat_outcome(runs, times)
            &&& next is None ==> repeat_outcome(runs.drop_first(), times) == repeat_outcome(runs, times)
        }),
{
}

} // verus!
