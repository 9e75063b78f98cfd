//! When progress is shown, and what of it.

use vstd::prelude::*;

verus! {

/// How much time passes at least between two reports, in nanoseconds.
pub const PROGRESS_INTERVAL_NANOS: u128 = 1_000_000_000;

/// A line of progress: a position in the video, and how many frames are done.
#[derive(Debug, Clone, Copy)]
pub struct ProgressReport<S> {
    pub current: S,
    pub duration: Option<S>,
    pub frames: u64,
}

/// What was shown so far. Positions are of a type of their own, which only the
/// functions handed in look into.
#[derive(Debug)]
pub struct ProgressReporter<S> {
    pub duration: Option<S>,
    pub emitted: bool,
    pub last_reported: Option<S>,
    pub latest_current: Option<S>,
}

/// The position that is shown in place of another: none before the start, and
/// none behind the end.
pub open spec fn clamps<S, C: Fn(S, Option<S>) -> S>(clamp: &C, duration: Option<S>) -> bool {
    forall|current: S| #[trigger] call_requires(clamp, (current, duration))
}

/// Whether two positions can be held against each other.
pub open spec fn compares<S, T: Fn(S, S) -> bool>(same: &T) -> bool {
    forall|a: S, b: S| #[trigger] call_requires(same, (a, b))
}

/// A reporter shows a position.
pub open spec fn is_emitted<S, C: Fn(S, Option<S>) -> S>(
    before: ProgressReporter<S>,
    after: ProgressReporter<S>,
    current: S,
    frames: u64,
    clamp: &C,
    report: ProgressReport<S>,
) -> bool {
    &&& call_ensures(clamp, (current, before.duration), report.current)
    &&& report.duration == before.duration
    &&& report.frames == frames
    &&& after.duration == before.duration
    &&& after.emitted
    &&& after.last_reported == Some(report.current)
    &&& after.latest_current == before.latest_current
}

impl<S: Copy> ProgressReporter<S> {
    pub fn new(duration: Option<S>) -> (reporter: Self)
        ensures
            reporter == (ProgressReporter {
                duration,
                emitted: false,
                last_reported: None,
                latest_current: None,
            }),
    {
        ProgressReporter { duration, emitted: false, last_reported: None, latest_current: None }
    }

    /// Shows a position.
    pub fn emit<C: Fn(S, Option<S>) -> S>(&mut self, current: S, frames: u64, clamp: &C) -> (report:
        ProgressReport<S>)
        requires
            clamps(clamp, old(self).duration),
        ensures
            is_emitted(*old(self), *final(self), current, frames, clamp, report),
    {
        let shown: S = clamp(current, self.duration);
        self.last_reported = Some(shown);
        self.emitted = true;
        ProgressReport { current: shown, duration: self.duration, frames }
    }

    /// Shows a frame's position, unless too little time has passed since
    /// something was shown.
    pub fn maybe_emit<C: Fn(S, Option<S>) -> S>(
        &mut self,
        current: S,
        frames: u64,
        nanos_since_emit: u128,
        clamp: &C,
    ) -> (report: Option<ProgressReport<S>>)
        requires
            clamps(clamp, old(self).duration),
        ensures
            ({
                let noted = ProgressReporter { latest_current: Some(current), ..*old(self) };
                match report {
                    Some(report) => {
                        &&& !old(self).emitted || nanos_since_emit >= PROGRESS_INTERVAL_NANOS
                        &&& is_emitted(noted, *final(self), current, frames, clamp, report)
                    },
                    None => {
                        &&& old(self).emitted && nanos_since_emit < PROGRESS_INTERVAL_NANOS
                        &&& *final(self) == noted
                    },
                }
            }),
    {
        self.latest_current = Some(current);
        if self.emitted && nanos_since_emit < PROGRESS_INTERVAL_NANOS {
            return None;
        }
        Some(self.emit(current, frames, clamp))
    }

    /// The position at which everything is done: the end of the video, or where
    /// that is not known, the last frame's.
    pub open spec fn final_position(self) -> Option<S> {
        match self.duration {
            Some(duration) => Some(duration),
            None => self.latest_current,
        }
    }

    /// Shows the last position, unless it was the last that was shown.
    pub fn emit_final<C: Fn(S, Option<S>) -> S, T: Fn(S, S) -> bool>(
        &mut self,
        frames: u64,
        clamp: &C,
        same: &T,
    ) -> (report: Option<ProgressReport<S>>)
        requires
            clamps(clamp, old(self).duration),
            compares(same),
        ensures
            match report {
                Some(report) => {
                    &&& old(self).final_position() matches Some(position)
                    &&& old(self).last_reported matches Some(shown) ==> call_ensures(
                        same,
                        (shown, position),
                        false,
                    )
                    &&& is_emitted(*old(self), *final(self), position, frames, clamp, report)
                },
                None => {
                    &&& *final(self) == *old(self)
                    &&& old(self).final_position() matches Some(position) ==> {
                        &&& old(self).last_reported matches Some(shown)
                        &&& call_ensures(same, (shown, position), true)
                    }
                },
            },
    {
        let position: S = match self.duration {
            Some(duration) => duration,
            None => match self.latest_current {
                Some(current) => current,
                None => return None,
            },
        };
        if let Some(shown) = self.last_reported {
            if same(shown, position) {
                return None;
            }
        }
        Some(self.emit(position, frames, clamp))
    }
}

/// The last position that is shown is the end of the video, or where that is not known, the latest
/// frame's; a video of which neither is known has none.
pub proof fn law_final_positions<S: Copy>(reporter: ProgressReporter<S>)
    ensures
        reporter.duration is Some ==> reporter.final_position() == reporter.duration,
        reporter.duration is None ==> reporter.final_position() == reporter.latest_current,
{
}

/// A report shows the clamped position, how long the video is and how many frames are done, and the
/// reporter remembers what it showed and nothing else new.
pub proof fn law_reports_are_remembered<S, C: Fn(S, Option<S>) -> S>(
    before: ProgressReporter<S>,
    after: ProgressReporter<S>,
    current: S,
    frames: u64,
    clamp: &C,
    report: ProgressReport<S>,
)
    requires
        is_emitted(before, after, current, frames, clamp, report),
    ensures
        call_ensures(clamp, (current, before.duration), report.current),
        report.frames == frames,
        report.duration == before.duration,
        after == (ProgressReporter {
            emitted: true,
            last_reported: Some(report.current),
            ..before
        }),
{
}

/// Between two reports there is a second at least.
pub proof fn law_reports_are_a_second_apart()
    ensures
        PROGRESS_INTERVAL_NANOS == 1_000_000_000,
{
}

} // verus!
