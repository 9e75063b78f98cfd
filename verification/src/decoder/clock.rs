//! Snapping timestamps in units of 100 nanoseconds to the grid that a video's
//! frames stand on.

use crate::frame::{FrameError, MediaTime};
use vstd::arithmetic::div_mod::*;
use vstd::arithmetic::mul::*;
use vstd::prelude::*;

verus! {

/// Units of 100 nanoseconds in a second.
pub const HNS_PER_SECOND: i128 = 10_000_000;

/// How many timestamps have to be seen before a grid is looked for.
pub const MIN_TIMESTAMPS_FOR_CLOCK: usize = 8;

/// How far a timestamp may be from its place on a grid.
pub const TIMESTAMP_QUANTIZATION_TOLERANCE_HNS: i128 = 1_000;

/// Why a timestamp has no media time.
#[derive(Debug, Clone, Copy, PartialEq, Eq, Structural)]
pub enum ClockError {
    TimestampOutOfRange,
    TimescaleOutOfRange,
    Time(FrameError),
}

/// The nearest whole quotient, halves away from zero.
pub open spec fn nearest_quotient(numerator: int, denominator: int) -> int {
    if numerator >= 0 {
        (numerator + denominator / 2) / denominator
    } else {
        -((-numerator + denominator / 2) / denominator)
    }
}

/// A nearest quotient is off by half a unit at most.
pub proof fn law_nearest_quotient_is_near(numerator: int, denominator: int)
    requires
        denominator > 0,
    ensures
        2 * (nearest_quotient(numerator, denominator) * denominator - numerator) <= denominator,
        2 * (numerator - nearest_quotient(numerator, denominator) * denominator) <= denominator,
{
    let half = denominator / 2;
    let size = if numerator >= 0 {
        numerator
    } else {
        -numerator
    };
    let quotient = (size + half) / denominator;
    lemma_fundamental_div_mod(size + half, denominator);
    lemma_mod_bound(size + half, denominator);
    lemma_mul_is_commutative(denominator, quotient);
    assert((-quotient) * denominator == -(quotient * denominator)) by (nonlinear_arith);
}

proof fn lemma_nearest_quotient_bound(numerator: int, denominator: int)
    requires
        denominator > 0,
    ensures
        nearest_quotient(numerator, denominator) <= if numerator >= 0 {
            numerator + 1
        } else {
            0
        },
        nearest_quotient(numerator, denominator) >= if numerator >= 0 {
            0
        } else {
            numerator - 1
        },
{
    let half = denominator / 2;
    let size = if numerator >= 0 {
        numerator
    } else {
        -numerator
    };
    let quotient = (size + half) / denominator;
    lemma_fundamental_div_mod(size + half, denominator);
    lemma_mod_bound(size + half, denominator);
    assert(0 <= quotient <= size + 1) by (nonlinear_arith)
        requires
            denominator > 0,
            size >= 0,
            half <= denominator,
            half >= 0,
            size + half == denominator * quotient + (size + half) % denominator,
            0 <= (size + half) % denominator < denominator,
    ;
}

/// Divides to the nearest whole number, halves away from zero.
pub fn rounded_div(numerator: i128, denominator: i128) -> (quotient: i128)
    requires
        denominator > 0,
        numerator + denominator / 2 <= i128::MAX,
        numerator - denominator / 2 >= i128::MIN,
    ensures
        quotient == nearest_quotient(numerator as int, denominator as int),
{
    proof {
        lemma_nearest_quotient_bound(numerator as int, denominator as int);
    }
    if numerator >= 0 {
        (numerator + denominator / 2) / denominator
    } else {
        (numerator - denominator / 2) / denominator
    }
}

/// A grid: every `denominator` units of which `numerator` make a second.
#[derive(Debug, Clone, Copy, PartialEq, Eq, Structural)]
pub struct TimestampScale {
    pub numerator: u32,
    pub denominator: u32,
}

impl TimestampScale {
    /// The units of the grid point that is nearest to a timestamp: rounded to
    /// a whole unit first, and then to the grid.
    pub open spec fn grid_units(self, timestamp_100ns: i64) -> int {
        nearest_quotient(
            nearest_quotient(timestamp_100ns * self.numerator, HNS_PER_SECOND as int),
            self.denominator as int,
        ) * self.denominator
    }

    /// A timestamp is within the tolerance of its grid point.
    pub open spec fn is_near(self, timestamp_100ns: i64) -> bool {
        let distance = self.grid_units(timestamp_100ns) * HNS_PER_SECOND - timestamp_100ns
            * self.numerator;
        -TIMESTAMP_QUANTIZATION_TOLERANCE_HNS * self.numerator <= distance
            <= TIMESTAMP_QUANTIZATION_TOLERANCE_HNS * self.numerator
    }

    /// The media time of a timestamp's grid point.
    pub open spec fn grid_time(self, timestamp_100ns: i64) -> Result<MediaTime, ClockError> {
        let value = self.grid_units(timestamp_100ns);
        if value < i64::MIN || value > i64::MAX {
            Err(ClockError::TimestampOutOfRange)
        } else if self.numerator > i32::MAX {
            Err(ClockError::TimescaleOutOfRange)
        } else if self.numerator == 0 {
            Err(ClockError::Time(FrameError::NonPositiveTimescale { timescale: 0 }))
        } else {
            Ok(MediaTime { value: value as i64, timescale: self.numerator as i32 })
        }
    }

    proof fn lemma_grid_units_bound(self, timestamp_100ns: i64)
        requires
            self.denominator > 0,
        ensures
            -0x1_0000_0000_0000_0000_0000_0000 <= timestamp_100ns * self.numerator
                <= 0x1_0000_0000_0000_0000_0000_0000,
            -0x1_0000_0000_0000_0000_0000_0001 <= nearest_quotient(
                timestamp_100ns * self.numerator,
                HNS_PER_SECOND as int,
            ) <= 0x1_0000_0000_0000_0000_0000_0001,
            -0x2_0000_0000_0000_0000_0000_0000 <= self.grid_units(timestamp_100ns)
                <= 0x2_0000_0000_0000_0000_0000_0000,
    {
        let numerator = self.numerator as int;
        let product = timestamp_100ns * self.numerator;
        assert(-0x1_0000_0000_0000_0000_0000_0000 <= product
            <= 0x1_0000_0000_0000_0000_0000_0000) by (nonlinear_arith)
            requires
                product == timestamp_100ns * numerator,
                0 <= numerator <= 0xffff_ffff,
                -0x8000_0000_0000_0000 <= timestamp_100ns <= 0x7fff_ffff_ffff_ffff,
        ;
        lemma_nearest_quotient_bound(product, HNS_PER_SECOND as int);
        let units = nearest_quotient(product, HNS_PER_SECOND as int);
        law_nearest_quotient_is_near(units, self.denominator as int);
    }

    /// Finds the units of the grid point nearest to a timestamp.
    pub fn timestamp_units(self, timestamp_100ns: i64) -> (units: i128)
        requires
            self.denominator > 0,
        ensures
            units == self.grid_units(timestamp_100ns),
    {
        proof {
            self.lemma_grid_units_bound(timestamp_100ns);
        }
        let numerator: i128 = timestamp_100ns as i128 * self.numerator as i128;
        let units: i128 = rounded_div(numerator, HNS_PER_SECOND);
        rounded_div(units, self.denominator as i128) * self.denominator as i128
    }

    /// Whether a timestamp is within the tolerance of its grid point.
    pub fn fits(self, timestamp_100ns: i64) -> (near: bool)
        requires
            self.denominator > 0,
        ensures
            near == self.is_near(timestamp_100ns),
    {
        proof {
            self.lemma_grid_units_bound(timestamp_100ns);
        }
        let value: i128 = self.timestamp_units(timestamp_100ns);
        let scaled_hns: i128 = value * HNS_PER_SECOND;
        let original_hns: i128 = timestamp_100ns as i128 * self.numerator as i128;
        let distance: i128 = scaled_hns - original_hns;
        let tolerance: i128 = TIMESTAMP_QUANTIZATION_TOLERANCE_HNS * self.numerator as i128;
        -tolerance <= distance && distance <= tolerance
    }

    /// The media time of a timestamp's grid point.
    pub fn media_time_from_hns(self, timestamp_100ns: i64) -> (result: Result<
        MediaTime,
        ClockError,
    >)
        requires
            self.denominator > 0,
        ensures
            result == self.grid_time(timestamp_100ns),
    {
        let value: i128 = self.timestamp_units(timestamp_100ns);
        if value < i64::MIN as i128 || value > i64::MAX as i128 {
            return Err(ClockError::TimestampOutOfRange);
        }
        if self.numerator > i32::MAX as u32 {
            return Err(ClockError::TimescaleOutOfRange);
        }
        match MediaTime::new(value as i64, self.numerator as i32) {
            Ok(time) => Ok(time),
            Err(error) => Err(ClockError::Time(error)),
        }
    }
}

pub open spec fn scale(numerator: u32, denominator: u32) -> TimestampScale {
    TimestampScale { numerator, denominator }
}

/// The grids that videos are commonly made on, in the order in which they are
/// tried.
pub open spec fn standard_scales() -> Seq<TimestampScale> {
    seq![
        scale(24_000, 1001),
        scale(24, 1),
        scale(25, 1),
        scale(30_000, 1001),
        scale(30, 1),
        scale(48_000, 1001),
        scale(48, 1),
        scale(50, 1),
        scale(60_000, 1001),
        scale(60, 1),
        scale(100, 1),
        scale(120_000, 1001),
        scale(120, 1),
        scale(150, 1),
        scale(240, 1),
        scale(600, 1),
        scale(1_000, 1),
        scale(15_360, 1),
        scale(30_000, 1),
        scale(60_000, 1),
        scale(90_000, 1),
    ]
}

/// The grids that videos are commonly made on.
pub fn standard_timestamp_scales() -> (scales: [TimestampScale; 21])
    ensures
        scales@ == standard_scales(),
        forall|i: int| 0 <= i < 21 ==> (#[trigger] scales@[i]).denominator > 0,
{
    let scales = [
        TimestampScale { numerator: 24_000, denominator: 1001 },
        TimestampScale { numerator: 24, denominator: 1 },
        TimestampScale { numerator: 25, denominator: 1 },
        TimestampScale { numerator: 30_000, denominator: 1001 },
        TimestampScale { numerator: 30, denominator: 1 },
        TimestampScale { numerator: 48_000, denominator: 1001 },
        TimestampScale { numerator: 48, denominator: 1 },
        TimestampScale { numerator: 50, denominator: 1 },
        TimestampScale { numerator: 60_000, denominator: 1001 },
        TimestampScale { numerator: 60, denominator: 1 },
        TimestampScale { numerator: 100, denominator: 1 },
        TimestampScale { numerator: 120_000, denominator: 1001 },
        TimestampScale { numerator: 120, denominator: 1 },
        TimestampScale { numerator: 150, denominator: 1 },
        TimestampScale { numerator: 240, denominator: 1 },
        TimestampScale { numerator: 600, denominator: 1 },
        TimestampScale { numerator: 1_000, denominator: 1 },
        TimestampScale { numerator: 15_360, denominator: 1 },
        TimestampScale { numerator: 30_000, denominator: 1 },
        TimestampScale { numerator: 60_000, denominator: 1 },
        TimestampScale { numerator: 90_000, denominator: 1 },
    ];
    assert(scales@ =~= standard_scales());
    scales
}

/// Every timestamp is near the grid.
pub open spec fn all_near(scale: TimestampScale, observed: Seq<i64>) -> bool {
    forall|i: int| 0 <= i < observed.len() ==> scale.is_near(#[trigger] observed[i])
}

/// The first standard grid from `from` on that every timestamp is near.
pub open spec fn first_near_scale(from: int, observed: Seq<i64>) -> Option<TimestampScale>
    decreases standard_scales().len() - from,
{
    if from < 0 || from >= standard_scales().len() {
        None
    } else if all_near(standard_scales()[from], observed) {
        Some(standard_scales()[from])
    } else {
        first_near_scale(from + 1, observed)
    }
}

proof fn lemma_first_near_scale(from: int, observed: Seq<i64>)
    requires
        0 <= from,
    ensures
        first_near_scale(from, observed) matches Some(scale) ==> all_near(scale, observed)
            && standard_scales().contains(scale),
    decreases standard_scales().len() - from,
{
    if from < standard_scales().len() && !all_near(standard_scales()[from], observed) {
        lemma_first_near_scale(from + 1, observed);
    }
}

/// Finds the first standard grid that every timestamp is near.
pub fn timestamp_scale_for_observed(observed_hns: &[i64]) -> (found: Option<TimestampScale>)
    ensures
        found == first_near_scale(0, observed_hns@),
        found matches Some(scale) ==> scale.denominator > 0,
{
    let scales = standard_timestamp_scales();
    let mut at: usize = 0;
    while at < 21
        invariant
            at <= 21,
            scales@ == standard_scales(),
            forall|i: int| 0 <= i < 21 ==> (#[trigger] scales@[i]).denominator > 0,
            first_near_scale(0, observed_hns@) == first_near_scale(at as int, observed_hns@),
        decreases 21 - at,
    {
        let scale = scales[at];
        assert(scales@[at as int].denominator > 0);
        let mut near = true;
        let mut index: usize = 0;
        while near && index < observed_hns.len()
            invariant
                scale.denominator > 0,
                index <= observed_hns@.len(),
                near ==> forall|i: int|
                    0 <= i < index ==> scale.is_near(#[trigger] observed_hns@[i]),
                !near ==> !all_near(scale, observed_hns@),
            decreases
                    observed_hns@.len() - index,
                    if near {
                        1int
                    } else {
                        0int
                    },
        {
            if scale.fits(observed_hns[index]) {
                index = index + 1;
            } else {
                assert(!scale.is_near(observed_hns@[index as int]));
                near = false;
            }
        }
        if near {
            assert(all_near(scale, observed_hns@));
            return Some(scale);
        }
        at = at + 1;
    }
    None
}

/// Turns timestamps into media times. Once enough timestamps have been seen it
/// looks for a grid that all of them are near, and looks again whenever one
/// leaves the grid; if there is none it stops looking. Until then, and from
/// then on, it uses the container's grid as long as the timestamps are near.
pub struct TimestampClock {
    pub preferred_scale: Option<TimestampScale>,
    pub observed_hns: Vec<i64>,
    pub scale: Option<TimestampScale>,
    pub disabled: bool,
}

/// What a clock knows.
pub struct ClockState {
    pub preferred: Option<TimestampScale>,
    pub observed: Seq<i64>,
    pub scale: Option<TimestampScale>,
    pub disabled: bool,
}

impl View for TimestampClock {
    type V = ClockState;

    open spec fn view(&self) -> ClockState {
        ClockState {
            preferred: self.preferred_scale,
            observed: self.observed_hns@,
            scale: self.scale,
            disabled: self.disabled,
        }
    }
}

/// The time on the container's grid, or the timestamp itself. A container's
/// grid that a timestamp is not near is given up.
pub open spec fn preferred_time(state: ClockState, timestamp_100ns: i64) -> (
    ClockState,
    Result<MediaTime, ClockError>,
) {
    let plain = Ok::<MediaTime, ClockError>(
        MediaTime { value: timestamp_100ns, timescale: 10_000_000 },
    );
    match state.preferred {
        Some(scale) => if scale.is_near(timestamp_100ns) {
            (state, scale.grid_time(timestamp_100ns))
        } else {
            (ClockState { preferred: None, ..state }, plain)
        },
        None => (state, plain),
    }
}

/// What a clock makes of the next timestamp.
pub open spec fn next_time(state: ClockState, timestamp_100ns: i64) -> (
    ClockState,
    Result<MediaTime, ClockError>,
) {
    let seen = ClockState { observed: state.observed.push(timestamp_100ns), ..state };
    if seen.scale matches Some(scale) && scale.is_near(timestamp_100ns) {
        (seen, seen.scale->0.grid_time(timestamp_100ns))
    } else if !seen.disabled && seen.observed.len() >= MIN_TIMESTAMPS_FOR_CLOCK {
        match first_near_scale(0, seen.observed) {
            Some(scale) => (
                ClockState { scale: Some(scale), ..seen },
                scale.grid_time(timestamp_100ns),
            ),
            None => preferred_time(
                ClockState { scale: None, disabled: true, ..seen },
                timestamp_100ns,
            ),
        }
    } else {
        preferred_time(ClockState { scale: None, ..seen }, timestamp_100ns)
    }
}

impl TimestampClock {
    pub open spec fn wf(self) -> bool {
        &&& self.preferred_scale matches Some(scale) ==> scale.denominator > 0
        &&& self.scale matches Some(scale) ==> scale.denominator > 0
    }

    /// A clock that has seen nothing, with the container's timescale if it is
    /// a usable one.
    pub fn new(preferred_timescale: Option<u32>) -> (clock: TimestampClock)
        ensures
            clock.wf(),
            clock@ == (ClockState {
                preferred: match preferred_timescale {
                    Some(numerator) => if 0 < numerator <= i32::MAX {
                        Some(TimestampScale { numerator, denominator: 1 })
                    } else {
                        None
                    },
                    None => None,
                },
                observed: Seq::empty(),
                scale: None,
                disabled: false,
            }),
    {
        let preferred_scale = match preferred_timescale {
            Some(numerator) => {
                if numerator > 0 && numerator <= i32::MAX as u32 {
                    Some(TimestampScale { numerator, denominator: 1 })
                } else {
                    None
                }
            },
            None => None,
        };
        TimestampClock { preferred_scale, observed_hns: Vec::new(), scale: None, disabled: false }
    }

    /// The media time of the next timestamp.
    pub fn media_time_from_hns(&mut self, timestamp_100ns: i64) -> (result: Result<
        MediaTime,
        ClockError,
    >)
        requires
            old(self).wf(),
        ensures
            final(self).wf(),
            (final(self)@, result) == next_time(old(self)@, timestamp_100ns),
    {
        self.observed_hns.push(timestamp_100ns);
        if let Some(scale) = self.scale {
            if scale.fits(timestamp_100ns) {
                return scale.media_time_from_hns(timestamp_100ns);
            }
            self.scale = None;
        }
        if !self.disabled && self.observed_hns.len() >= MIN_TIMESTAMPS_FOR_CLOCK {
            self.scale = timestamp_scale_for_observed(&self.observed_hns);
            if let Some(scale) = self.scale {
                return scale.media_time_from_hns(timestamp_100ns);
            }
            self.disabled = true;
        }
        if let Some(scale) = self.preferred_scale {
            if scale.fits(timestamp_100ns) {
                return scale.media_time_from_hns(timestamp_100ns);
            }
            self.preferred_scale = None;
        }
        match MediaTime::new(timestamp_100ns, 10_000_000) {
            Ok(time) => Ok(time),
            Err(error) => Err(ClockError::Time(error)),
        }
    }
}

/// Whatever a clock has seen, the media time it gives is within the tolerance
/// of the timestamp.
pub proof fn law_media_time_is_near_the_timestamp(state: ClockState, timestamp_100ns: i64)
    ensures
        next_time(state, timestamp_100ns).1 matches Ok(time) ==> {
            let distance = time.value * HNS_PER_SECOND - timestamp_100ns * time.timescale;
            time.timescale > 0 && -TIMESTAMP_QUANTIZATION_TOLERANCE_HNS * time.timescale <= distance
                <= TIMESTAMP_QUANTIZATION_TOLERANCE_HNS * time.timescale
        },
{
    let seen = state.observed.push(timestamp_100ns);
    lemma_first_near_scale(0, seen);
    assert(seen.last() == timestamp_100ns);
}

/// A clock keeps every timestamp it was given.
pub proof fn law_clock_remembers(state: ClockState, timestamp_100ns: i64)
    ensures
        next_time(state, timestamp_100ns).0.observed == state.observed.push(timestamp_100ns),
{
}

/// A clock that found a grid stays on it as long as the timestamps are near
/// it.
pub proof fn law_clock_stays_on_its_grid(
    state: ClockState,
    scale: TimestampScale,
    timestamp_100ns: i64,
)
    requires
        state.scale == Some(scale),
        scale.is_near(timestamp_100ns),
    ensures
        next_time(state, timestamp_100ns).0.scale == Some(scale),
        next_time(state, timestamp_100ns).1 == scale.grid_time(timestamp_100ns),
{
}

/// A nearest quotient is as near as any whole number, and of two that are equally near it is
/// the one that is further from zero.
pub proof fn law_nearest_quotient_rounds_away_from_zero(
    numerator: int,
    denominator: int,
    other: int,
)
    requires
        denominator > 0,
    ensures
        ({
            let quotient = nearest_quotient(numerator, denominator);
            let off = quotient * denominator - numerator;
            let other_off = other * denominator - numerator;
            &&& -denominator <= 2 * off <= denominator
            &&& 2 * off == denominator ==> numerator > 0
            &&& 2 * off == -denominator ==> numerator < 0
            &&& other != quotient ==> 2 * other_off >= denominator || 2 * other_off <= -denominator
        }),
{
    let quotient = nearest_quotient(numerator, denominator);
    let half = denominator / 2;
    let size = if numerator >= 0 {
        numerator
    } else {
        -numerator
    };
    let whole = (size + half) / denominator;
    law_nearest_quotient_is_near(numerator, denominator);
    lemma_fundamental_div_mod(size + half, denominator);
    lemma_mod_bound(size + half, denominator);
    lemma_mul_is_commutative(denominator, whole);
    assert((-whole) * denominator == -(whole * denominator)) by (nonlinear_arith);
    let rest = (size + half) % denominator;
    assert(whole * denominator - size == half - rest);
    assert(denominator == 2 * half || denominator == 2 * half + 1);
    let off = quotient * denominator - numerator;
    if numerator >= 0 {
        assert(off == half - rest);
        if 2 * off == denominator {
            assert(whole * denominator > 0);
            assert(numerator != 0) by {
                if numerator == 0 {
                    assert(whole == 0) by (nonlinear_arith)
                        requires
                            whole * denominator == half,
                            0 <= half < denominator,
                    ;
                }
            }
        }
    } else {
        assert(off == rest - half);
    }
    if other != quotient {
        let step = other - quotient;
        assert(other * denominator == quotient * denominator + step * denominator)
            by (nonlinear_arith)
            requires
                step == other - quotient,
        ;
        assert(step >= 1 ==> step * denominator >= denominator) by (nonlinear_arith)
            requires
                denominator > 0,
        ;
        assert(step <= -1 ==> step * denominator <= -denominator) by (nonlinear_arith)
            requires
                denominator > 0,
        ;
    }
}

/// A timestamp that is next to a point of a grid, by less than half of the grid's unit,
/// becomes that point.
pub proof fn law_grid_points_are_found(scale: TimestampScale, timestamp_100ns: i64, index: int)
    requires
        scale.denominator > 0,
        scale.numerator > 0,
        -5_000_000 < timestamp_100ns * scale.numerator - index * scale.denominator * 10_000_000
            < 5_000_000,
    ensures
        scale.grid_units(timestamp_100ns) == index * scale.denominator,
        i64::MIN <= index * scale.denominator <= i64::MAX && scale.numerator <= i32::MAX
            ==> scale.grid_time(timestamp_100ns) == Ok::<MediaTime, ClockError>(
            MediaTime {
                value: (index * scale.denominator) as i64,
                timescale: scale.numerator as i32,
            },
        ),
{
    let units = index * scale.denominator;
    let product = timestamp_100ns * scale.numerator;
    law_nearest_quotient_rounds_away_from_zero(product, 10_000_000, units);
    assert(units * 10_000_000 == index * scale.denominator * 10_000_000);
    let found = nearest_quotient(product, 10_000_000);
    assert(found == units);
    law_nearest_quotient_rounds_away_from_zero(units, scale.denominator as int, index);
    assert(nearest_quotient(units, scale.denominator as int) == index);
}

/// A timestamp is near a grid exactly if its grid point is no more than a tenth of a
/// millisecond away.
pub proof fn law_near_is_a_tenth_of_a_millisecond(scale: TimestampScale, timestamp_100ns: i64)
    ensures
        scale.is_near(timestamp_100ns) <==> -1_000 * scale.numerator <= scale.grid_units(
            timestamp_100ns,
        ) * 10_000_000 - timestamp_100ns * scale.numerator <= 1_000 * scale.numerator,
{
}

/// A grid point is a whole number of the grid's steps.
pub proof fn law_grid_units_are_steps(scale: TimestampScale, timestamp_100ns: i64)
    requires
        scale.denominator > 0,
    ensures
        scale.grid_units(timestamp_100ns) % (scale.denominator as int) == 0,
{
    let steps = nearest_quotient(
        nearest_quotient(timestamp_100ns * scale.numerator, HNS_PER_SECOND as int),
        scale.denominator as int,
    );
    lemma_mod_multiples_basic(steps, scale.denominator as int);
}

/// The common grids are the common frame rates, whole ones and those a thousandth slower,
/// and the common timescales. The slower come before the faster.
#[verifier::rlimit(30)]
pub proof fn law_standard_grids_are_the_common_rates(numerator: u32, denominator: u32)
    ensures
        standard_scales().contains(TimestampScale { numerator, denominator }) <==> (denominator
            == 1001 && (numerator == 24_000 || numerator == 30_000 || numerator == 48_000
            || numerator == 60_000 || numerator == 120_000)) || (denominator == 1 && (numerator == 24
            || numerator == 25 || numerator == 30 || numerator == 48 || numerator == 50 || numerator
            == 60 || numerator == 100 || numerator == 120 || numerator == 150 || numerator == 240
            || numerator == 600 || numerator == 1_000 || numerator == 15_360 || numerator == 30_000
            || numerator == 60_000 || numerator == 90_000)),
        forall|i: int, j: int|
            0 <= i < j < standard_scales().len() ==> (#[trigger] standard_scales()[i]).numerator
                * (#[trigger] standard_scales()[j]).denominator < standard_scales()[j].numerator
                * standard_scales()[i].denominator,
{
    let scales = standard_scales();
    let wanted = TimestampScale { numerator, denominator };
    if scales.contains(wanted) {
        let at = choose|at: int| 0 <= at < scales.len() && scales[at] == wanted;
        assert(scales[at] == wanted);
    }
    assert(scales[0] == scale(24_000, 1001));
    assert(scales[1] == scale(24, 1));
    assert(scales[2] == scale(25, 1));
    assert(scales[3] == scale(30_000, 1001));
    assert(scales[4] == scale(30, 1));
    assert(scales[5] == scale(48_000, 1001));
    assert(scales[6] == scale(48, 1));
    assert(scales[7] == scale(50, 1));
    assert(scales[8] == scale(60_000, 1001));
    assert(scales[9] == scale(60, 1));
    assert(scales[10] == scale(100, 1));
    assert(scales[11] == scale(120_000, 1001));
    assert(scales[12] == scale(120, 1));
    assert(scales[13] == scale(150, 1));
    assert(scales[14] == scale(240, 1));
    assert(scales[15] == scale(600, 1));
    assert(scales[16] == scale(1_000, 1));
    assert(scales[17] == scale(15_360, 1));
    assert(scales[18] == scale(30_000, 1));
    assert(scales[19] == scale(60_000, 1));
    assert(scales[20] == scale(90_000, 1));
    assert forall|i: int| 0 <= i < 20 implies ascends(#[trigger] scales[i], scales[i + 1]) by {
        assert(i == 0 || i == 1 || i == 2 || i == 3 || i == 4 || i == 5 || i == 6 || i == 7 || i == 8
            || i == 9 || i == 10 || i == 11 || i == 12 || i == 13 || i == 14 || i == 15 || i == 16
            || i == 17 || i == 18 || i == 19);
    }
    assert forall|i: int, j: int| 0 <= i < j < scales.len() implies (
    #[trigger] scales[i]).numerator * (#[trigger] scales[j]).denominator < scales[j].numerator
        * scales[i].denominator by {
        lemma_scales_ascend(i, j);
    }
}

/// A grid is slower than another.
spec fn ascends(slower: TimestampScale, faster: TimestampScale) -> bool {
    slower.numerator * faster.denominator < faster.numerator * slower.denominator
}

proof fn lemma_scales_ascend(i: int, j: int)
    requires
        0 <= i < j < standard_scales().len(),
        forall|k: int|
            0 <= k < 20 ==> ascends(#[trigger] standard_scales()[k], standard_scales()[k + 1]),
    ensures
        ascends(standard_scales()[i], standard_scales()[j]),
    decreases j - i,
{
    let scales = standard_scales();
    assert(ascends(scales[j - 1], scales[j]));
    if i < j - 1 {
        lemma_scales_ascend(i, j - 1);
        let (a, b, c) = (scales[i], scales[j - 1], scales[j]);
        lemma_scale_is_positive(i);
        lemma_scale_is_positive(j - 1);
        lemma_scale_is_positive(j);
        assert(a.numerator * c.denominator < c.numerator * a.denominator) by (nonlinear_arith)
            requires
                a.numerator * b.denominator < b.numerator * a.denominator,
                b.numerator * c.denominator < c.numerator * b.denominator,
                a.denominator > 0,
                b.denominator > 0,
                c.denominator > 0,
                a.numerator > 0,
                b.numerator > 0,
                c.numerator > 0,
        ;
    }
}

proof fn lemma_scale_is_positive(i: int)
    requires
        0 <= i < standard_scales().len(),
    ensures
        standard_scales()[i].numerator > 0,
        standard_scales()[i].denominator > 0,
{
}

proof fn lemma_first_near_scale_is_first(from: int, at: int, observed: Seq<i64>)
    requires
        0 <= from <= at < standard_scales().len(),
        all_near(standard_scales()[at], observed),
        forall|i: int|
            from <= i < at ==> !all_near(#[trigger] standard_scales()[i], observed),
    ensures
        first_near_scale(from, observed) == Some(standard_scales()[at]),
    decreases at - from,
{
    if from < at {
        assert(!all_near(standard_scales()[from], observed));
        lemma_first_near_scale_is_first(from + 1, at, observed);
    }
}

/// From the eighth timestamp on, a clock without a grid takes the first common grid that
/// every timestamp so far is near, and gives the time on it.
pub proof fn law_clock_finds_the_first_grid(state: ClockState, timestamp_100ns: i64, at: int)
    requires
        state.scale is None,
        !state.disabled,
        state.observed.len() >= 7,
        0 <= at < standard_scales().len(),
        forall|i: int|
            0 <= i < state.observed.len() ==> standard_scales()[at].is_near(
                #[trigger] state.observed[i],
            ),
        standard_scales()[at].is_near(timestamp_100ns),
        forall|i: int|
            0 <= i < at ==> exists|j: int|
                0 <= j < state.observed.push(timestamp_100ns).len()
                    && !(#[trigger] standard_scales()[i]).is_near(
                    #[trigger] state.observed.push(timestamp_100ns)[j],
                ),
    ensures
        next_time(state, timestamp_100ns).0.scale == Some(standard_scales()[at]),
        next_time(state, timestamp_100ns).1 == standard_scales()[at].grid_time(timestamp_100ns),
{
    let seen = state.observed.push(timestamp_100ns);
    assert(all_near(standard_scales()[at], seen)) by {
        assert forall|i: int| 0 <= i < seen.len() implies standard_scales()[at].is_near(
            #[trigger] seen[i],
        ) by {
            if i < state.observed.len() {
                assert(seen[i] == state.observed[i]);
            }
        }
    }
    assert forall|i: int| 0 <= i < at implies !all_near(#[trigger] standard_scales()[i], seen) by {
        let j = choose|j: int|
            0 <= j < seen.len() && !standard_scales()[i].is_near(#[trigger] seen[j]);
        assert(!standard_scales()[i].is_near(seen[j]));
    }
    lemma_first_near_scale_is_first(0, at, seen);
}

/// Before the eighth timestamp a clock goes by the container's timescale while timestamps
/// are near it, and by the timestamps themselves otherwise.
pub proof fn law_clock_starts_with_the_container(state: ClockState, timestamp_100ns: i64)
    requires
        state.scale is None,
        state.observed.len() < 7,
    ensures
        ({
            let (next, time) = next_time(state, timestamp_100ns);
            match state.preferred {
                Some(scale) => if scale.is_near(timestamp_100ns) {
                    next.preferred == Some(scale) && time == scale.grid_time(timestamp_100ns)
                } else {
                    next.preferred is None && time == Ok::<MediaTime, ClockError>(
                        MediaTime { value: timestamp_100ns, timescale: 10_000_000 },
                    )
                },
                None => next.preferred is None && time == Ok::<MediaTime, ClockError>(
                    MediaTime { value: timestamp_100ns, timescale: 10_000_000 },
                ),
            }
        }),
        next_time(state, timestamp_100ns).0.disabled == state.disabled,
{
}

/// A clock that finds no common grid for its timestamps looks for none any more, and goes by
/// the container's timescale or by the timestamps themselves from then on.
pub proof fn law_clock_gives_up(state: ClockState, timestamp_100ns: i64, later: i64)
    requires
        state.scale is None,
        state.disabled || (state.observed.len() >= 7 && forall|i: int|
            0 <= i < standard_scales().len() ==> exists|j: int|
                0 <= j < state.observed.push(timestamp_100ns).len()
                    && !(#[trigger] standard_scales()[i]).is_near(
                    #[trigger] state.observed.push(timestamp_100ns)[j],
                )),
    ensures
        ({
            let (next, time) = next_time(state, timestamp_100ns);
            &&& next.disabled
            &&& next.scale is None
            &&& next_time(next, later).0.disabled
            &&& next_time(next, later).0.scale is None
            &&& match state.preferred {
                Some(scale) => if scale.is_near(timestamp_100ns) {
                    time == scale.grid_time(timestamp_100ns)
                } else {
                    time == Ok::<MediaTime, ClockError>(
                        MediaTime { value: timestamp_100ns, timescale: 10_000_000 },
                    )
                },
                None => time == Ok::<MediaTime, ClockError>(
                    MediaTime { value: timestamp_100ns, timescale: 10_000_000 },
                ),
            }
        }),
{
    let seen = state.observed.push(timestamp_100ns);
    if !state.disabled {
        if let Some(scale) = first_near_scale(0, seen) {
            lemma_first_near_scale(0, seen);
            let at = choose|at: int| 0 <= at < standard_scales().len() && standard_scales()[at]
                == scale;
            let j = choose|j: int|
                0 <= j < seen.len() && !(standard_scales()[at]).is_near(#[trigger] seen[j]);
            assert(!scale.is_near(seen[j]));
        }
    }
}

/// A timestamp that is not near the grid that a clock is on is taken as if the clock were on none.
pub proof fn law_clock_leaves_a_grid(state: ClockState, timestamp_100ns: i64)
    requires
        state.scale matches Some(scale) && !scale.is_near(timestamp_100ns),
    ensures
        next_time(state, timestamp_100ns) == next_time(
            ClockState { scale: None, ..state },
            timestamp_100ns,
        ),
{
}

} // verus!
