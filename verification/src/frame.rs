//! What one frame needs from the buffer: the window, the vertical targets
//! that the axis bounds are pulled toward, and the times along the time axis.

use vstd::prelude::*;
use vstd::slice::slice_to_vec;
use crate::buffer::{chronological, window_of, Sample, SampleBuffer};

verus! {

/// The parameters of the chart.
#[derive(Clone, Copy, Debug, PartialEq, Eq, Structural)]
pub struct ChartSettings {
    /// How many samples fit on the chart.
    pub capacity: usize,
    /// The room kept above the highest and below the lowest value shown.
    pub margin: u32,
    /// How many times are shown along the time axis.
    pub label_count: u32,
}

impl ChartSettings {
    /// Settings that a chart can be drawn with: the window of a buffer that
    /// is not empty must hold a sample, and there must be a label.
    pub open spec fn valid(&self) -> bool {
        self.capacity >= 2 && self.label_count >= 1
    }

    /// Executable test for [`ChartSettings::valid`].
    pub fn is_valid(&self) -> (r: bool)
        ensures
            r == self.valid(),
    {
        self.capacity >= 2 && self.label_count >= 1
    }
}

impl Default for ChartSettings {
    /// A hundred samples, a margin of ten, three labels.
    fn default() -> (r: Self)
        ensures
            r == (ChartSettings { capacity: 100, margin: 10, label_count: 3 }),
    {
        ChartSettings { capacity: 100, margin: 10, label_count: 3 }
    }
}

/// The highest value among `window`, which must not be empty.
pub open spec fn highest_value(window: Seq<Sample>) -> int
    decreases window.len(),
{
    if window.len() <= 1 {
        window[0].value as int
    } else {
        let rest = highest_value(window.drop_last());
        if window.last().value > rest {
            window.last().value as int
        } else {
            rest
        }
    }
}

/// The lowest value among `window`, which must not be empty.
pub open spec fn lowest_value(window: Seq<Sample>) -> int
    decreases window.len(),
{
    if window.len() <= 1 {
        window[0].value as int
    } else {
        let rest = lowest_value(window.drop_last());
        if window.last().value < rest {
            window.last().value as int
        } else {
            rest
        }
    }
}

/// The highest value occurs in the window and none exceeds it; likewise the
/// lowest occurs and none is below it.
pub proof fn lemma_extremes(window: Seq<Sample>)
    requires
        window.len() > 0,
    ensures
        exists|i: int| 0 <= i < window.len() && #[trigger] window[i].value == highest_value(window),
        exists|i: int| 0 <= i < window.len() && #[trigger] window[i].value == lowest_value(window),
        forall|i: int|
            0 <= i < window.len() ==> lowest_value(window) <= #[trigger] window[i].value
                <= highest_value(window),
    decreases window.len(),
{
    if window.len() == 1 {
        assert(window[0].value == highest_value(window));
        assert(window[0].value == lowest_value(window));
    } else {
        let rest = window.drop_last();
        lemma_extremes(rest);
        let hi = choose|i: int| 0 <= i < rest.len() && #[trigger] rest[i].value == highest_value(rest);
        let lo = choose|i: int| 0 <= i < rest.len() && #[trigger] rest[i].value == lowest_value(rest);
        let last = window.len() - 1;
        assert(rest[hi] == window[hi] && rest[lo] == window[lo]);
        if window.last().value > highest_value(rest) {
            assert(window[last].value == highest_value(window));
        } else {
            assert(window[hi].value == highest_value(window));
        }
        if window.last().value < lowest_value(rest) {
            assert(window[last].value == lowest_value(window));
        } else {
            assert(window[lo].value == lowest_value(window));
        }
        assert forall|i: int| 0 <= i < window.len() implies lowest_value(window)
            <= #[trigger] window[i].value <= highest_value(window) by {
            if i < last {
                assert(rest[i] == window[i]);
            }
        }
    }
}

/// The lowest and the highest value of `window`, or `None` if it is empty.
pub fn value_range(window: &[Sample]) -> (r: Option<(i32, i32)>)
    ensures
        r is None <==> window@.len() == 0,
        r matches Some((low, high)) ==> low == lowest_value(window@) && high == highest_value(
            window@,
        ),
{
    let n = window.len();
    if n == 0 {
        return None;
    }
    let mut low: i32 = window[0].value;
    let mut high: i32 = window[0].value;
    let mut i: usize = 1;
    while i < n
        invariant
            1 <= i <= n,
            n == window@.len(),
            low == lowest_value(window@.subrange(0, i as int)),
            high == highest_value(window@.subrange(0, i as int)),
        decreases n - i,
    {
        proof {
            let longer = window@.subrange(0, i + 1);
            assert(longer.drop_last() =~= window@.subrange(0, i as int));
            assert(longer.last() == window@[i as int]);
        }
        let v = window[i].value;
        if v < low {
            low = v;
        }
        if v > high {
            high = v;
        }
        i += 1;
    }
    assert(window@.subrange(0, n as int) =~= window@);
    Some((low, high))
}

/// The values that the top and the bottom of the vertical axis are pulled toward.
#[derive(Clone, Copy, Debug, PartialEq, Eq, Structural)]
pub struct AxisTargets {
    /// The highest value shown, plus the margin.
    pub top: i64,
    /// The lowest value shown, minus the margin.
    pub bottom: i64,
}

/// The targets for `window`, which must not be empty, with room `margin`.
pub open spec fn targets_of(window: Seq<Sample>, margin: u32) -> AxisTargets {
    AxisTargets {
        top: (highest_value(window) + margin) as i64,
        bottom: (lowest_value(window) - margin) as i64,
    }
}

/// The targets of the vertical axis for `window`, or `None` if it is empty.
pub fn axis_targets(window: &[Sample], margin: u32) -> (r: Option<AxisTargets>)
    ensures
        r is None <==> window@.len() == 0,
        r matches Some(t) ==> t == targets_of(window@, margin) && t.top == highest_value(window@)
            + margin && t.bottom == lowest_value(window@) - margin,
{
    match value_range(window) {
        None => None,
        Some((low, high)) => Some(
            AxisTargets { top: high as i64 + margin as i64, bottom: low as i64 - margin as i64 },
        ),
    }
}

/// The targets lie apart by the spread of the values plus the margin on both
/// sides: the top is never below the bottom, and the two coincide only for a
/// window of equal values without a margin.
pub proof fn lemma_target_span(window: Seq<Sample>, margin: u32)
    requires
        window.len() > 0,
    ensures
        targets_of(window, margin).top == highest_value(window) + margin,
        targets_of(window, margin).bottom == lowest_value(window) - margin,
        targets_of(window, margin).top - targets_of(window, margin).bottom == highest_value(window)
            - lowest_value(window) + 2 * margin,
        lowest_value(window) <= highest_value(window),
        (forall|i: int, j: int|
            0 <= i < window.len() && 0 <= j < window.len() ==> (#[trigger] window[i]).value == (
            #[trigger] window[j]).value) ==> targets_of(window, margin).top - targets_of(
            window,
            margin,
        ).bottom == 2 * margin,
{
    lemma_extremes(window);
    let hi = choose|i: int| 0 <= i < window.len() && #[trigger] window[i].value == highest_value(window);
    let lo = choose|i: int| 0 <= i < window.len() && #[trigger] window[i].value == lowest_value(window);
    assert(window[lo].value <= highest_value(window));
    if forall|i: int, j: int|
        0 <= i < window.len() && 0 <= j < window.len() ==> (#[trigger] window[i]).value == (
        #[trigger] window[j]).value {
        assert(window[hi].value == window[lo].value);
    }
}

/// The time that `window`, which must not be empty, covers: from its first
/// sample to its last, and nothing if the last is the older one.
pub open spec fn time_span(window: Seq<Sample>) -> nat {
    if window.last().timestamp >= window[0].timestamp {
        (window.last().timestamp - window[0].timestamp) as nat
    } else {
        0
    }
}

/// The time shown at label `n` of `label_count`: the time of the first
/// sample, plus `n` times a `label_count`-th of the time covered, the
/// fraction rounded down to whole nanoseconds.
pub open spec fn label_time(window: Seq<Sample>, label_count: nat, n: nat) -> nat {
    window[0].timestamp as nat + n * (time_span(window) / label_count)
}

/// `n` steps of a `count`-th of `span` do not exceed `span` while `n <= count`.
proof fn lemma_steps_within_span(span: nat, count: nat, n: nat)
    requires
        count >= 1,
        n <= count,
    ensures
        n * (span / count) <= span,
{
    let step = span / count;
    assert(step * count <= span) by (nonlinear_arith)
        requires
            step == span / count,
            count >= 1,
    ;
    assert(n * step <= step * count) by (nonlinear_arith)
        requires
            n <= count,
    ;
}

/// The times shown along the time axis, label by label.
pub fn label_times(window: &[Sample], label_count: u32) -> (r: Vec<u128>)
    requires
        window@.len() > 0,
        label_count >= 1,
    ensures
        r@.len() == label_count,
        forall|n: int|
            0 <= n < label_count ==> #[trigger] r@[n] == label_time(
                window@,
                label_count as nat,
                n as nat,
            ),
{
    let first: u128 = window[0].timestamp;
    let last: u128 = window[window.len() - 1].timestamp;
    let span: u128 = if last >= first {
        last - first
    } else {
        0
    };
    let step: u128 = span / (label_count as u128);
    let mut times: Vec<u128> = Vec::new();
    let mut time: u128 = first;
    let mut n: u32 = 0;
    while n < label_count
        invariant
            n <= label_count,
            label_count >= 1,
            window@.len() > 0,
            first == window@[0].timestamp,
            span == time_span(window@),
            first + span <= u128::MAX,
            step == span / (label_count as u128),
            time == first + n * step,
            times@.len() == n,
            forall|k: int|
                0 <= k < n ==> #[trigger] times@[k] == label_time(
                    window@,
                    label_count as nat,
                    k as nat,
                ),
        decreases label_count - n,
    {
        times.push(time);
        proof {
            lemma_steps_within_span(span as nat, label_count as nat, (n + 1) as nat);
            assert((n + 1) * step == n * step + step) by (nonlinear_arith);
        }
        time = time + step;
        n += 1;
    }
    times
}

/// Of samples in order of arrival the labels start at the first sample's
/// time, never run backwards, and stay within the time that the window covers.
pub proof fn lemma_label_times_ordered(window: Seq<Sample>, label_count: nat, n: nat, m: nat)
    requires
        window.len() > 0,
        chronological(window),
        label_count >= 1,
        n <= m < label_count,
    ensures
        label_time(window, label_count, 0) == window[0].timestamp,
        window[0].timestamp <= label_time(window, label_count, n) <= label_time(
            window,
            label_count,
            m,
        ) <= window.last().timestamp,
{
    let step = time_span(window) / label_count;
    lemma_steps_within_span(time_span(window), label_count, m);
    assert(window[0].timestamp <= window[window.len() - 1].timestamp);
    assert(0 <= n * step <= m * step) by (nonlinear_arith)
        requires
            n <= m,
            0 <= step,
    ;
    assert(0 * step == 0) by (nonlinear_arith);
}

/// What one frame draws from.
#[derive(Debug)]
pub struct FramePlan {
    /// The samples shown, oldest first.
    pub window: Vec<Sample>,
    /// What the bounds of the vertical axis are pulled toward.
    pub targets: AxisTargets,
    /// The times shown along the time axis, in nanoseconds since the start.
    pub label_times: Vec<u128>,
}

impl FramePlan {
    /// Whether this is the plan for the buffer contents `samples` under `settings`.
    pub open spec fn is_plan_of(&self, samples: Seq<Sample>, settings: ChartSettings) -> bool {
        &&& self.window@ == window_of(samples, settings.capacity as nat)
        &&& self.window@.len() > 0
        &&& self.targets == targets_of(self.window@, settings.margin)
        &&& self.label_times@.len() == settings.label_count
        &&& forall|n: int|
            0 <= n < settings.label_count ==> #[trigger] self.label_times@[n] == label_time(
                self.window@,
                settings.label_count as nat,
                n as nat,
            )
    }
}

/// Plans a frame: `None` while the buffer is empty, so that the frame is
/// skipped; from the first sample on, the window with its targets and labels.
pub fn plan_frame(buffer: &SampleBuffer, settings: &ChartSettings) -> (r: Option<FramePlan>)
    requires
        settings.valid(),
    ensures
        r is None <==> buffer@.len() == 0,
        r matches Some(plan) ==> plan.is_plan_of(buffer@, *settings),
{
    let window = match buffer.window(settings.capacity) {
        None => {
            return None;
        },
        Some(w) => w,
    };
    let targets = match axis_targets(window, settings.margin) {
        None => {
            return None;
        },
        Some(t) => t,
    };
    let label_times = label_times(window, settings.label_count);
    Some(FramePlan { window: slice_to_vec(window), targets, label_times })
}

/// Where the chart stands between frames.
#[derive(Clone, Copy, Debug, PartialEq, Eq, Structural)]
pub enum FrameState {
    /// No sample has been seen at a frame yet: nothing is drawn.
    Empty,
    /// Samples are being drawn, frame after frame.
    Rendering,
}

impl FrameState {
    /// The state after a frame that found `buffer_len` samples: the first
    /// frame that finds a sample starts the rendering, which then goes on.
    pub open spec fn after_frame(self, buffer_len: nat) -> FrameState {
        if buffer_len > 0 {
            FrameState::Rendering
        } else {
            self
        }
    }

    /// The state after a frame that found `buffer_len` samples.
    pub fn advance(self, buffer_len: usize) -> (r: FrameState)
        ensures
            r == self.after_frame(buffer_len as nat),
    {
        if buffer_len > 0 {
            FrameState::Rendering
        } else {
            self
        }
    }
}

} // verus!
