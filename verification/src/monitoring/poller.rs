//! The decision state machine of the poll path.
//!
//! Telemetry reads can stall or return all-ones sentinels when a chip's
//! interconnect drops. The controller decides, for every classified poll
//! result, how long to wait before the next poll and what the LEDs show:
//! a healthy poll resets the interval and shows its display; a troubled poll
//! grows the interval up to a cap, holds the last good display, and dims it
//! once the fault has lasted long enough. Time is passed in by the caller as
//! nanoseconds since program start, so the machine has no clock of its own.
//!
//! The brightness type `F` is carried through unchanged; the controller never
//! computes with it. The growth of the interval (a floating-point scaling by
//! the policy's multiplier) is computed by the caller and handed in.

use crate::rgb::RgbColor;
use vstd::prelude::*;

verus! {

/// Timing and thresholds for the controller. All durations are in
/// nanoseconds; `F` is the type of the multiplier, thresholds and brightness.
#[derive(Debug, Clone, Copy)]
pub struct PollPolicy<F> {
    pub base_interval: u128,
    pub max_interval: u128,
    pub read_timeout: u128,
    pub backoff_multiplier: F,
    pub sentinel_temp_c: F,
    pub sentinel_power_w: F,
    pub fault_dim_after: u128,
    pub fault_brightness: F,
}

/// What to render on the LEDs this iteration.
#[derive(Debug, Clone, Copy, PartialEq)]
pub struct Display<F> {
    pub color: RgbColor,
    pub brightness: F,
}

/// Classified outcome of one poll attempt. `Good` carries the already-mapped
/// display.
#[derive(Debug, Clone, Copy, PartialEq)]
pub enum PollResult<F> {
    Good(Display<F>),
    Sentinel,
    Error,
    Timeout,
}

/// The state of a controller, as contracts see it.
pub struct ControllerState<F> {
    pub policy: PollPolicy<F>,
    pub interval: u128,
    pub fault_since: Option<u128>,
    pub last_good: Option<Display<F>>,
}

/// Interval backoff, fault tracking and the hold-last-good-then-dim policy.
pub struct PollController<F> {
    policy: PollPolicy<F>,
    interval: u128,
    fault_since: Option<u128>,
    last_good: Option<Display<F>>,
}

impl<F> View for PollController<F> {
    type V = ControllerState<F>;

    closed spec fn view(&self) -> ControllerState<F> {
        ControllerState {
            policy: self.policy,
            interval: self.interval,
            fault_since: self.fault_since,
            last_good: self.last_good,
        }
    }
}

/// The state of a fresh controller.
pub open spec fn initial_state<F>(policy: PollPolicy<F>) -> ControllerState<F> {
    ControllerState { policy, interval: policy.base_interval, fault_since: None, last_good: None }
}

pub open spec fn min_u128(a: u128, b: u128) -> u128 {
    if a <= b { a } else { b }
}

/// `a - b`, or zero when `b` exceeds `a`.
pub open spec fn saturating_sub_u128(a: u128, b: u128) -> u128 {
    if a >= b { (a - b) as u128 } else { 0 }
}

/// `min_u128` is the smaller of its two arguments, and
/// `saturating_sub_u128` their difference, or zero when it would be
/// negative.
pub proof fn lemma_min_and_saturating_sub(a: u128, b: u128)
    ensures
        min_u128(a, b) <= a,
        min_u128(a, b) <= b,
        min_u128(a, b) == a || min_u128(a, b) == b,
        a >= b ==> saturating_sub_u128(a, b) + b == a,
        a < b ==> saturating_sub_u128(a, b) == 0,
{
}

/// What the LEDs show after a troubled poll at `now`, with the fault
/// having started at `fault_start`.
pub open spec fn troubled_display<F>(
    policy: PollPolicy<F>,
    last_good: Option<Display<F>>,
    fault_start: u128,
    now: u128,
) -> Option<Display<F>> {
    match last_good {
        None => None,
        Some(good) => if saturating_sub_u128(now, fault_start) >= policy.fault_dim_after {
            Some(Display { color: good.color, brightness: policy.fault_brightness })
        } else {
            Some(good)
        },
    }
}

/// One step of the controller: the next state and the display to render,
/// for a poll result observed at `now`, where `grown` is the current
/// interval scaled by the backoff multiplier.
pub open spec fn record_step<F>(
    s: ControllerState<F>,
    result: PollResult<F>,
    now: u128,
    grown: u128,
) -> (ControllerState<F>, Option<Display<F>>) {
    match result {
        PollResult::Good(display) => (
            ControllerState {
                policy: s.policy,
                interval: s.policy.base_interval,
                fault_since: None,
                last_good: Some(display),
            },
            Some(display),
        ),
        _ => {
            let fault_start = match s.fault_since {
                Some(t) => t,
                None => now,
            };
            (
                ControllerState {
                    policy: s.policy,
                    interval: min_u128(grown, s.policy.max_interval),
                    fault_since: Some(fault_start),
                    last_good: s.last_good,
                },
                troubled_display(s.policy, s.last_good, fault_start, now),
            )
        },
    }
}

/// Whether a poll result is trouble (sentinel, error or timeout).
pub open spec fn is_trouble<F>(result: PollResult<F>) -> bool {
    !(result is Good)
}

/// One good poll resets the backoff: the interval returns to the base, the
/// fault is cleared, its display becomes the last good one and is shown.
pub proof fn lemma_good_poll_resets<F>(s: ControllerState<F>, display: Display<F>, now: u128, grown: u128)
    ensures
        ({
            let (t, out) = record_step(s, PollResult::Good(display), now, grown);
            &&& t.interval == s.policy.base_interval
            &&& t.fault_since is None
            &&& t.last_good == Some(display)
            &&& out == Some(display)
            &&& t.policy == s.policy
        }),
{
}

/// Trouble grows the interval to the caller's scaled value, capped at the
/// policy's maximum.
pub proof fn lemma_trouble_caps_interval<F>(s: ControllerState<F>, result: PollResult<F>, now: u128, grown: u128)
    requires
        is_trouble(result),
    ensures
        ({
            let (t, _) = record_step(s, result, now, grown);
            &&& t.interval == min_u128(grown, s.policy.max_interval)
            &&& t.interval <= s.policy.max_interval
        }),
{
}

/// With a cap no lower than the base and a multiplier that never shrinks
/// the interval, the interval stays between the base and the cap whatever
/// the poll result.
pub proof fn lemma_interval_stays_in_bounds<F>(s: ControllerState<F>, result: PollResult<F>, now: u128, grown: u128)
    requires
        s.policy.base_interval <= s.policy.max_interval,
        s.policy.base_interval <= s.interval <= s.policy.max_interval,
        s.interval <= grown,
    ensures
        ({
            let (t, _) = record_step(s, result, now, grown);
            s.policy.base_interval <= t.interval <= s.policy.max_interval
        }),
{
}

/// Trouble before any good poll shows nothing, and still remembers nothing.
pub proof fn lemma_trouble_before_good_shows_nothing<F>(
    s: ControllerState<F>,
    result: PollResult<F>,
    now: u128,
    grown: u128,
)
    requires
        is_trouble(result),
        s.last_good is None,
    ensures
        ({
            let (t, out) = record_step(s, result, now, grown);
            out is None && t.last_good is None
        }),
{
}

/// Under trouble the last good colour is held: unchanged while the fault is
/// younger than the dimming threshold, at the fault brightness afterwards.
/// The fault's start is the time of the first troubled poll since the last
/// good one.
pub proof fn lemma_trouble_holds_last_good<F>(
    s: ControllerState<F>,
    result: PollResult<F>,
    now: u128,
    grown: u128,
    good: Display<F>,
)
    requires
        is_trouble(result),
        s.last_good == Some(good),
    ensures
        ({
            let (t, out) = record_step(s, result, now, grown);
            let start = match s.fault_since { Some(f) => f, None => now };
            &&& t.fault_since == Some(start)
            &&& t.last_good == Some(good)
            &&& saturating_sub_u128(now, start) < s.policy.fault_dim_after ==> out == Some(good)
            &&& saturating_sub_u128(now, start) >= s.policy.fault_dim_after ==> out == Some(
                Display { color: good.color, brightness: s.policy.fault_brightness },
            )
        }),
{
}

/// Whatever is shown has the colour of the most recent good display.
pub proof fn lemma_shown_color_is_last_good<F>(s: ControllerState<F>, result: PollResult<F>, now: u128, grown: u128)
    ensures
        ({
            let (t, out) = record_step(s, result, now, grown);
            out matches Some(d) ==> (t.last_good matches Some(g) && d.color == g.color)
        }),
{
}

/// Once a fault has lasted past the dimming threshold, every further
/// troubled poll at a later time keeps showing the dimmed last good colour,
/// and the fault keeps its start.
pub proof fn lemma_dimming_persists<F>(
    s: ControllerState<F>,
    r1: PollResult<F>,
    t1: u128,
    g1: u128,
    r2: PollResult<F>,
    t2: u128,
    g2: u128,
    good: Display<F>,
)
    requires
        is_trouble(r1),
        is_trouble(r2),
        t1 <= t2,
        s.last_good == Some(good),
        saturating_sub_u128(t1, record_step(s, r1, t1, g1).0.fault_since->0) >= s.policy.fault_dim_after,
    ensures
        ({
            let (s1, _) = record_step(s, r1, t1, g1);
            let (s2, out) = record_step(s1, r2, t2, g2);
            &&& s2.fault_since == s1.fault_since
            &&& out == Some(Display { color: good.color, brightness: s.policy.fault_brightness })
        }),
{
}

impl<F: Copy> PollController<F> {
    pub fn new(policy: PollPolicy<F>) -> (res: Self)
        ensures
            res@ == initial_state(policy),
    {
        let interval = policy.base_interval;
        Self { policy, interval, fault_since: None, last_good: None }
    }

    /// Current interval to wait before the next poll, in nanoseconds.
    pub fn interval(&self) -> (res: u128)
        ensures
            res == self@.interval,
    {
        self.interval
    }

    /// Feed a poll result observed at `now` (nanoseconds since start);
    /// returns the display to render, or `None` when there is nothing to
    /// show yet (trouble before any good poll). `grown` is the current
    /// interval scaled by the policy's backoff multiplier; it is only used
    /// when the result is trouble.
    pub fn record(&mut self, result: PollResult<F>, now: u128, grown: u128) -> (res: Option<Display<F>>)
        ensures
            (final(self)@, res) == record_step(old(self)@, result, now, grown),
    {
        match result {
            PollResult::Good(display) => {
                self.interval = self.policy.base_interval;
                self.fault_since = None;
                self.last_good = Some(display);
                Some(display)
            },
            _ => {
                self.interval = if grown <= self.policy.max_interval {
                    grown
                } else {
                    self.policy.max_interval
                };
                let fault_start = match self.fault_since {
                    Some(t) => t,
                    None => now,
                };
                self.fault_since = Some(fault_start);
                match self.last_good {
                    None => None,
                    Some(good) => {
                        let fault_age = if now >= fault_start { now - fault_start } else { 0 };
                        if fault_age >= self.policy.fault_dim_after {
                            Some(Display { color: good.color, brightness: self.policy.fault_brightness })
                        } else {
                            Some(good)
                        }
                    },
                }
            },
        }
    }
}

/// The state after `n` troubled polls in a row from `s`, each one growing
/// the interval by the whole factor `m` (the times do not affect the
/// interval).
pub open spec fn after_troubles<F>(s: ControllerState<F>, n: nat, m: nat) -> ControllerState<F>
    decreases n,
{
    if n == 0 {
        s
    } else {
        let t = after_troubles(s, (n - 1) as nat, m);
        record_step(t, PollResult::Timeout, 0, (t.interval * m) as u128).0
    }
}

/// Consecutive troubled polls grow the interval geometrically from the base
/// and cap it: after `n` of them it is `min(base * m^n, max)`.
pub proof fn lemma_backoff_is_geometric_and_capped<F>(s: ControllerState<F>, n: nat, m: nat)
    requires
        m >= 1,
        s.interval == s.policy.base_interval,
        s.policy.base_interval <= s.policy.max_interval,
        s.policy.max_interval * m <= u128::MAX,
    ensures
        after_troubles(s, n, m).interval as int == if s.policy.base_interval * power(m, n)
            <= s.policy.max_interval {
            s.policy.base_interval * power(m, n)
        } else {
            s.policy.max_interval as int
        },
        after_troubles(s, n, m).policy == s.policy,
    decreases n,
{
    let base = s.policy.base_interval as int;
    let max = s.policy.max_interval as int;
    if n > 0 {
        lemma_backoff_is_geometric_and_capped(s, (n - 1) as nat, m);
        let t = after_troubles(s, (n - 1) as nat, m);
        let prev = base * power(m, (n - 1) as nat);
        assert(power(m, n) == m * power(m, (n - 1) as nat));
        assert(base * power(m, n) == prev * m) by (nonlinear_arith)
            requires
                power(m, n) == m * power(m, (n - 1) as nat),
                prev == base * power(m, (n - 1) as nat),
        ;
        assert(prev * m >= prev) by (nonlinear_arith)
            requires
                m >= 1,
                prev >= 0,
                prev == base * power(m, (n - 1) as nat),
                base >= 0,
                power(m, (n - 1) as nat) >= 0,
        ;
        assert(t.interval * m <= max * m) by (nonlinear_arith)
            requires
                t.interval <= max,
                m >= 1,
        ;
        assert(max * m >= max) by (nonlinear_arith)
            requires
                m >= 1,
                max >= 0,
        ;
        let grown = (t.interval * m) as u128;
        assert(grown as int == t.interval * m);
        assert(after_troubles(s, n, m).interval == min_u128(grown, s.policy.max_interval));
        let goal = base * power(m, n);
        assert(goal == prev * m);
        if prev <= max {
            assert(t.interval as int == prev);
            assert(grown as int == goal);
        } else {
            assert(t.interval as int == max);
            assert(goal > max);
            assert(grown as int >= max);
        }
        assert(after_troubles(s, n, m).interval as int == if goal <= max { goal } else { max });
    } else {
        assert(n == 0);
        assert(power(m, n) == 1);
        assert(base * power(m, n) == base) by (nonlinear_arith)
            requires
                power(m, n) == 1,
        ;
    }
}

/// `b` to the power `e`.
pub open spec fn power(b: nat, e: nat) -> nat
    decreases e,
{
    if e == 0 {
        1
    } else {
        b * power(b, (e - 1) as nat)
    }
}

/// One call of `record`: the result, the time and the grown interval.
pub struct PollStep<F> {
    pub result: PollResult<F>,
    pub now: u128,
    pub grown: u128,
}

/// The state after a sequence of calls of `record` from `s`, and what the
/// last call returned (`None` for no call).
pub open spec fn run_steps<F>(s: ControllerState<F>, steps: Seq<PollStep<F>>) -> (ControllerState<F>, Option<Display<F>>)
    decreases steps.len(),
{
    if steps.len() == 0 {
        (s, None)
    } else {
        let (t, _) = run_steps(s, steps.drop_last());
        let last = steps.last();
        record_step(t, last.result, last.now, last.grown)
    }
}

/// The display of the latest good result in a sequence of calls.
pub open spec fn latest_good<F>(steps: Seq<PollStep<F>>) -> Option<Display<F>>
    decreases steps.len(),
{
    if steps.len() == 0 {
        None
    } else {
        match steps.last().result {
            PollResult::Good(d) => Some(d),
            _ => latest_good(steps.drop_last()),
        }
    }
}

/// When the current fault began: the time of the first troubled call after
/// the latest good one; `None` when the last call was good (or there was
/// none).
pub open spec fn current_fault_start<F>(steps: Seq<PollStep<F>>) -> Option<u128>
    decreases steps.len(),
{
    if steps.len() == 0 {
        None
    } else {
        match steps.last().result {
            PollResult::Good(_) => None,
            _ => match current_fault_start(steps.drop_last()) {
                Some(t) => Some(t),
                None => Some(steps.last().now),
            },
        }
    }
}

proof fn lemma_run_steps_state<F>(p: PollPolicy<F>, steps: Seq<PollStep<F>>)
    ensures
        run_steps(initial_state(p), steps).0.policy == p,
        run_steps(initial_state(p), steps).0.last_good == latest_good(steps),
        run_steps(initial_state(p), steps).0.fault_since == current_fault_start(steps),
    decreases steps.len(),
{
    if steps.len() > 0 {
        lemma_run_steps_state(p, steps.drop_last());
    }
}

/// Hold last good, then dim, over any sequence of calls from a fresh
/// controller: when the last call is trouble, nothing is shown if no good
/// result was ever recorded; otherwise the colour of the latest good
/// display is shown, at its own brightness while the fault (timed from the
/// first troubled call after that good one) is younger than the dimming
/// threshold, and at the fault brightness from then on.
pub proof fn lemma_hold_last_good_over_calls<F>(p: PollPolicy<F>, steps: Seq<PollStep<F>>)
    requires
        steps.len() > 0,
        is_trouble(steps.last().result),
    ensures
        ({
            let out = run_steps(initial_state(p), steps).1;
            let start = current_fault_start(steps)->0;
            let now = steps.last().now;
            &&& current_fault_start(steps) is Some
            &&& match latest_good(steps) {
                None => out is None,
                Some(g) => if saturating_sub_u128(now, start) >= p.fault_dim_after {
                    out == Some(Display { color: g.color, brightness: p.fault_brightness })
                } else {
                    out == Some(g)
                },
            }
        }),
{
    lemma_run_steps_state(p, steps.drop_last());
    lemma_run_steps_state(p, steps);
}

/// The held colour never changes during a fault: extending a sequence of
/// calls by troubled calls only leaves its latest good display, and so the
/// shown colour, as it was.
pub proof fn lemma_fault_keeps_latest_good<F>(steps: Seq<PollStep<F>>, more: Seq<PollStep<F>>)
    requires
        forall|i: int| 0 <= i < more.len() ==> is_trouble(#[trigger] more[i].result),
    ensures
        latest_good(steps + more) == latest_good(steps),
    decreases more.len(),
{
    if more.len() > 0 {
        assert((steps + more).drop_last() =~= steps + more.drop_last());
        assert((steps + more).last() == more.last());
        assert(is_trouble(more[more.len() - 1].result));
        lemma_fault_keeps_latest_good(steps, more.drop_last());
    } else {
        assert(steps + more =~= steps);
    }
}

/// How the wait for an off-thread read ended.
#[derive(Debug, Clone, Copy, PartialEq, Eq, Structural)]
pub enum WaitEnd {
    /// The read finished within the timeout; `read_ok` tells whether it
    /// returned readings (rather than an error, or a failed task).
    Completed { read_ok: bool },
    /// The timeout elapsed first; the read is still running.
    TimedOut,
}

/// Raw outcome of one poll attempt, before sentinel classification.
#[derive(Debug, Clone, Copy, PartialEq, Eq, Structural)]
pub enum PollOutcomeKind {
    Good,
    Error,
    Timeout,
}

/// The single read slot of the off-thread poller. A read stuck in the
/// kernel cannot be cancelled, so a new read is started only when none is
/// in flight; a read that timed out is waited for again by the next poll.
pub struct ReadSlot {
    in_flight: bool,
}

/// The outcome that a wait's end stands for.
pub open spec fn spec_outcome(end: WaitEnd) -> PollOutcomeKind {
    match end {
        WaitEnd::Completed { read_ok } => if read_ok {
            PollOutcomeKind::Good
        } else {
            PollOutcomeKind::Error
        },
        WaitEnd::TimedOut => PollOutcomeKind::Timeout,
    }
}

/// Reads started, reads finished and whether one is in flight after a
/// sequence of polls from a slot whose in-flight flag was `in_flight`; each
/// poll starts a read if none is in flight and then ends its wait as given.
pub open spec fn run_polls(in_flight: bool, ends: Seq<WaitEnd>) -> (nat, nat, bool)
    decreases ends.len(),
{
    if ends.len() == 0 {
        (0, 0, in_flight)
    } else {
        let (started, finished, flight) = run_polls(in_flight, ends.drop_last());
        let started2 = if flight { started } else { started + 1 };
        match ends.last() {
            WaitEnd::Completed { .. } => (started2, finished + 1, false),
            WaitEnd::TimedOut => (started2, finished, true),
        }
    }
}

/// At most one read is ever outstanding: starting from an idle slot,
/// after any sequence of polls every started read has finished, except one
/// exactly when a read is still in flight.
pub proof fn lemma_single_outstanding_read(ends: Seq<WaitEnd>)
    ensures
        ({
            let (started, finished, flight) = run_polls(false, ends);
            started == finished + (if flight { 1nat } else { 0nat })
        }),
    decreases ends.len(),
{
    if ends.len() > 0 {
        lemma_single_outstanding_read(ends.drop_last());
    }
}

/// `n` waits that all time out.
pub open spec fn timeouts(n: nat) -> Seq<WaitEnd> {
    Seq::new(n, |_i: int| WaitEnd::TimedOut)
}

/// Polls that keep timing out start one read in all: the first.
pub proof fn lemma_timeouts_do_not_pile_up(n: nat)
    requires
        n > 0,
    ensures
        run_polls(false, timeouts(n)) == (1nat, 0nat, true),
    decreases n,
{
    let ends = timeouts(n);
    assert(ends.last() == WaitEnd::TimedOut);
    if n > 1 {
        lemma_timeouts_do_not_pile_up((n - 1) as nat);
        assert(ends.drop_last() =~= timeouts((n - 1) as nat));
    } else {
        assert(ends.drop_last() =~= Seq::<WaitEnd>::empty());
        assert(run_polls(false, ends.drop_last()) == (0nat, 0nat, false));
    }
}

impl ReadSlot {
    pub closed spec fn spec_in_flight(&self) -> bool {
        self.in_flight
    }

    /// An idle slot.
    pub fn new() -> (res: Self)
        ensures
            !res.spec_in_flight(),
    {
        Self { in_flight: false }
    }

    /// Begins a poll: returns whether a new read must be started (only when
    /// none is in flight); afterwards a read is in flight.
    pub fn begin_poll(&mut self) -> (start_read: bool)
        ensures
            start_read == !old(self).spec_in_flight(),
            final(self).spec_in_flight(),
    {
        let start_read = !self.in_flight;
        self.in_flight = true;
        start_read
    }

    /// Ends a poll's wait: a completed read frees the slot, a timed-out one
    /// stays in flight. Returns the raw outcome.
    pub fn end_wait(&mut self, end: WaitEnd) -> (res: PollOutcomeKind)
        ensures
            res == spec_outcome(end),
            final(self).spec_in_flight() == (end == WaitEnd::TimedOut),
    {
        match end {
            WaitEnd::Completed { read_ok } => {
                self.in_flight = false;
                if read_ok {
                    PollOutcomeKind::Good
                } else {
                    PollOutcomeKind::Error
                }
            },
            WaitEnd::TimedOut => {
                self.in_flight = true;
                PollOutcomeKind::Timeout
            },
        }
    }

    pub fn in_flight(&self) -> (res: bool)
        ensures
            res == self.spec_in_flight(),
    {
        self.in_flight
    }
}

/// The shortest sleep between loop iterations: 10 ms.
pub const MIN_SLEEP_NS: u128 = 10_000_000;

/// How long the main loop sleeps: the interval less the time this iteration
/// already took, but never under 10 ms.
pub fn sleep_after(interval: u128, elapsed: u128) -> (res: u128)
    ensures
        res == if saturating_sub_u128(interval, elapsed) >= MIN_SLEEP_NS {
            saturating_sub_u128(interval, elapsed)
        } else {
            MIN_SLEEP_NS
        },
        res >= 10_000_000,
        interval >= elapsed + 10_000_000 ==> res == interval - elapsed,
        interval < elapsed + 10_000_000 ==> res == 10_000_000,
{
    let left = if interval >= elapsed { interval - elapsed } else { 0 };
    if left >= MIN_SLEEP_NS {
        left
    } else {
        MIN_SLEEP_NS
    }
}

/// The distance between two channel values.
pub open spec fn channel_distance(a: u8, b: u8) -> int {
    if a >= b { a - b } else { b - a }
}

/// The distance between two channel values is symmetric and is the amount
/// by which the larger exceeds the smaller.
pub proof fn lemma_channel_distance(a: u8, b: u8)
    ensures
        channel_distance(a, b) == channel_distance(b, a),
        channel_distance(a, b) >= 0,
        a >= b ==> b + channel_distance(a, b) == a,
        a < b ==> a + channel_distance(a, b) == b,
{
}

/// Whether some channel moved by more than 5 between two colours (a smaller
/// change is not worth an LED update).
pub fn channels_moved(last: RgbColor, next: RgbColor) -> (res: bool)
    ensures
        res == (channel_distance(next.r, last.r) > 5 || channel_distance(next.g, last.g) > 5
            || channel_distance(next.b, last.b) > 5),
{
    let dr = if next.r >= last.r { next.r - last.r } else { last.r - next.r };
    let dg = if next.g >= last.g { next.g - last.g } else { last.g - next.g };
    let db = if next.b >= last.b { next.b - last.b } else { last.b - next.b };
    dr > 5 || dg > 5 || db > 5
}

/// The least time between two LED updates: 5 seconds.
pub const MIN_LED_UPDATE_NS: u128 = 5_000_000_000;

/// Whether to push a display to the LEDs: only when it changed noticeably
/// and the last update is at least 5 seconds old.
pub fn should_update_leds(changed: bool, since_last_update: u128) -> (res: bool)
    ensures
        res == (changed && since_last_update >= MIN_LED_UPDATE_NS),
        res == (changed && since_last_update >= 5_000_000_000),
{
    changed && since_last_update >= MIN_LED_UPDATE_NS
}

/// A change in telemetry health worth one log line.
#[derive(Debug, Clone, Copy, PartialEq, Eq, Structural)]
pub enum HealthNotice {
    /// Polls started to be slow, erroneous or implausible.
    Degraded,
    /// A good poll came after trouble.
    Recovered,
}

/// Tracks whether telemetry is faulted: given the current flag and whether
/// this poll was trouble, returns the new flag and the notice to log, if the
/// health changed.
pub fn health_transition(faulted: bool, trouble: bool) -> (res: (bool, Option<HealthNotice>))
    ensures
        res.0 == trouble,
        res.1 == if trouble && !faulted {
            Some(HealthNotice::Degraded)
        } else if !trouble && faulted {
            Some(HealthNotice::Recovered)
        } else {
            None
        },
{
    if trouble && !faulted {
        (true, Some(HealthNotice::Degraded))
    } else if !trouble && faulted {
        (false, Some(HealthNotice::Recovered))
    } else {
        (trouble, None)
    }
}

} // verus!
