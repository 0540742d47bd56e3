//! Adaptive circuit breaker for plugin hosts.
//!
//! Tracks round-trip time (RTT) across a sliding sample window and counts consecutive failures.
//!
//! - **Closed**: normal operation. Every call records its RTT or failure. When consecutive
//!   failures reach `failure_threshold`, or the sliding-window average RTT reaches
//!   `latency_threshold` (with at least `min_samples_for_latency` samples), the breaker opens.
//! - **Open**: calls are fast-skipped. Once `cooldown_period` has elapsed since the breaker
//!   opened, the next inquiry moves it to `HalfOpen`.
//! - **HalfOpen**: trial probes are admitted. `half_open_success_threshold` consecutive successful
//!   probes close the circuit; any failed probe opens it again.
//!
//! Time is measured in microseconds since the breaker was created. Every transition exists in two
//! forms: one taking the current time as an argument (`*_at`), with an exact contract, and one
//! reading the monotonic clock, whose contract holds for whatever time the clock reports.
use vstd::prelude::*;

use crate::clock::{instant_now, micros_since};
use crate::text::push_str;

verus! {

/// Lifecycle states of the circuit breaker.
#[derive(Debug, Clone, Copy, PartialEq, Eq, Structural)]
pub enum CircuitState {
    /// Normal operation: requests pass through, latency and errors are tracked.
    Closed,
    /// Circuit tripped: requests are fast-skipped without invoking the host.
    Open,
    /// Cooldown expired: trial requests are permitted to probe host recovery.
    HalfOpen,
}

/// Operational parameters of a circuit breaker. Durations are in microseconds.
#[derive(Debug, Clone, Copy, PartialEq, Eq, Structural)]
pub struct CircuitBreakerConfig {
    /// Number of consecutive errors or timeouts required to trip the breaker.
    pub failure_threshold: usize,
    /// Sliding-window average RTT (microseconds) at which the breaker trips.
    pub latency_threshold: u64,
    /// Capacity of the sliding sample window.
    pub window_size: usize,
    /// Minimum samples in the window before the average RTT can trip the circuit.
    pub min_samples_for_latency: usize,
    /// Time (microseconds) the circuit stays `Open` before a probe is admitted.
    pub cooldown_period: u64,
    /// Consecutive successful probes in `HalfOpen` required to close the circuit.
    pub half_open_success_threshold: usize,
}

impl Default for CircuitBreakerConfig {
    /// Production defaults: 5 failures, 50 ms average RTT over 20 samples (at least 5),
    /// 5 s cooldown, 2 successful probes.
    fn default() -> (c: Self)
        ensures
            c.failure_threshold == 5,
            c.latency_threshold == 50_000,
            c.window_size == 20,
            c.min_samples_for_latency == 5,
            c.cooldown_period == 5_000_000,
            c.half_open_success_threshold == 2,
    {
        CircuitBreakerConfig {
            failure_threshold: 5,
            latency_threshold: 50_000,
            window_size: 20,
            min_samples_for_latency: 5,
            cooldown_period: 5_000_000,
            half_open_success_threshold: 2,
        }
    }
}

/// Why a breaker last failed or opened.
#[derive(Debug, PartialEq, Eq)]
pub enum FailureReason {
    /// A failed call or a manual trip, with the explanation its caller gave.
    Reported(String),
    /// The sliding-window mean RTT reached the latency threshold; both in microseconds.
    SlowAverage { avg_micros: u64, threshold_micros: u64 },
}

/// Abstract value of a [`FailureReason`].
pub enum ReasonView {
    /// An explanation given by the caller.
    Reported(Seq<char>),
    /// Window mean and latency threshold, in microseconds.
    SlowAverage(nat, nat),
}

impl View for FailureReason {
    type V = ReasonView;

    open spec fn view(&self) -> ReasonView {
        match self {
            FailureReason::Reported(t) => ReasonView::Reported(t@),
            FailureReason::SlowAverage { avg_micros, threshold_micros } => ReasonView::SlowAverage(
                *avg_micros as nat,
                *threshold_micros as nat,
            ),
        }
    }
}

impl FailureReason {
    /// A copy of this reason.
    pub fn duplicate(&self) -> (r: Self)
        ensures
            r@ == self@,
    {
        match self {
            FailureReason::Reported(t) => FailureReason::Reported(t.clone()),
            FailureReason::SlowAverage { avg_micros, threshold_micros } => FailureReason::SlowAverage {
                avg_micros: *avg_micros,
                threshold_micros: *threshold_micros,
            },
        }
    }
}

/// Abstract state of a circuit breaker.
pub struct BreakerModel {
    pub config: CircuitBreakerConfig,
    pub state: CircuitState,
    pub consecutive_failures: usize,
    pub consecutive_successes: usize,
    /// RTT samples in microseconds, oldest first.
    pub window: Seq<u64>,
    /// Time of the last state change.
    pub last_state_change: u64,
    /// Time the breaker last opened.
    pub tripped_at: Option<u64>,
    pub last_failure_reason: Option<ReasonView>,
}

/// `x + 1`, saturating at `usize::MAX`.
pub open spec fn sat_inc(x: usize) -> usize {
    if x == usize::MAX {
        x
    } else {
        (x + 1) as usize
    }
}

/// `now - then`, or 0 when `now` is earlier.
pub open spec fn elapsed_since(now: u64, then: u64) -> nat {
    if now >= then {
        (now - then) as nat
    } else {
        0
    }
}

/// Sum of a sequence of samples.
pub open spec fn sample_sum(s: Seq<u64>) -> nat
    decreases s.len(),
{
    if s.len() == 0 {
        0
    } else {
        sample_sum(s.drop_last()) + s.last() as nat
    }
}

/// Integer (truncated) mean of a non-empty sequence of samples.
pub open spec fn sample_mean(s: Seq<u64>) -> nat {
    sample_sum(s) / s.len()
}

/// The sliding window after recording `rtt`: the oldest sample is evicted first when the window
/// already holds `size` samples.
pub open spec fn window_after(w: Seq<u64>, size: nat, rtt: u64) -> Seq<u64> {
    if w.len() >= size && w.len() > 0 {
        w.drop_first().push(rtt)
    } else {
        w.push(rtt)
    }
}

/// Whether an `Open` breaker has served its cooldown at `now`.
pub open spec fn cooled_down(m: BreakerModel, now: u64) -> bool {
    m.state == CircuitState::Open && elapsed_since(now, m.last_state_change)
        >= m.config.cooldown_period
}

/// The breaker after its cooldown expired at `now`.
pub open spec fn enter_half_open(m: BreakerModel, now: u64) -> BreakerModel {
    BreakerModel {
        state: CircuitState::HalfOpen,
        last_state_change: now,
        consecutive_successes: 0,
        ..m
    }
}

/// Effect of asking, at `now`, whether a request may be sent: the new state and the answer.
pub open spec fn allow_step(m: BreakerModel, now: u64) -> (BreakerModel, bool) {
    match m.state {
        CircuitState::Closed => (m, true),
        CircuitState::HalfOpen => (m, true),
        CircuitState::Open => if cooled_down(m, now) {
            (enter_half_open(m, now), true)
        } else {
            (m, false)
        },
    }
}

/// Effect of observing the state at `now` (an expired cooldown is applied lazily).
pub open spec fn observe_step(m: BreakerModel, now: u64) -> BreakerModel {
    if cooled_down(m, now) {
        enter_half_open(m, now)
    } else {
        m
    }
}

/// Whether a window trips a closed breaker on latency.
pub open spec fn latency_exceeded(cfg: CircuitBreakerConfig, w: Seq<u64>) -> bool {
    w.len() >= cfg.min_samples_for_latency && w.len() > 0 && sample_mean(w)
        >= cfg.latency_threshold
}

/// Effect of a successful call with round-trip time `rtt` completing at `now`.
pub open spec fn success_step(m: BreakerModel, rtt: u64, now: u64) -> BreakerModel {
    let w = window_after(m.window, m.config.window_size as nat, rtt);
    match m.state {
        CircuitState::Closed => if latency_exceeded(m.config, w) {
            BreakerModel {
                window: w,
                consecutive_failures: 0,
                state: CircuitState::Open,
                last_state_change: now,
                tripped_at: Some(now),
                last_failure_reason: Some(
                    ReasonView::SlowAverage(sample_mean(w), m.config.latency_threshold as nat),
                ),
                ..m
            }
        } else {
            BreakerModel { window: w, consecutive_failures: 0, ..m }
        },
        CircuitState::HalfOpen => {
            let s = sat_inc(m.consecutive_successes);
            if s >= m.config.half_open_success_threshold {
                BreakerModel {
                    window: w,
                    state: CircuitState::Closed,
                    last_state_change: now,
                    consecutive_failures: 0,
                    consecutive_successes: 0,
                    last_failure_reason: None,
                    ..m
                }
            } else {
                BreakerModel { window: w, consecutive_successes: s, ..m }
            }
        },
        CircuitState::Open => enter_half_open(BreakerModel { window: w, ..m }, now),
    }
}

/// Effect of a failed call, explained by `reason`, at `now`.
pub open spec fn failure_step(m: BreakerModel, reason: Seq<char>, now: u64) -> BreakerModel {
    let f = sat_inc(m.consecutive_failures);
    let base = BreakerModel { consecutive_failures: f, last_failure_reason: Some(ReasonView::Reported(reason)), ..m };
    match m.state {
        CircuitState::Closed => if f >= m.config.failure_threshold {
            BreakerModel {
                state: CircuitState::Open,
                last_state_change: now,
                tripped_at: Some(now),
                ..base
            }
        } else {
            base
        },
        CircuitState::HalfOpen => BreakerModel {
            state: CircuitState::Open,
            last_state_change: now,
            tripped_at: Some(now),
            consecutive_successes: 0,
            ..base
        },
        CircuitState::Open => BreakerModel { last_state_change: now, ..base },
    }
}

/// Effect of manually tripping the breaker at `now`.
pub open spec fn trip_step(m: BreakerModel, reason: Seq<char>, now: u64) -> BreakerModel {
    BreakerModel {
        state: CircuitState::Open,
        last_state_change: now,
        tripped_at: Some(now),
        last_failure_reason: Some(ReasonView::Reported(reason)),
        ..m
    }
}

/// Effect of manually resetting the breaker at `now`.
pub open spec fn reset_step(m: BreakerModel, now: u64) -> BreakerModel {
    BreakerModel {
        state: CircuitState::Closed,
        consecutive_failures: 0,
        consecutive_successes: 0,
        window: Seq::empty(),
        last_state_change: now,
        tripped_at: None,
        last_failure_reason: None,
        ..m
    }
}

/// A freshly created breaker at time `now`.
pub open spec fn initial_model(config: CircuitBreakerConfig, now: u64) -> BreakerModel {
    BreakerModel {
        config,
        state: CircuitState::Closed,
        consecutive_failures: 0,
        consecutive_successes: 0,
        window: Seq::empty(),
        last_state_change: now,
        tripped_at: None,
        last_failure_reason: None,
    }
}


/// `n` consecutive failures, each explained by `reason`, recorded at `now`.
pub open spec fn repeat_failures(m: BreakerModel, n: nat, reason: Seq<char>, now: u64) -> BreakerModel
    decreases n,
{
    if n == 0 {
        m
    } else {
        failure_step(repeat_failures(m, (n - 1) as nat, reason, now), reason, now)
    }
}

/// `n` consecutive successful calls, each with round-trip time `rtt`, completing at `now`.
pub open spec fn repeat_successes(m: BreakerModel, n: nat, rtt: u64, now: u64) -> BreakerModel
    decreases n,
{
    if n == 0 {
        m
    } else {
        success_step(repeat_successes(m, (n - 1) as nat, rtt, now), rtt, now)
    }
}

/// Law: a closed breaker with no recorded failure opens exactly when `failure_threshold`
/// consecutive failures have been recorded; before that it stays closed and counts them.
pub proof fn law_consecutive_failures_open(m: BreakerModel, n: nat, reason: Seq<char>, now: u64)
    requires
        m.state == CircuitState::Closed,
        m.consecutive_failures == 0,
        m.config.failure_threshold >= 1,
    ensures
        repeat_failures(m, n, reason, now).state == CircuitState::Open <==> n
            >= m.config.failure_threshold,
        n < m.config.failure_threshold ==> repeat_failures(m, n, reason, now).consecutive_failures
            == n,
        n >= m.config.failure_threshold ==> repeat_failures(m, n, reason, now).last_failure_reason
            == Some(ReasonView::Reported(reason)),
        repeat_failures(m, n, reason, now).config == m.config,
    decreases n,
{
    if n > 0 {
        law_consecutive_failures_open(m, (n - 1) as nat, reason, now);
        let prev = repeat_failures(m, (n - 1) as nat, reason, now);
        assert(repeat_failures(m, n, reason, now) == failure_step(prev, reason, now));
        if n - 1 < m.config.failure_threshold {
            assert(prev.state == CircuitState::Closed);
            assert(prev.consecutive_failures == n - 1);
            assert(sat_inc(prev.consecutive_failures) == n);
        }
    }
}

/// Law: failures count only while they are consecutive: in the `Closed` state a successful call
/// leaves no failure counted, whether or not its latency opens the circuit.
pub proof fn law_success_clears_failures(m: BreakerModel, rtt: u64, now: u64)
    requires
        m.state == CircuitState::Closed,
    ensures
        success_step(m, rtt, now).consecutive_failures == 0,
{
}

/// Law: on a fresh breaker that needs at least two failures to open, a failure, a success and
/// another failure leave it closed with one failure counted; the success interrupted the run.
/// (The success is one that cannot open the circuit on latency by itself.)
pub proof fn law_interrupted_failures_do_not_trip(
    config: CircuitBreakerConfig,
    start: u64,
    first: Seq<char>,
    rtt: u64,
    second: Seq<char>,
    t1: u64,
    t2: u64,
    t3: u64,
)
    requires
        config.failure_threshold >= 2,
        config.min_samples_for_latency >= 2 || rtt < config.latency_threshold,
    ensures
        ({
            let m = failure_step(
                success_step(failure_step(initial_model(config, start), first, t1), rtt, t2),
                second,
                t3,
            );
            &&& m.state == CircuitState::Closed
            &&& m.consecutive_failures == 1
            &&& m.last_failure_reason == Some(ReasonView::Reported(second))
        }),
{
    let m0 = initial_model(config, start);
    let m1 = failure_step(m0, first, t1);
    assert(m1.state == CircuitState::Closed && m1.consecutive_failures == 1);
    assert(m1.window.len() == 0);
    let w = window_after(m1.window, config.window_size as nat, rtt);
    assert(w =~= seq![rtt]);
    assert(sample_sum(w) == rtt) by {
        assert(w.drop_last() =~= Seq::<u64>::empty());
        assert(sample_sum(w.drop_last()) == 0);
        assert(w.last() == rtt);
    }
    assert(w.len() == 1);
    assert(sample_sum(w) / 1 == sample_sum(w)) by (nonlinear_arith);
    assert(sample_mean(w) == rtt);
    assert(!latency_exceeded(config, w));
    let m2 = success_step(m1, rtt, t2);
    assert(m2.state == CircuitState::Closed && m2.consecutive_failures == 0);
}

/// Law: a failed probe in `HalfOpen` always opens the circuit again, restarting the cooldown.
pub proof fn law_failed_probe_reopens(m: BreakerModel, reason: Seq<char>, now: u64)
    requires
        m.state == CircuitState::HalfOpen,
    ensures
        failure_step(m, reason, now).state == CircuitState::Open,
        failure_step(m, reason, now).last_state_change == now,
        failure_step(m, reason, now).tripped_at == Some(now),
        failure_step(m, reason, now).consecutive_successes == 0,
{
}

/// Law: an open breaker refuses every request until its cooldown has elapsed, and a refusal
/// changes nothing; the first request after the cooldown is admitted as a `HalfOpen` probe.
pub proof fn law_open_refuses_until_cooldown(m: BreakerModel, now: u64)
    requires
        m.state == CircuitState::Open,
    ensures
        allow_step(m, now).1 <==> elapsed_since(now, m.last_state_change)
            >= m.config.cooldown_period,
        !allow_step(m, now).1 ==> allow_step(m, now).0 == m,
        allow_step(m, now).1 ==> allow_step(m, now).0.state == CircuitState::HalfOpen
            && allow_step(m, now).0.consecutive_successes == 0,
{
}

/// Law: from `HalfOpen` with no counted probe, `half_open_success_threshold` consecutive
/// successful probes close the circuit, and fewer keep it half-open.
pub proof fn law_successful_probes_close(m: BreakerModel, n: nat, rtt: u64, now: u64)
    requires
        m.state == CircuitState::HalfOpen,
        m.consecutive_successes == 0,
        m.config.half_open_success_threshold >= 1,
        n <= m.config.half_open_success_threshold,
    ensures
        n < m.config.half_open_success_threshold ==> repeat_successes(m, n, rtt, now).state
            == CircuitState::HalfOpen && repeat_successes(m, n, rtt, now).consecutive_successes
            == n,
        n == m.config.half_open_success_threshold ==> repeat_successes(m, n, rtt, now).state
            == CircuitState::Closed && repeat_successes(m, n, rtt, now).consecutive_failures == 0
            && repeat_successes(m, n, rtt, now).last_failure_reason is None,
        repeat_successes(m, n, rtt, now).config == m.config,
    decreases n,
{
    if n > 0 {
        law_successful_probes_close(m, (n - 1) as nat, rtt, now);
        let prev = repeat_successes(m, (n - 1) as nat, rtt, now);
        assert(repeat_successes(m, n, rtt, now) == success_step(prev, rtt, now));
        assert(prev.state == CircuitState::HalfOpen);
        assert(prev.consecutive_successes == n - 1);
        assert(sat_inc(prev.consecutive_successes) == n);
    }
}

/// Law: the sliding window never holds more than `window_size` samples (or one sample when
/// the window size is zero): every transition keeps the bound.
pub proof fn law_window_bounded(m: BreakerModel, rtt: u64, reason: Seq<char>, now: u64)
    requires
        m.window.len() <= if m.config.window_size == 0 {
            1
        } else {
            m.config.window_size as int
        },
    ensures
        ({
            let bound = if m.config.window_size == 0 {
                1
            } else {
                m.config.window_size as int
            };
            &&& success_step(m, rtt, now).window.len() <= bound
            &&& failure_step(m, reason, now).window.len() <= bound
            &&& allow_step(m, now).0.window.len() <= bound
            &&& observe_step(m, now).window.len() <= bound
            &&& trip_step(m, reason, now).window.len() <= bound
            &&& reset_step(m, now).window.len() == 0
        }),
{
}

/// Law: resetting yields a closed breaker with cleared counters and samples, whatever its
/// previous state, and the configuration is never changed by any transition.
pub proof fn law_reset_and_config(m: BreakerModel, rtt: u64, reason: Seq<char>, now: u64)
    ensures
        reset_step(m, now).state == CircuitState::Closed,
        reset_step(m, now).consecutive_failures == 0,
        reset_step(m, now).consecutive_successes == 0,
        reset_step(m, now).last_failure_reason is None,
        allow_step(reset_step(m, now), now).1,
        success_step(m, rtt, now).config == m.config,
        failure_step(m, reason, now).config == m.config,
        allow_step(m, now).0.config == m.config,
        observe_step(m, now).config == m.config,
        trip_step(m, reason, now).config == m.config,
        reset_step(m, now).config == m.config,
{
}

/// Law: while open, a failure counts, records its reason and restarts the cooldown at `now`,
/// and a call that completes moves the breaker to `HalfOpen` with no probe counted yet.
pub proof fn law_open_breaker_events(m: BreakerModel, rtt: u64, reason: Seq<char>, now: u64)
    requires
        m.state == CircuitState::Open,
    ensures
        failure_step(m, reason, now).state == CircuitState::Open,
        failure_step(m, reason, now).last_state_change == now,
        failure_step(m, reason, now).consecutive_failures == sat_inc(m.consecutive_failures),
        failure_step(m, reason, now).last_failure_reason == Some(ReasonView::Reported(reason)),
        success_step(m, rtt, now).state == CircuitState::HalfOpen,
        success_step(m, rtt, now).last_state_change == now,
        success_step(m, rtt, now).consecutive_successes == 0,
        success_step(m, rtt, now).window == window_after(m.window, m.config.window_size as nat, rtt),
{
}

/// One operation on a breaker, with the time at which it happens.
pub enum BreakerEvent {
    /// A call completed after `rtt` microseconds.
    Success { rtt: u64, now: u64 },
    /// A call failed, explained by `reason`.
    Failure { reason: Seq<char>, now: u64 },
    /// The breaker was tripped by hand.
    Trip { reason: Seq<char>, now: u64 },
    /// A request asked for admission.
    Admit { now: u64 },
    /// The state was queried.
    Observe { now: u64 },
}

/// The breaker after one operation.
pub open spec fn event_step(m: BreakerModel, e: BreakerEvent) -> BreakerModel {
    match e {
        BreakerEvent::Success { rtt, now } => success_step(m, rtt, now),
        BreakerEvent::Failure { reason, now } => failure_step(m, reason, now),
        BreakerEvent::Trip { reason, now } => trip_step(m, reason, now),
        BreakerEvent::Admit { now } => allow_step(m, now).0,
        BreakerEvent::Observe { now } => observe_step(m, now),
    }
}

/// The breaker after a sequence of operations, in order.
pub open spec fn apply_events(m: BreakerModel, es: Seq<BreakerEvent>) -> BreakerModel
    decreases es.len(),
{
    if es.len() == 0 {
        m
    } else {
        event_step(apply_events(m, es.drop_last()), es.last())
    }
}

/// Round-trip times of the successful calls among `es`, in order.
pub open spec fn success_rtts(es: Seq<BreakerEvent>) -> Seq<u64>
    decreases es.len(),
{
    if es.len() == 0 {
        Seq::empty()
    } else {
        let r = success_rtts(es.drop_last());
        match es.last() {
            BreakerEvent::Success { rtt, .. } => r.push(rtt),
            _ => r,
        }
    }
}

/// The last `min(s.len(), size)` samples of `s`.
pub open spec fn last_samples(s: Seq<u64>, size: nat) -> Seq<u64> {
    if s.len() <= size {
        s
    } else {
        s.skip(s.len() - size)
    }
}

/// Law: starting from an empty window (a new or reset breaker) with a window size of at least
/// one, whatever operations follow, the window holds exactly the round-trip times of the last
/// `window_size` successful calls, in order, so that `average_rtt` is the truncated mean of
/// those samples (or `None` before any success); failures, trips, admissions and state queries
/// leave it alone, and the configuration never changes.
pub proof fn law_window_is_last_samples(m: BreakerModel, es: Seq<BreakerEvent>)
    requires
        m.window.len() == 0,
        m.config.window_size >= 1,
    ensures
        apply_events(m, es).window == last_samples(success_rtts(es), m.config.window_size as nat),
        apply_events(m, es).config == m.config,
        apply_events(m, es).window.len() == 0 <==> success_rtts(es).len() == 0,
    decreases es.len(),
{
    let size = m.config.window_size as nat;
    if es.len() > 0 {
        law_window_is_last_samples(m, es.drop_last());
        let prev = apply_events(m, es.drop_last());
        let p = success_rtts(es.drop_last());
        let w = last_samples(p, size);
        assert(prev.window == w);
        match es.last() {
            BreakerEvent::Success { rtt, now } => {
                let q = p.push(rtt);
                assert(success_rtts(es) == q);
                if p.len() < size {
                    assert(window_after(w, size, rtt) == p.push(rtt));
                    assert(last_samples(q, size) == q);
                } else {
                    assert(w =~= p.skip(p.len() - size));
                    assert(w.len() == size);
                    assert(window_after(w, size, rtt) =~= q.skip(q.len() - size));
                }
                assert(apply_events(m, es).window == window_after(prev.window, size, rtt));
            },
            _ => {
                assert(success_rtts(es) == p);
            },
        }
    }
}

/// Adaptive circuit breaker for a managed plugin host.
pub struct CircuitBreaker {
    config: CircuitBreakerConfig,
    epoch: std::time::Instant,
    state: CircuitState,
    consecutive_failures: usize,
    consecutive_successes: usize,
    rtt_window: std::collections::VecDeque<u64>,
    last_state_change: u64,
    tripped_at: Option<u64>,
    last_failure_reason: Option<FailureReason>,
}

/// The abstract value of an optional reason.
pub open spec fn opt_reason(r: Option<FailureReason>) -> Option<ReasonView> {
    match r {
        Some(x) => Some(x@),
        None => None,
    }
}

impl View for CircuitBreaker {
    type V = BreakerModel;

    closed spec fn view(&self) -> BreakerModel {
        BreakerModel {
            config: self.config,
            state: self.state,
            consecutive_failures: self.consecutive_failures,
            consecutive_successes: self.consecutive_successes,
            window: self.rtt_window@,
            last_state_change: self.last_state_change,
            tripped_at: self.tripped_at,
            last_failure_reason: opt_reason(self.last_failure_reason),
        }
    }
}

fn sum_samples(w: &std::collections::VecDeque<u64>) -> (r: u128)
    ensures
        r == sample_sum(w@),
{
    let n = w.len();
    let mut total: u128 = 0;
    let mut i: usize = 0;
    while i < n
        invariant
            n == w@.len(),
            i <= n,
            total == sample_sum(w@.take(i as int)),
            total <= i * 0xFFFF_FFFF_FFFF_FFFFu128,
        decreases n - i,
    {
        proof {
            assert(w@.take(i + 1).drop_last() =~= w@.take(i as int));
            assert(i + 1 <= 0xFFFF_FFFF_FFFF_FFFFu128);
            assert((i + 1) * 0xFFFF_FFFF_FFFF_FFFFu128 == i * 0xFFFF_FFFF_FFFF_FFFFu128
                + 0xFFFF_FFFF_FFFF_FFFFu128) by (nonlinear_arith);
            assert((i + 1) * 0xFFFF_FFFF_FFFF_FFFFu128 <= 0xFFFF_FFFF_FFFF_FFFFu128
                * 0xFFFF_FFFF_FFFF_FFFFu128) by (nonlinear_arith)
                requires
                    i + 1 <= 0xFFFF_FFFF_FFFF_FFFFu128,
            ;
        }
        total = total + w[i] as u128;
        i = i + 1;
    }
    assert(w@.take(n as int) =~= w@);
    total
}

proof fn lemma_mean_fits(s: Seq<u64>)
    requires
        s.len() > 0,
    ensures
        sample_mean(s) <= u64::MAX,
{
    lemma_sum_bound(s);
    let n = s.len();
    let t = sample_sum(s);
    assert(t / n <= u64::MAX) by (nonlinear_arith)
        requires
            t <= n * u64::MAX,
            n > 0,
    ;
}

proof fn lemma_sum_bound(s: Seq<u64>)
    ensures
        sample_sum(s) <= s.len() * u64::MAX,
    decreases s.len(),
{
    if s.len() > 0 {
        lemma_sum_bound(s.drop_last());
        assert(s.len() * u64::MAX == (s.len() - 1) * u64::MAX + u64::MAX) by (nonlinear_arith)
            requires
                s.len() > 0,
        ;
    }
}

impl CircuitBreaker {
    /// Creates a breaker whose clock starts now.
    pub fn new(config: CircuitBreakerConfig) -> (b: Self)
        ensures
            b@ == initial_model(config, 0),
    {
        let b = CircuitBreaker {
            config,
            epoch: instant_now(),
            state: CircuitState::Closed,
            consecutive_failures: 0,
            consecutive_successes: 0,
            rtt_window: std::collections::VecDeque::new(),
            last_state_change: 0,
            tripped_at: None,
            last_failure_reason: None,
        };
        assert(b@ =~= initial_model(config, 0));
        b
    }

    /// Creates a breaker with the production defaults.
    pub fn with_defaults() -> (b: Self)
        ensures
            b@.config.failure_threshold == 5,
            b@.config.latency_threshold == 50_000,
            b@.config.window_size == 20,
            b@.config.min_samples_for_latency == 5,
            b@.config.cooldown_period == 5_000_000,
            b@.config.half_open_success_threshold == 2,
            b@ == initial_model(b@.config, 0),
    {
        Self::new(CircuitBreakerConfig::default())
    }

    /// Microseconds since this breaker was created.
    pub fn now(&self) -> u64 {
        micros_since(&self.epoch)
    }

    /// Whether a request may be sent at time `now`. An `Open` breaker whose cooldown has
    /// elapsed moves to `HalfOpen` and admits the probe.
    pub fn allow_request_at(&mut self, now: u64) -> (r: bool)
        ensures
            (final(self)@, r) == allow_step(old(self)@, now),
    {
        match self.state {
            CircuitState::Closed => true,
            CircuitState::HalfOpen => true,
            CircuitState::Open => {
                let elapsed = if now >= self.last_state_change {
                    now - self.last_state_change
                } else {
                    0
                };
                if elapsed >= self.config.cooldown_period {
                    self.state = CircuitState::HalfOpen;
                    self.last_state_change = now;
                    self.consecutive_successes = 0;
                    assert(self@ =~= enter_half_open(old(self)@, now));
                    true
                } else {
                    false
                }
            },
        }
    }

    /// Whether a request may be sent now (see [`Self::allow_request_at`]).
    pub fn allow_request(&mut self) -> (r: bool)
        ensures
            exists|now: u64| (final(self)@, r) == allow_step(old(self)@, now),
    {
        let now = self.now();
        self.allow_request_at(now)
    }

    fn push_sample(&mut self, rtt: u64)
        ensures
            final(self)@ == (BreakerModel {
                window: window_after(
                    old(self)@.window,
                    old(self)@.config.window_size as nat,
                    rtt,
                ),
                ..old(self)@
            }),
    {
        if self.rtt_window.len() >= self.config.window_size {
            let _ = self.rtt_window.pop_front();
        }
        self.rtt_window.push_back(rtt);
        proof {
            let w = old(self)@.window;
            if w.len() >= self.config.window_size && w.len() > 0 {
                assert(w.subrange(1, w.len() as int) =~= w.drop_first());
            }
        }
        assert(self@ =~= (BreakerModel {
            window: window_after(old(self)@.window, old(self)@.config.window_size as nat, rtt),
            ..old(self)@
        }));
    }

    /// Records a successful call with round-trip time `rtt` (microseconds) completing at `now`.
    ///
    /// - `Closed`: resets the failure count and appends `rtt` to the window; with at least
    ///   `min_samples_for_latency` samples whose mean reaches `latency_threshold`, opens.
    /// - `HalfOpen`: counts the probe; at `half_open_success_threshold` probes, closes.
    /// - `Open`: a call that completes while open keeps its sample and moves the breaker to
    ///   `HalfOpen`, with no probe counted yet.
    pub fn record_success_at(&mut self, rtt: u64, now: u64)
        ensures
            final(self)@ == success_step(old(self)@, rtt, now),
    {
        self.push_sample(rtt);
        let ghost pushed = self@;
        match self.state {
            CircuitState::Closed => {
                self.consecutive_failures = 0;
                let n = self.rtt_window.len();
                if n >= self.config.min_samples_for_latency && n > 0 {
                    let total = sum_samples(&self.rtt_window);
                    proof {
                        lemma_mean_fits(self.rtt_window@);
                    }
                    let avg = (total / (n as u128)) as u64;
                    if avg >= self.config.latency_threshold {
                        self.state = CircuitState::Open;
                        self.last_state_change = now;
                        self.tripped_at = Some(now);
                        self.last_failure_reason = Some(FailureReason::SlowAverage {
                            avg_micros: avg,
                            threshold_micros: self.config.latency_threshold,
                        });
                        assert(self@.last_failure_reason == Some(
                            ReasonView::SlowAverage(
                                sample_mean(pushed.window),
                                self.config.latency_threshold as nat,
                            ),
                        ));
                    }
                }
                assert(self@ =~= success_step(old(self)@, rtt, now));
            },
            CircuitState::HalfOpen => {
                if self.consecutive_successes < usize::MAX {
                    self.consecutive_successes = self.consecutive_successes + 1;
                }
                if self.consecutive_successes >= self.config.half_open_success_threshold {
                    self.state = CircuitState::Closed;
                    self.last_state_change = now;
                    self.consecutive_failures = 0;
                    self.consecutive_successes = 0;
                    self.last_failure_reason = None;
                }
                assert(self@ =~= success_step(old(self)@, rtt, now));
            },
            CircuitState::Open => {
                self.state = CircuitState::HalfOpen;
                self.last_state_change = now;
                self.consecutive_successes = 0;
                assert(self@ =~= success_step(old(self)@, rtt, now));
            },
        }
    }

    /// Records a successful call with round-trip time `rtt` (microseconds) completing now.
    pub fn record_success(&mut self, rtt: u64)
        ensures
            exists|now: u64| final(self)@ == success_step(old(self)@, rtt, now),
    {
        let now = self.now();
        self.record_success_at(rtt, now)
    }

    /// Records a failed call explained by `reason` at `now`.
    ///
    /// - `Closed`: at `failure_threshold` consecutive failures, opens.
    /// - `HalfOpen`: a failed probe opens the circuit again.
    /// - `Open`: the count and the reason are updated and the cooldown restarts at `now`.
    pub fn record_failure_at(&mut self, reason: &str, now: u64)
        ensures
            final(self)@ == failure_step(old(self)@, reason@, now),
    {
        if self.consecutive_failures < usize::MAX {
            self.consecutive_failures = self.consecutive_failures + 1;
        }
        let mut text = String::new();
        push_str(&mut text, reason);
        self.last_failure_reason = Some(FailureReason::Reported(text));
        match self.state {
            CircuitState::Closed => {
                if self.consecutive_failures >= self.config.failure_threshold {
                    self.state = CircuitState::Open;
                    self.last_state_change = now;
                    self.tripped_at = Some(now);
                }
            },
            CircuitState::HalfOpen => {
                self.state = CircuitState::Open;
                self.last_state_change = now;
                self.tripped_at = Some(now);
                self.consecutive_successes = 0;
            },
            CircuitState::Open => {
                self.last_state_change = now;
            },
        }
        assert(self@ =~= failure_step(old(self)@, reason@, now));
    }

    /// Records a failed call explained by `reason`, now.
    pub fn record_failure(&mut self, reason: &str)
        ensures
            exists|now: u64| final(self)@ == failure_step(old(self)@, reason@, now),
    {
        let now = self.now();
        self.record_failure_at(reason, now)
    }

    /// The state at `now`; an `Open` breaker whose cooldown has elapsed becomes `HalfOpen`.
    pub fn state_at(&mut self, now: u64) -> (r: CircuitState)
        ensures
            final(self)@ == observe_step(old(self)@, now),
            r == final(self)@.state,
    {
        if self.state == CircuitState::Open {
            let elapsed = if now >= self.last_state_change {
                now - self.last_state_change
            } else {
                0
            };
            if elapsed >= self.config.cooldown_period {
                self.state = CircuitState::HalfOpen;
                self.last_state_change = now;
                self.consecutive_successes = 0;
            }
        }
        assert(self@ =~= observe_step(old(self)@, now));
        self.state
    }

    /// The current state (see [`Self::state_at`]).
    pub fn state(&mut self) -> (r: CircuitState)
        ensures
            exists|now: u64| final(self)@ == observe_step(old(self)@, now),
            r == final(self)@.state,
    {
        let now = self.now();
        self.state_at(now)
    }

    /// Number of consecutive recorded failures.
    pub fn consecutive_failures(&self) -> (r: usize)
        ensures
            r == self@.consecutive_failures,
    {
        self.consecutive_failures
    }

    /// Number of consecutive successful probes in `HalfOpen`.
    pub fn consecutive_successes(&self) -> (r: usize)
        ensures
            r == self@.consecutive_successes,
    {
        self.consecutive_successes
    }

    /// Mean RTT (microseconds, truncated) over the window, or `None` when it is empty.
    pub fn average_rtt(&self) -> (r: Option<u64>)
        ensures
            self@.window.len() == 0 ==> r is None,
            self@.window.len() > 0 ==> r == Some(sample_mean(self@.window) as u64),
            r matches Some(a) ==> a == sample_mean(self@.window),
    {
        let n = self.rtt_window.len();
        if n == 0 {
            return None;
        }
        let total = sum_samples(&self.rtt_window);
        proof {
            lemma_mean_fits(self.rtt_window@);
        }
        Some((total / (n as u128)) as u64)
    }

    /// The most recent failure explanation, if any.
    pub fn last_failure_reason(&self) -> (r: Option<FailureReason>)
        ensures
            opt_reason(r) == self@.last_failure_reason,
    {
        match &self.last_failure_reason {
            Some(x) => Some(x.duplicate()),
            None => None,
        }
    }

    /// Manually trips the circuit to `Open` at `now`.
    pub fn trip_at(&mut self, reason: &str, now: u64)
        ensures
            final(self)@ == trip_step(old(self)@, reason@, now),
    {
        let mut text = String::new();
        push_str(&mut text, reason);
        self.state = CircuitState::Open;
        self.last_state_change = now;
        self.tripped_at = Some(now);
        self.last_failure_reason = Some(FailureReason::Reported(text));
        assert(self@ =~= trip_step(old(self)@, reason@, now));
    }

    /// Manually trips the circuit to `Open`, now.
    pub fn trip(&mut self, reason: &str)
        ensures
            exists|now: u64| final(self)@ == trip_step(old(self)@, reason@, now),
    {
        let now = self.now();
        self.trip_at(reason, now)
    }

    /// Forces the circuit back to `Closed` at `now` and clears every counter and sample.
    pub fn reset_at(&mut self, now: u64)
        ensures
            final(self)@ == reset_step(old(self)@, now),
    {
        self.state = CircuitState::Closed;
        self.consecutive_failures = 0;
        self.consecutive_successes = 0;
        self.rtt_window.clear();
        self.last_state_change = now;
        self.tripped_at = None;
        self.last_failure_reason = None;
        assert(self@ =~= reset_step(old(self)@, now));
    }

    /// Forces the circuit back to `Closed`, now.
    pub fn reset(&mut self)
        ensures
            exists|now: u64| final(self)@ == reset_step(old(self)@, now),
    {
        let now = self.now();
        self.reset_at(now)
    }

    /// The configuration.
    pub fn config(&self) -> (r: &CircuitBreakerConfig)
        ensures
            *r == self@.config,
    {
        &self.config
    }
}

} // verus!
