//! Pre-filter interception chain.
//!
//! Plugin pre-filters run in ascending priority order (ties broken by host identifier, then by
//! position). A host whose circuit breaker refuses the call is skipped and reported; a blocked
//! event stops the chain; a modified event carries the new text downstream; the chain as a
//! whole is bounded by a total deadline, after which the event passes on untouched by the
//! remaining filters. The I/O layer performs each call (with its timeout) and reports the
//! observation to [`PreFilterChain::step`], which decides what happens next.
use vstd::prelude::*;

use crate::message::{MessageSegment, PipelineEventRequest, Segment};
use crate::order::{sorted_stably, stable_order};
use crate::pipeline::observer::PipelineStage;
use crate::supervisor::circuit_breaker::{allow_step, failure_step, observe_step, success_step, CircuitBreaker, CircuitState};
use crate::supervisor::ManagedHost;
use crate::text::{decimal, owned, push_decimal, push_str};

verus! {

/// Total budget of the pre-filter chain, in microseconds (30 ms).
pub const PREFILTER_TOTAL_DEADLINE: u64 = 30_000;

/// Latency of a single pre-filter above which a warning is logged, in microseconds (5 ms).
pub const PREFILTER_WARN_THRESHOLD: u64 = 5_000;

/// Pre-filter action: let the event through.
pub const ACTION_PASS: i32 = 0;
/// Pre-filter action: stop the event.
pub const ACTION_BLOCK: i32 = 1;
/// Pre-filter action: replace the event's text.
pub const ACTION_MODIFY: i32 = 2;

/// Reply of one plugin pre-filter.
pub struct PreFilterResult {
    /// Action code (`0` pass, `1` block, `2` modify; anything else is treated as pass).
    pub action: i32,
    /// Replacement text for a modify action.
    pub modified_text: String,
    /// Replies to send back when blocking.
    pub reply_messages: Vec<MessageSegment>,
}

/// Outcome of the whole chain.
pub enum PreFilterOutcome {
    /// The event passed every filter (or the rest of the chain was short-circuited).
    Passed(PipelineEventRequest),
    /// The event was blocked.
    Blocked {
        /// Host whose filter blocked the event.
        host_id: String,
        /// Replies emitted by the blocking filter.
        reply_messages: Vec<MessageSegment>,
    },
}

/// What happened when one host's filter was invoked.
pub enum FilterObservation {
    /// The chain's total deadline had already passed; the filter was not called.
    DeadlineReached,
    /// The filter answered after `rtt` microseconds.
    Replied {
        /// The filter's reply.
        result: PreFilterResult,
        /// Round-trip time in microseconds.
        rtt: u64,
    },
    /// The call failed with an RPC status code.
    RpcFailed {
        /// Status code name.
        code: String,
    },
    /// The call did not answer within the remaining budget.
    TimedOut,
}

/// The chain's decision after one host.
pub enum FilterStep {
    /// Go on to the next host with this event.
    Continue(PipelineEventRequest),
    /// Stop with this outcome.
    Finish(PreFilterOutcome),
}

/// Scheduler of the pre-filter chain.
pub struct PreFilterChain;

/// Ordering keys of hosts: priority, then identifier.
pub open spec fn filter_keys(hosts: Seq<ManagedHost>) -> Seq<(int, Seq<char>)> {
    Seq::new(hosts.len(), |i: int| (hosts[i].priority as int, hosts[i].host_id@))
}

/// Whether a segment is a text segment.
pub open spec fn is_text_segment(s: MessageSegment) -> bool {
    s.segment matches Some(Segment::Text { .. })
}

/// Position of the first text segment of `segs`.
pub open spec fn first_text(segs: Seq<MessageSegment>) -> Option<int> {
    if exists|i: int| 0 <= i < segs.len() && is_text_segment(segs[i]) {
        Some(choose|i: int| 0 <= i < segs.len() && is_text_segment(segs[i])
            && forall|j: int| 0 <= j < i ==> !is_text_segment(segs[j]))
    } else {
        None
    }
}

/// `Debug` name of a breaker state.
pub open spec fn state_name(s: CircuitState) -> Seq<char> {
    match s {
        CircuitState::Closed => "Closed"@,
        CircuitState::Open => "Open"@,
        CircuitState::HalfOpen => "HalfOpen"@,
    }
}

/// Explanation attached to a skipped host.
pub open spec fn breaker_open_reason(s: CircuitState, failures: nat) -> Seq<char> {
    "Circuit breaker OPEN (state: "@ + state_name(s) + ", consecutive failures: "@ + decimal(failures) + ")"@
}

/// Failure recorded when a filter call fails with status `code`.
pub open spec fn rpc_failure_reason(code: Seq<char>) -> Seq<char> {
    "PreFilter gRPC error: "@ + code
}

fn push_state_name(s: &mut String, st: CircuitState)
    ensures
        final(s)@ == old(s)@ + state_name(st),
{
    match st {
        CircuitState::Closed => push_str(s, "Closed"),
        CircuitState::Open => push_str(s, "Open"),
        CircuitState::HalfOpen => push_str(s, "HalfOpen"),
    }
}

proof fn lemma_first_text(segs: Seq<MessageSegment>, i: int)
    requires
        0 <= i < segs.len(),
        is_text_segment(segs[i]),
        forall|j: int| 0 <= j < i ==> !is_text_segment(segs[j]),
    ensures
        first_text(segs) == Some(i),
{
    let k = choose|k: int| 0 <= k < segs.len() && is_text_segment(segs[k])
        && forall|j: int| 0 <= j < k ==> !is_text_segment(segs[j]);
    if k < i {
        assert(!is_text_segment(segs[k]));
    }
    if i < k {
        assert(!is_text_segment(segs[i]));
    }
}

/// `event` with its text replaced by `text`, in `raw_text` and in its first text segment.
pub open spec fn modified_event(event: PipelineEventRequest, text: Seq<char>, new_event: PipelineEventRequest) -> bool {
    &&& new_event.event_id == event.event_id
    &&& new_event.platform == event.platform
    &&& new_event.channel_id == event.channel_id
    &&& new_event.sender_id == event.sender_id
    &&& new_event.raw_text@ == text
    &&& new_event.segments@.len() == event.segments@.len()
    &&& match first_text(event.segments@) {
        None => new_event.segments@ == event.segments@,
        Some(i) => {
            &&& forall|j: int| 0 <= j < event.segments@.len() && j != i ==> new_event.segments@[j] == event.segments@[j]
            &&& new_event.segments@[i].segment matches Some(Segment::Text { content }) && content@ == text
        },
    }
}

impl PreFilterChain {
    /// Order in which the hosts' filters run: ascending priority, then host identifier,
    /// keeping input order among equal keys.
    pub fn filter_order(hosts: &[ManagedHost]) -> (r: Vec<usize>)
        ensures
            sorted_stably(filter_keys(hosts@), r@),
    {
        let mut keys: Vec<(i64, String)> = Vec::new();
        for i in 0..hosts.len()
            invariant
                keys@.len() == i,
                i <= hosts@.len(),
                forall|j: int| 0 <= j < i ==> keys@[j].0 == hosts@[j].priority && keys@[j].1@ == hosts@[j].host_id@,
        {
            keys.push((hosts[i].priority as i64, hosts[i].host_id.clone()));
        }
        let order = stable_order(&keys);
        proof {
            assert(crate::order::key_models(keys@) =~= filter_keys(hosts@));
        }
        order
    }

    /// Asks host `host_id`'s breaker whether its filter may be called at `now`; when refused,
    /// returns the stage reporting the skip.
    pub fn admit_at(breaker: &mut CircuitBreaker, event_id: &str, host_id: &str, now: u64) -> (r: Option<PipelineStage>)
        ensures
            ({
                let (after, allowed) = allow_step(old(breaker)@, now);
                &&& allowed ==> r is None && final(breaker)@ == after
                &&& !allowed ==> final(breaker)@ == observe_step(after, now) && match r {
                    Some(PipelineStage::CircuitBreakerTripped { event_id: e, host_id: h, phase, reason }) => {
                        &&& e@ == event_id@
                        &&& h@ == host_id@
                        &&& phase@ == "pre_filter"@
                        &&& reason@ == breaker_open_reason(final(breaker)@.state, final(breaker)@.consecutive_failures as nat)
                    },
                    _ => false,
                }
            }),
    {
        if breaker.allow_request_at(now) {
            return None;
        }
        let st = breaker.state_at(now);
        let failures = breaker.consecutive_failures();
        let mut reason = String::new();
        push_str(&mut reason, "Circuit breaker OPEN (state: ");
        push_state_name(&mut reason, st);
        push_str(&mut reason, ", consecutive failures: ");
        push_decimal(&mut reason, failures as u64);
        push_str(&mut reason, ")");
        proof {
            assert(reason@ =~= breaker_open_reason(st, failures as nat));
        }
        Some(PipelineStage::CircuitBreakerTripped {
            event_id: owned(event_id),
            host_id: owned(host_id),
            phase: owned("pre_filter"),
            reason,
        })
    }

    /// Decides what follows host `host_id`'s filter, given what its call produced at breaker
    /// time `now`:
    /// - deadline already reached: the event passes, untouched by the rest of the chain;
    /// - timed out: a failure is recorded and the event passes (the budget is spent);
    /// - RPC error: a failure is recorded and the chain goes on;
    /// - reply: the RTT is recorded; block stops with the host's replies, modify replaces the
    ///   event's text (and its first text segment), pass or an unknown action goes on.
    pub fn step(event: PipelineEventRequest, host_id: &str, breaker: &mut CircuitBreaker, obs: FilterObservation, now: u64) -> (r: FilterStep)
        ensures
            match obs {
                FilterObservation::DeadlineReached => final(breaker)@ == old(breaker)@
                    && (r matches FilterStep::Finish(PreFilterOutcome::Passed(e)) && e == event),
                FilterObservation::TimedOut => final(breaker)@ == failure_step(old(breaker)@, "PreFilter execution timed out"@, now)
                    && (r matches FilterStep::Finish(PreFilterOutcome::Passed(e)) && e == event),
                FilterObservation::RpcFailed { code } => final(breaker)@ == failure_step(old(breaker)@, rpc_failure_reason(code@), now)
                    && (r matches FilterStep::Continue(e) && e == event),
                FilterObservation::Replied { result, rtt } => {
                    &&& final(breaker)@ == success_step(old(breaker)@, rtt, now)
                    &&& result.action == ACTION_BLOCK ==> (r matches FilterStep::Finish(PreFilterOutcome::Blocked { host_id: h, reply_messages })
                        && h@ == host_id@ && reply_messages == result.reply_messages)
                    &&& result.action == ACTION_MODIFY ==> (r matches FilterStep::Continue(e) && modified_event(event, result.modified_text@, e))
                    &&& result.action != ACTION_BLOCK && result.action != ACTION_MODIFY ==> (r matches FilterStep::Continue(e) && e == event)
                },
            },
    {
        match obs {
            FilterObservation::DeadlineReached => FilterStep::Finish(PreFilterOutcome::Passed(event)),
            FilterObservation::TimedOut => {
                breaker.record_failure_at("PreFilter execution timed out", now);
                FilterStep::Finish(PreFilterOutcome::Passed(event))
            },
            FilterObservation::RpcFailed { code } => {
                let mut reason = String::new();
                push_str(&mut reason, "PreFilter gRPC error: ");
                push_str(&mut reason, code.as_str());
                breaker.record_failure_at(reason.as_str(), now);
                FilterStep::Continue(event)
            },
            FilterObservation::Replied { result, rtt } => {
                breaker.record_success_at(rtt, now);
                if result.action == ACTION_BLOCK {
                    FilterStep::Finish(PreFilterOutcome::Blocked { host_id: owned(host_id), reply_messages: result.reply_messages })
                } else if result.action == ACTION_MODIFY {
                    FilterStep::Continue(Self::apply_modification(event, result.modified_text))
                } else {
                    FilterStep::Continue(event)
                }
            },
        }
    }

    /// Replaces the text of `event` (its raw text and its first text segment).
    pub fn apply_modification(event: PipelineEventRequest, text: String) -> (r: PipelineEventRequest)
        ensures
            modified_event(event, text@, r),
    {
        let ghost old_event = event;
        let PipelineEventRequest { event_id, platform, channel_id, sender_id, raw_text, segments } = event;
        let mut segments = segments;
        let n = segments.len();
        let mut i: usize = 0;
        let mut found = false;
        while i < n && !found
            invariant
                n == segments@.len(),
                segments@ == old_event.segments@,
                i <= n,
                found ==> i < n && is_text_segment(segments@[i as int]),
                forall|j: int| 0 <= j < i ==> !is_text_segment(segments@[j]),
            decreases n - i + (if found { 0int } else { 1int }),
        {
            let is_text = match &segments[i].segment {
                Some(Segment::Text { .. }) => true,
                _ => false,
            };
            if is_text {
                found = true;
            } else {
                i = i + 1;
            }
        }
        if found {
            proof {
                lemma_first_text(segments@, i as int);
            }
            segments.set(i, MessageSegment { segment: Some(Segment::Text { content: text.clone() }) });
        } else {
            proof {
                assert(!exists|k: int| 0 <= k < old_event.segments@.len() && is_text_segment(old_event.segments@[k]));
            }
        }
        PipelineEventRequest { event_id, platform, channel_id, sender_id, raw_text: text, segments }
    }
}

} // verus!
