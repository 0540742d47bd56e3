//! Pipeline lifecycle observation hooks.
//!
//! The engine emits a compact stage record at every message lifecycle transition (ingest,
//! pre-filter, command routing, LLM reasoning, outbound). Control planes subscribe through
//! [`PipelineObserver`] to render end-to-end trace timelines. Observation is fire-and-forget:
//! the callback is synchronous so that a slow console can never stall inbound processing.
use vstd::prelude::*;

verus! {

/// A single message lifecycle transition emitted by the pipeline.
#[derive(Clone, Debug)]
pub enum PipelineStage {
    /// An inbound event left the ingest queue and started pipeline processing.
    Ingested {
        /// Unique identifier of the inbound event.
        event_id: String,
        /// Source platform identifier (e.g. `discord`).
        platform: String,
        /// Channel the message originated from.
        channel_id: String,
        /// User that authored the message.
        sender_id: String,
    },
    /// Pre-filter chain evaluation started across the active hosts.
    PreFilterStarted {
        /// Unique identifier of the inbound event.
        event_id: String,
        /// Number of plugin hosts participating in the chain.
        host_count: usize,
    },
    /// The event was intercepted and blocked by a plugin pre-filter.
    PreFilterBlocked {
        /// Unique identifier of the inbound event.
        event_id: String,
        /// Host that blocked the event.
        host_id: String,
    },
    /// The event passed every pre-filter (or the remaining chain was short-circuited).
    PreFilterPassed {
        /// Unique identifier of the inbound event.
        event_id: String,
    },
    /// A host was skipped because its circuit breaker refused the call.
    CircuitBreakerTripped {
        /// Unique identifier of the inbound event.
        event_id: String,
        /// Host whose breaker is open.
        host_id: String,
        /// Pipeline phase that skipped the host (e.g. `pre_filter`).
        phase: String,
        /// Human-readable breaker state.
        reason: String,
    },
    /// A slash command was matched and dispatched to a plugin host.
    CommandMatched {
        /// Unique identifier of the inbound event.
        event_id: String,
        /// Command name without the leading slash.
        command: String,
        /// Plugin that declared the command.
        plugin_id: String,
        /// Host process executing the command.
        host_id: String,
    },
    /// A slash command was parsed but no plugin declared it.
    CommandNotFound {
        /// Unique identifier of the inbound event.
        event_id: String,
        /// Command name without the leading slash.
        command: String,
    },
    /// LLM reasoning produced a conversational reply.
    LlmReplied {
        /// Unique identifier of the inbound event.
        event_id: String,
        /// Session key used for conversational memory.
        session_id: String,
        /// Character length of the generated reply.
        content_length: usize,
    },
    /// Outbound replies were enqueued towards a platform adapter.
    OutboundQueued {
        /// Unique identifier of the inbound event that produced the replies.
        event_id: String,
        /// Destination platform.
        platform: String,
        /// Destination channel.
        channel_id: String,
        /// Number of outbound message segments enqueued.
        segment_count: usize,
    },
}

/// Stable serialized name of a stage.
pub open spec fn stage_name(stage: PipelineStage) -> Seq<char> {
    match stage {
        PipelineStage::Ingested { .. } => "ingested"@,
        PipelineStage::PreFilterStarted { .. } => "pre_filter_started"@,
        PipelineStage::PreFilterBlocked { .. } => "pre_filter_blocked"@,
        PipelineStage::PreFilterPassed { .. } => "pre_filter_passed"@,
        PipelineStage::CircuitBreakerTripped { .. } => "circuit_breaker_tripped"@,
        PipelineStage::CommandMatched { .. } => "command_matched"@,
        PipelineStage::CommandNotFound { .. } => "command_not_found"@,
        PipelineStage::LlmReplied { .. } => "llm_replied"@,
        PipelineStage::OutboundQueued { .. } => "outbound_queued"@,
    }
}

/// Event identifier carried by a stage.
pub open spec fn stage_event_id(stage: PipelineStage) -> Seq<char> {
    match stage {
        PipelineStage::Ingested { event_id, .. } => event_id@,
        PipelineStage::PreFilterStarted { event_id, .. } => event_id@,
        PipelineStage::PreFilterBlocked { event_id, .. } => event_id@,
        PipelineStage::PreFilterPassed { event_id } => event_id@,
        PipelineStage::CircuitBreakerTripped { event_id, .. } => event_id@,
        PipelineStage::CommandMatched { event_id, .. } => event_id@,
        PipelineStage::CommandNotFound { event_id, .. } => event_id@,
        PipelineStage::LlmReplied { event_id, .. } => event_id@,
        PipelineStage::OutboundQueued { event_id, .. } => event_id@,
    }
}

impl PipelineStage {
    /// Returns the stable stage name used in serialized trace records.
    pub fn name(&self) -> (r: &'static str)
        ensures
            r@ == stage_name(*self),
    {
        match self {
            PipelineStage::Ingested { .. } => "ingested",
            PipelineStage::PreFilterStarted { .. } => "pre_filter_started",
            PipelineStage::PreFilterBlocked { .. } => "pre_filter_blocked",
            PipelineStage::PreFilterPassed { .. } => "pre_filter_passed",
            PipelineStage::CircuitBreakerTripped { .. } => "circuit_breaker_tripped",
            PipelineStage::CommandMatched { .. } => "command_matched",
            PipelineStage::CommandNotFound { .. } => "command_not_found",
            PipelineStage::LlmReplied { .. } => "llm_replied",
            PipelineStage::OutboundQueued { .. } => "outbound_queued",
        }
    }

    /// Returns the event identifier this stage belongs to.
    pub fn event_id(&self) -> (r: &str)
        ensures
            r@ == stage_event_id(*self),
    {
        match self {
            PipelineStage::Ingested { event_id, .. } => event_id.as_str(),
            PipelineStage::PreFilterStarted { event_id, .. } => event_id.as_str(),
            PipelineStage::PreFilterBlocked { event_id, .. } => event_id.as_str(),
            PipelineStage::PreFilterPassed { event_id } => event_id.as_str(),
            PipelineStage::CircuitBreakerTripped { event_id, .. } => event_id.as_str(),
            PipelineStage::CommandMatched { event_id, .. } => event_id.as_str(),
            PipelineStage::CommandNotFound { event_id, .. } => event_id.as_str(),
            PipelineStage::LlmReplied { event_id, .. } => event_id.as_str(),
            PipelineStage::OutboundQueued { event_id, .. } => event_id.as_str(),
        }
    }
}

/// Receiver of pipeline lifecycle stage records.
///
/// Implementations must return promptly: they run inline on the pipeline worker.
pub trait PipelineObserver {
    /// Invoked once per lifecycle transition.
    fn on_stage(&self, stage: &PipelineStage);
}

} // verus!
