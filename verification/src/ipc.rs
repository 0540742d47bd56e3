//! Core IPC service: the decisions behind the calls plugin hosts make to the core.
//!
//! Host registration converges into the supervisor registry; inbound events are enqueued
//! without blocking (fast acknowledgement) and a full queue is reported instead of waited on;
//! outbound messages get a fresh event identifier and are handed to the delivery queue. The
//! gRPC transport, the queues themselves and the model provider are the I/O layer's part.
use vstd::prelude::*;

use crate::adapter::IngestError;
use crate::message::{DeliverMessageRequest, MessageSegment};
use crate::supervisor::{supervisor_error_text, SupervisorError};
use crate::text::{owned, push_char, push_str};

verus! {

/// Capacity of the inbound event queue.
pub const DEFAULT_INGEST_QUEUE_CAPACITY: usize = 10_000;

/// An outbound message a plugin asks the core to send.
pub struct SendMessageRequest {
    /// Destination platform.
    pub platform: String,
    /// Destination channel.
    pub channel_id: String,
    /// Destination recipient.
    pub recipient_id: String,
    /// Segments to send.
    pub segments: Vec<MessageSegment>,
}

/// Answer to a send request.
pub struct SendMessageResponse {
    /// Whether the message was queued.
    pub accepted: bool,
    /// Whether the request succeeded.
    pub success: bool,
    /// Identifier of the queued message (empty when refused).
    pub message_id: String,
    /// Why the message was refused.
    pub error_message: String,
}

/// Answer to an ingest request.
pub struct IngestEventResponse {
    /// Whether the event was queued.
    pub accepted: bool,
    /// Identifier of the event.
    pub event_id: String,
}

/// Answer to a host registration.
pub struct RegisterHostResponse {
    /// Whether the host was registered.
    pub success: bool,
    /// Human-readable outcome.
    pub message: String,
}

/// Outcome of a non-blocking push into a bounded queue.
#[derive(Debug, Clone, Copy, PartialEq, Eq, Structural)]
pub enum QueuePush {
    /// The item was queued.
    Queued,
    /// The queue is at capacity.
    Full,
    /// The consumer is gone.
    Closed,
}

/// A call refused with an `unavailable` status, and its message.
pub struct Unavailable(pub String);

/// Lowercase hexadecimal digit.
pub open spec fn hex_char_of(d: nat) -> char {
    if d < 10 {
        ((d + 48) as u32) as char
    } else {
        ((d + 87) as u32) as char
    }
}

/// Lowercase hexadecimal rendering of `n` without leading zeros (`format!("{:x}")`).
pub open spec fn lower_hex(n: nat) -> Seq<char>
    decreases n,
{
    if n < 16 {
        seq![hex_char_of(n)]
    } else {
        lower_hex(n / 16).push(hex_char_of(n % 16))
    }
}

fn hex_char(d: u64) -> (c: char)
    requires
        d < 16,
    ensures
        c == hex_char_of(d as nat),
{
    if d < 10 {
        ((d as u8) + 48) as char
    } else {
        ((d as u8) + 87) as char
    }
}

fn push_hex(s: &mut String, n: u64)
    ensures
        final(s)@ == old(s)@ + lower_hex(n as nat),
    decreases n,
{
    if n >= 16 {
        push_hex(s, n / 16);
    }
    push_char(s, hex_char(n % 16));
}

/// Identifier given to an outbound message sent at `now_ms` as the `seq`-th of this process.
pub open spec fn send_event_id(now_ms: nat, seq: nat) -> Seq<char> {
    "send-"@ + lower_hex(now_ms) + "-"@ + lower_hex(seq)
}

/// Numbering of outbound messages.
pub struct MessageIds {
    next: u64,
}

impl MessageIds {
    /// The sequence number the next message gets.
    pub closed spec fn next_view(&self) -> u64 {
        self.next
    }

    /// Numbering starting at 1.
    pub fn new() -> (r: Self)
        ensures
            r.next_view() == 1,
    {
        MessageIds { next: 1 }
    }

    /// Identifier of the next message sent at `now_ms` (`send-<ms hex>-<seq hex>`); the
    /// sequence wraps around.
    pub fn next_event_id(&mut self, now_ms: u64) -> (r: String)
        ensures
            r@ == send_event_id(now_ms as nat, old(self).next_view() as nat),
            final(self).next_view() == (if old(self).next_view() == u64::MAX { 0 } else { (old(self).next_view() + 1) as u64 }),
    {
        let seq = self.next;
        self.next = self.next.wrapping_add(1);
        let mut r = owned("send-");
        push_hex(&mut r, now_ms);
        push_char(&mut r, '-');
        push_hex(&mut r, seq);
        proof {
            reveal_strlit("-");
            assert(r@ =~= send_event_id(now_ms as nat, seq as nat));
        }
        r
    }
}

/// The delivery of a send request under identifier `event_id`.
pub fn deliver_request(req: SendMessageRequest, event_id: String) -> (r: DeliverMessageRequest)
    ensures
        r.event_id == event_id,
        r.platform == req.platform,
        r.channel_id == req.channel_id,
        r.recipient_id == req.recipient_id,
        r.segments == req.segments,
{
    let SendMessageRequest { platform, channel_id, recipient_id, segments } = req;
    DeliverMessageRequest { event_id, platform, channel_id, recipient_id, segments }
}

/// Answer to a send request whose delivery was pushed with outcome `push`.
pub fn send_response(push: QueuePush, event_id: String) -> (r: Result<SendMessageResponse, Unavailable>)
    ensures
        push == QueuePush::Queued ==> (r matches Ok(resp) && resp.accepted && resp.success && resp.message_id == event_id
            && resp.error_message@.len() == 0),
        push == QueuePush::Full ==> (r matches Ok(resp) && !resp.accepted && !resp.success && resp.message_id@.len() == 0
            && resp.error_message@ == "Outbound queue full; delivery dropped"@),
        push == QueuePush::Closed ==> (r matches Err(Unavailable(m)) && m@ == "Outbound message queue is closed"@),
{
    match push {
        QueuePush::Queued => Ok(SendMessageResponse { accepted: true, success: true, message_id: event_id, error_message: String::new() }),
        QueuePush::Full => Ok(SendMessageResponse {
            accepted: false,
            success: false,
            message_id: String::new(),
            error_message: owned("Outbound queue full; delivery dropped"),
        }),
        QueuePush::Closed => Err(Unavailable(owned("Outbound message queue is closed"))),
    }
}

/// Refusal of a send request when no delivery dispatcher is configured.
pub fn no_dispatcher() -> (r: Unavailable)
    ensures
        r.0@ == "Outbound delivery dispatcher is not configured on CoreApiService"@,
{
    Unavailable(owned("Outbound delivery dispatcher is not configured on CoreApiService"))
}

/// Refusal of a host registration when the core runs without a supervisor.
pub fn no_supervisor() -> (r: Unavailable)
    ensures
        r.0@ == "Supervisor is not configured on CoreApiService; cannot register host"@,
{
    Unavailable(owned("Supervisor is not configured on CoreApiService; cannot register host"))
}

/// Refusal of a model request when no LLM provider is configured: failing explicitly keeps a
/// plugin from mistaking a misconfigured node for a working model backend.
pub fn no_llm_provider() -> (r: Unavailable)
    ensures
        r.0@ == "No LLM provider is configured on this core; RequestLLM is disabled"@,
{
    Unavailable(owned("No LLM provider is configured on this core; RequestLLM is disabled"))
}

/// Answer to an ingest request for event `event_id` whose enqueue ended with `result`.
pub fn ingest_response(event_id: String, result: Result<(), IngestError>) -> (r: Result<IngestEventResponse, Unavailable>)
    ensures
        result is Ok ==> (r matches Ok(resp) && resp.accepted && resp.event_id == event_id),
        result == Err::<(), IngestError>(IngestError::QueueFull) ==> (r matches Ok(resp) && !resp.accepted && resp.event_id == event_id),
        result == Err::<(), IngestError>(IngestError::Closed) ==> (r matches Err(Unavailable(m)) && m@ == "Microkernel event queue has been closed"@),
{
    match result {
        Ok(()) => Ok(IngestEventResponse { accepted: true, event_id }),
        Err(IngestError::QueueFull) => Ok(IngestEventResponse { accepted: false, event_id }),
        Err(IngestError::Closed) => Err(Unavailable(owned("Microkernel event queue has been closed"))),
    }
}

/// Answer to the registration of host `host_id` whose registry outcome is `result`.
pub fn register_response(host_id: &str, result: &Result<(), SupervisorError>) -> (r: RegisterHostResponse)
    ensures
        result is Ok ==> r.success && r.message@ == "Host '"@ + host_id@ + "' registered successfully"@,
        result matches Err(e) ==> !r.success && r.message@ == "Failed to register host: "@ + supervisor_error_text(*e),
{
    match result {
        Ok(()) => {
            let mut m = owned("Host '");
            push_str(&mut m, host_id);
            push_str(&mut m, "' registered successfully");
            RegisterHostResponse { success: true, message: m }
        },
        Err(e) => {
            let mut m = owned("Failed to register host: ");
            let t = e.message();
            push_str(&mut m, t.as_str());
            RegisterHostResponse { success: false, message: m }
        },
    }
}

/// Speaker of a chat message.
#[derive(Debug, Clone, Copy, PartialEq, Eq, Structural)]
pub enum ChatRole {
    /// System instructions.
    System,
    /// The user's turn.
    User,
}

/// Messages of a plugin's model request: its system prompt, when given, then its prompt.
pub fn llm_messages(system_prompt: Option<String>, prompt: String) -> (r: Vec<(ChatRole, String)>)
    ensures
        system_prompt matches Some(sp) ==> r@ == seq![(ChatRole::System, sp), (ChatRole::User, prompt)],
        system_prompt is None ==> r@ == seq![(ChatRole::User, prompt)],
{
    let mut v: Vec<(ChatRole, String)> = Vec::new();
    if let Some(sp) = system_prompt {
        v.push((ChatRole::System, sp));
    }
    v.push((ChatRole::User, prompt));
    v
}

} // verus!
