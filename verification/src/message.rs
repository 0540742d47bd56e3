//! Messages exchanged between the core, plugin hosts and platform adapters.
//!
//! These are the plain-value forms of the wire messages: an inbound pipeline event and an
//! outbound delivery, each made of ordered message segments.
use vstd::prelude::*;

use crate::json::JsonValue;

verus! {

/// Where the bytes of an image or a voice clip come from.
#[derive(Clone, Debug, PartialEq, Eq)]
pub enum MediaSource {
    /// A file on the local disk.
    FilePath(String),
    /// A remote URL.
    Url(String),
    /// Inline bytes.
    RawBytes(Vec<u8>),
}

/// One typed piece of a message.
#[derive(Clone, Debug, PartialEq, Eq)]
pub enum Segment {
    /// Plain text.
    Text {
        /// Text content.
        content: String,
    },
    /// An image.
    Image {
        /// MIME type of the image.
        mime_type: String,
        /// Original file name.
        filename: String,
        /// Where the image bytes come from.
        source: Option<MediaSource>,
    },
    /// A voice clip.
    Audio {
        /// Clip length in whole seconds.
        duration_seconds: u32,
        /// Where the clip comes from.
        source: Option<MediaSource>,
    },
    /// A mention of a user (or of everyone).
    Mention {
        /// Mentioned user.
        target_user_id: String,
        /// Display name shown for the mention.
        display_name: String,
        /// Whether the mention addresses everyone.
        is_all: bool,
    },
    /// A reply to an earlier message.
    Reply {
        /// Message replied to.
        target_message_id: String,
        /// Quoted excerpt.
        snippet: String,
    },
    /// A platform-specific segment.
    Custom {
        /// Platform-specific type name.
        custom_type: String,
    },
}

/// A message segment; the segment itself may be absent on the wire.
#[derive(Clone, Debug, PartialEq, Eq)]
pub struct MessageSegment {
    /// Typed content.
    pub segment: Option<Segment>,
}

/// An inbound event travelling through the pipeline.
#[derive(Clone, Debug, PartialEq, Eq)]
pub struct PipelineEventRequest {
    /// Unique identifier of the event.
    pub event_id: String,
    /// Source platform.
    pub platform: String,
    /// Channel the message came from.
    pub channel_id: String,
    /// Author of the message.
    pub sender_id: String,
    /// Plain-text rendering of the message.
    pub raw_text: String,
    /// Typed segments of the message.
    pub segments: Vec<MessageSegment>,
}

/// An outbound message handed to a platform adapter.
#[derive(Clone, Debug, PartialEq, Eq)]
pub struct DeliverMessageRequest {
    /// Event that produced the message (may be empty).
    pub event_id: String,
    /// Destination platform.
    pub platform: String,
    /// Destination channel.
    pub channel_id: String,
    /// Destination recipient.
    pub recipient_id: String,
    /// Segments to deliver.
    pub segments: Vec<MessageSegment>,
}


/// Command metadata a plugin reports during its handshake.
#[derive(Clone, Debug, PartialEq, Eq)]
pub struct CommandMeta {
    /// Command trigger word (e.g. `rustcalc`).
    pub name: String,
    /// Short help text.
    pub description: String,
    /// Usage example.
    pub usage: String,
    /// Dispatch priority (lower wins).
    pub priority: i32,
}

/// Tool metadata a plugin reports during its handshake.
pub struct ToolMeta {
    /// Tool name exposed to the model.
    pub name: String,
    /// What the tool does.
    pub description: String,
    /// JSON Schema of the tool's parameters.
    pub parameters: Option<JsonValue>,
}

/// Metadata of one plugin loaded by a host.
pub struct PluginMeta {
    /// Plugin identifier.
    pub id: String,
    /// Display name.
    pub name: String,
    /// Version string.
    pub version: String,
    /// Author attribution.
    pub author: String,
    /// Short description.
    pub description: String,
    /// Declared slash commands, in declaration order.
    pub commands: Vec<CommandMeta>,
    /// Declared tools, in declaration order.
    pub tools: Vec<ToolMeta>,
}

} // verus!
