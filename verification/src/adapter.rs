//! Platform adapters: errors, console descriptors and the registry of built-in adapters.
//!
//! A platform adapter owns exactly one platform identifier. Built-in adapters live in-process
//! and are registered here; plugin adapters are derived from host manifests by the supervisor,
//! so a crashed host never leaves a stale routing entry behind.
use vstd::prelude::*;

use crate::string_map::StringMap;
use crate::supervisor::circuit_breaker::CircuitState;

verus! {

/// Errors raised by a platform adapter or by adapter routing.
#[derive(Debug)]
pub enum AdapterError {
    /// The platform refused the message or the transport to it failed.
    Delivery {
        /// Platform identifier that failed.
        platform: String,
        /// Reason reported by the adapter or plugin host.
        reason: String,
    },
    /// The adapter is registered but not usable (e.g. a missing callback URL).
    Configuration {
        /// Platform identifier that is misconfigured.
        platform: String,
        /// What is missing or invalid.
        reason: String,
    },
    /// No built-in adapter and no plugin declares the requested platform.
    UnknownPlatform(String),
    /// A platform identifier was declared twice.
    DuplicatePlatform(String),
    /// Inbound payload verification failed.
    Authentication {
        /// Platform identifier where authentication failed.
        platform: String,
        /// Reason reported by the verification logic.
        reason: String,
    },
}

/// Outcome of a refused inbound ingest attempt.
#[derive(Debug, Clone, Copy, PartialEq, Eq, Structural)]
pub enum IngestError {
    /// The ingest queue reached its high-watermark.
    QueueFull,
    /// The pipeline worker stopped; the core is shutting down.
    Closed,
}

/// Origin of an adapter registration.
#[derive(Debug, Clone, Copy, PartialEq, Eq, Structural)]
pub enum AdapterKind {
    /// In-process adapter registered on the [`AdapterRegistry`].
    Builtin,
    /// Plugin host whose manifest declares the platform.
    Plugin,
}

/// Console-facing description of a platform adapter.
pub struct AdapterDescriptor {
    /// Platform identifier used for routing.
    pub platform: String,
    /// Human-readable name.
    pub display_name: String,
    /// Whether the adapter lives in-process or in a plugin host.
    pub kind: AdapterKind,
    /// Whether the adapter can currently deliver messages.
    pub connected: bool,
    /// State of the adapter's outbound circuit breaker.
    pub circuit_state: CircuitState,
    /// Owning plugin identifier (plugin adapters only).
    pub plugin_id: Option<String>,
    /// Owning host process identifier (plugin adapters only).
    pub host_id: Option<String>,
}

impl AdapterError {
    /// Human-readable message of the error.
    pub fn message(&self) -> (r: String)
        ensures
            r@ == adapter_error_text(*self),
    {
        let mut s = String::new();
        match self {
            AdapterError::Delivery { platform, reason } => {
                crate::text::push_str(&mut s, "adapter '");
                crate::text::push_str(&mut s, platform.as_str());
                crate::text::push_str(&mut s, "' delivery failed: ");
                crate::text::push_str(&mut s, reason.as_str());
            },
            AdapterError::Configuration { platform, reason } => {
                crate::text::push_str(&mut s, "adapter '");
                crate::text::push_str(&mut s, platform.as_str());
                crate::text::push_str(&mut s, "' is not configured: ");
                crate::text::push_str(&mut s, reason.as_str());
            },
            AdapterError::UnknownPlatform(p) => {
                crate::text::push_str(&mut s, "no adapter is registered for platform '");
                crate::text::push_str(&mut s, p.as_str());
                crate::text::push_str(&mut s, "'");
            },
            AdapterError::DuplicatePlatform(p) => {
                crate::text::push_str(&mut s, "platform '");
                crate::text::push_str(&mut s, p.as_str());
                crate::text::push_str(&mut s, "' is already served by another adapter");
            },
            AdapterError::Authentication { platform, reason } => {
                crate::text::push_str(&mut s, "adapter '");
                crate::text::push_str(&mut s, platform.as_str());
                crate::text::push_str(&mut s, "' authentication failed: ");
                crate::text::push_str(&mut s, reason.as_str());
            },
        }
        s
    }
}

/// Message of an adapter error.
pub open spec fn adapter_error_text(e: AdapterError) -> Seq<char> {
    match e {
        AdapterError::Delivery { platform, reason } => "adapter '"@ + platform@ + "' delivery failed: "@ + reason@,
        AdapterError::Configuration { platform, reason } => "adapter '"@ + platform@ + "' is not configured: "@ + reason@,
        AdapterError::UnknownPlatform(p) => "no adapter is registered for platform '"@ + p@ + "'"@,
        AdapterError::DuplicatePlatform(p) => "platform '"@ + p@ + "' is already served by another adapter"@,
        AdapterError::Authentication { platform, reason } => "adapter '"@ + platform@ + "' authentication failed: "@ + reason@,
    }
}

/// Registry of built-in adapters, keyed by the platform each one owns.
///
/// `A` is the handle of an adapter (in practice a shared pointer to the adapter object).
pub struct AdapterRegistry<A> {
    adapters: StringMap<A>,
}

impl<A> AdapterRegistry<A> {
    /// Adapters by platform.
    pub closed spec fn view(&self) -> Map<Seq<char>, A> {
        self.adapters@
    }

    /// Creates an empty registry.
    pub fn new() -> (r: Self)
        ensures
            r@ == Map::<Seq<char>, A>::empty(),
    {
        AdapterRegistry { adapters: StringMap::new() }
    }

    /// Registers the adapter serving `platform`; a platform already served is refused so that
    /// routing never depends on startup order.
    pub fn register(&mut self, platform: String, adapter: A) -> (r: Result<(), AdapterError>)
        ensures
            old(self)@.dom().contains(platform@) ==> (r matches Err(AdapterError::DuplicatePlatform(p)) && p@ == platform@)
                && final(self)@ == old(self)@,
            !old(self)@.dom().contains(platform@) ==> r is Ok && final(self)@ == old(self)@.insert(platform@, adapter),
    {
        if self.adapters.contains_key(platform.as_str()) {
            return Err(AdapterError::DuplicatePlatform(platform));
        }
        self.adapters.insert(platform, adapter);
        Ok(())
    }

    /// Removes the adapter serving `platform`, returning it when present.
    pub fn unregister(&mut self, platform: &str) -> (r: Option<A>)
        ensures
            final(self)@ == old(self)@.remove(platform@),
            r matches Some(a) ==> old(self)@.dom().contains(platform@) && old(self)@[platform@] == a,
            r is None ==> !old(self)@.dom().contains(platform@),
    {
        self.adapters.remove(platform)
    }

    /// The adapter serving `platform`.
    pub fn get(&self, platform: &str) -> (r: Option<&A>)
        ensures
            r matches Some(a) ==> self@.dom().contains(platform@) && self@[platform@] == *a,
            r is None ==> !self@.dom().contains(platform@),
    {
        self.adapters.get(platform)
    }

    /// Registered platforms in ascending order.
    pub closed spec fn platforms(&self) -> Seq<Seq<char>> {
        self.adapters.key_seq()
    }

    /// Every registered adapter, ordered by platform.
    pub fn list(&self) -> (r: Vec<&A>)
        ensures
            r@.len() == self.platforms().len(),
            self.platforms().to_set() == self@.dom(),
            forall|i: int| 0 <= i < r@.len() ==> self@[self.platforms()[i]] == *#[trigger] r@[i],
    {
        self.adapters.facts();
        let n = self.adapters.len();
        let mut out: Vec<&A> = Vec::new();
        for i in 0..n
            invariant
                n == self.adapters.key_seq().len(),
                out@.len() == i,
                forall|j: int| 0 <= j < self.adapters.key_seq().len() ==> #[trigger] self.adapters@[self.adapters.key_seq()[j]] == self.adapters.value_seq()[j],
                forall|j: int| 0 <= j < out@.len() ==> self.adapters@[self.adapters.key_seq()[j]] == *#[trigger] out@[j],
        {
            let a = self.adapters.value_at(i);
            out.push(a);
        }
        out
    }

    /// Number of registered adapters.
    pub fn len(&self) -> (r: usize)
        ensures
            r == self@.dom().len(),
    {
        self.adapters.facts();
        self.adapters.len()
    }

    /// Whether no adapter is registered.
    pub fn is_empty(&self) -> (r: bool)
        ensures
            r == (self@.dom().len() == 0),
    {
        self.len() == 0
    }
}

} // verus!
