//! Kanon core library: the verified logic of the microkernel and its developer toolchain.
pub mod adapter;
pub mod clock;
pub mod dev;
pub mod instance;
pub mod ipc;
pub mod json;
pub mod manifest;
pub mod mcp;
pub mod message;
pub mod order;
pub mod pipeline;
pub mod plugin_state;
pub mod skill;
pub mod string_map;
pub mod supervisor;
pub mod text;
pub mod toggle;
