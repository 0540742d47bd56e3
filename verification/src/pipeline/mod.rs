//! The message pipeline: slash-command routing, the pre-filter chain, lifecycle observation
//! and dead-letter storage.
pub mod command;
pub mod dead_letter;
pub mod observer;
pub mod pre_filter;
