//! Forwarding of inbound email that Amazon SES has received: the logic, without
//! its calls to AWS.
//!
//! - [`config`]: the configuration, read from environment variables.
//! - [`event`]: the SES event.
//! - [`forward`]: recipients to destinations, and the spam/virus gate.
//! - [`header`], [`rewrite`]: the header block of a raw message, and what
//!   becomes of it.
//! - [`idempotency`]: duplicate suppression.
//! - [`handler`]: the steps of handling an event.
//!
//! The modules that end in `_laws` state what holds of these as a whole.
use vstd::prelude::*;

pub use vstd::hash_map::StringHashMap;

pub mod config;
pub mod config_laws;
pub mod environment_laws;
pub mod event;
pub mod event_laws;
pub mod forward;
pub mod forward_laws;
pub mod handler;
pub mod handler_laws;
pub mod header;
pub mod idempotency;
pub mod idempotency_laws;
pub mod json;
pub mod message_laws;
pub mod resolution_laws;
pub mod rewrite;
pub mod rewrite_laws;
pub mod scan;
pub mod search;
pub mod text;
pub mod text_laws;

verus! {

} // verus!
