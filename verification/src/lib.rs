//! Bridge from a filtered upstream text-event stream to a set of nostr
//! relays: canonical event encoding and signing, relay-pool bookkeeping,
//! chunked-stream record handling, and filter-rule selection.

pub mod config;
pub mod crypto;
pub mod event;
pub mod ingest;
pub mod json;
pub mod pool;
pub mod rules;
