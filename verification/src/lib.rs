//! Client-side logic of the Easy Agent desktop client: the per-tab page
//! navigation model, the RFC 3339 timestamp reader used to order sessions,
//! and the rendering of stored messages, mailbox rows and streamed events
//! into transcript lines.
use vstd::prelude::*;

pub mod text;
pub mod timestamp;
pub mod navigation;
pub mod agent;
pub mod sessions;
pub mod messages;
pub mod transcript;

verus! {
} // verus!
