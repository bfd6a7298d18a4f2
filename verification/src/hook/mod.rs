//! Hooks: what agents report, where the reports wait, and how they are answered.

pub mod cmd;
pub mod diff;
pub mod holds;
pub mod inbox;
pub mod ingest;
pub mod install;
pub mod receiver;
pub mod record;

pub use inbox::{Delivery, Envelope, HookError, Inbox};
pub use receiver::{Received, Receiver, RespondError};
