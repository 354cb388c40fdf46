//! What the forum keeps, and what it decides about it: rows come in, and what
//! is shown, written or refused goes out. Where the rows are kept is not known
//! here.
use vstd::prelude::*;

pub mod accounts;
pub mod attachments;
pub mod directory;
pub mod events;
pub mod inbox;
pub mod likes;
pub mod outbox;
pub mod search;
pub mod subscriptions;
pub mod topics;

verus! {

/// What is announced when the space is not known: every watcher asks again.
pub const EVERY_SPACE: &'static str = "*";

} // verus!
