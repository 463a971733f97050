//! Observers of a connection.
use vstd::prelude::*;

use std::sync::Arc;

use crate::session::{Context, Event};

verus! {

/// An observer: it is handed every event, with a snapshot of the
/// connection taken when the event was raised. Observers are called one
/// after the other, in the order they were registered, and should return
/// quickly: while one runs, no line is read.
pub trait EventHandler: Send + Sync {
    fn on_event(&self, ctx: Arc<Context>, event: Event) {
        let _ = event;
        let _ = ctx;
    }
}

} // verus!
