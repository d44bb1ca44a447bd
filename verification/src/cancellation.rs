//! A cancellation signal shared between a run and whoever may stop it.
use std::sync::atomic::AtomicBool;
use std::sync::Arc;

use vstd::prelude::*;

verus! {

/// A flag that any holder of a clone can raise, and that a running
/// operation checks between steps. Once raised it stays raised.
#[derive(Debug, Clone)]
pub struct CancellationToken {
    cancelled: Arc<AtomicBool>,
}

impl CancellationToken {
    /// A token that has not been cancelled.
    pub fn new() -> (r: Self) {
        CancellationToken { cancelled: Arc::new(AtomicBool::new(false)) }
    }

    /// Raise the flag for every clone of this token.
    pub fn cancel(&self) {
        self.cancelled.store(true, std::sync::atomic::Ordering::SeqCst);
    }

    /// Whether the flag has been raised. Another holder may raise it at
    /// any moment, so the answer holds only for the instant it was read.
    pub fn is_cancelled(&self) -> (r: bool) {
        self.cancelled.load(std::sync::atomic::Ordering::SeqCst)
    }
}

impl Default for CancellationToken {
    fn default() -> (r: Self) {
        Self::new()
    }
}

} // verus!
