//! A cancellation flag shared between the task that polls for a device
//! token and the tasks that may stop it.

use std::sync::atomic::AtomicBool;
use std::sync::atomic::Ordering;
use std::sync::Arc;

use vstd::prelude::*;

verus! {

/// Cancels device-token polling from another task. Clones share one flag,
/// held in an atomic; once set it stays set, and a read sees what any task
/// has stored.
#[derive(Clone, Debug)]
pub struct CancellationToken {
    cancelled: Arc<AtomicBool>,
}

impl CancellationToken {
    /// A fresh flag, not set and shared with no other token.
    pub fn new() -> (token: Self) {
        CancellationToken { cancelled: Arc::new(AtomicBool::new(false)) }
    }

    /// Sets the flag.
    pub fn cancel(&self) {
        let flag: &AtomicBool = &self.cancelled;
        flag.store(true, Ordering::Release);
    }

    /// Whether any clone has been cancelled, as last stored by any task.
    pub fn is_cancelled(&self) -> (cancelled: bool) {
        let flag: &AtomicBool = &self.cancelled;
        flag.load(Ordering::Acquire)
    }
}

} // verus!
