//! Requests for a system reset, as the watchdogs and the power controller make them.
use vstd::prelude::*;

verus! {

/// Why a system reset is due.
#[derive(Debug, Clone, Copy, PartialEq, Eq, Structural)]
pub enum ResetReason {
    /// The independent watchdog ran out.
    Iwdg,
    /// The window watchdog ran out or was fed too early.
    Wwdg,
    /// A wake-up left standby mode.
    LowPower,
}

/// The pending reset request, if any.
#[derive(Debug, Clone, Copy, PartialEq, Eq, Structural)]
pub struct WdogResetReq {
    pub reason: Option<ResetReason>,
}

impl WdogResetReq {
    pub fn new() -> (r: Self)
        ensures
            r.reason is None,
    {
        WdogResetReq { reason: None }
    }

    /// Asks for a reset; a later request replaces an earlier one.
    pub fn request(&mut self, reason: ResetReason)
        ensures
            final(self).reason == Some(reason),
    {
        self.reason = Some(reason);
    }

    pub fn is_pending(&self) -> (r: bool)
        ensures
            r == (self.reason is Some),
    {
        self.reason.is_some()
    }

    /// Hands out the request and forgets it.
    pub fn take(&mut self) -> (r: Option<ResetReason>)
        ensures
            r == old(self).reason,
            final(self).reason is None,
    {
        let r = self.reason;
        self.reason = None;
        r
    }
}

} // verus!
