//! Retrying a read through a transient COM failure.

use vstd::prelude::*;

verus! {

/// How often a read is tried.
pub const ATTEMPTS: u32 = 3;

/// The pause between two attempts, in milliseconds.
pub const PAUSE_MS: u64 = 120;

/// A failure that means "try again", not "this cannot work", by its HRESULT.
///
/// The first shows up while an application is starting and UI Automation is
/// registering event handlers underneath; the others are the usual apartment
/// transients: a server busy, a call rejected, an element that went away in the
/// middle of a walk.
pub open spec fn transient(code: u32) -> bool {
    code == 0x8004_0201 || code == 0x8001_010a || code == 0x8001_0001 || code == 0x8004_0200
}

/// Whether a failure means "try again", by its HRESULT.
pub fn is_transient(code: u32) -> (r: bool)
    ensures
        r == transient(code),
{
    code == 0x8004_0201 || code == 0x8001_010a || code == 0x8001_0001 || code == 0x8004_0200
}

/// What to do after a failed attempt.
#[derive(Debug, Clone, Copy, PartialEq, Eq, Structural)]
pub enum Verdict {
    /// Pause so many milliseconds, and try again.
    Again { pause_ms: u64 },
    /// Report the failure as it is.
    Report,
}

/// A read that is being tried.
#[derive(Debug, Clone, Copy, PartialEq, Eq, Structural)]
pub struct Attempts {
    /// How many attempts have failed.
    pub failed: u32,
}

impl Attempts {
    /// There is an attempt left to make.
    pub open spec fn open(self) -> bool {
        self.failed < ATTEMPTS
    }

    /// What to do after a failure with that HRESULT; `None` for a failure that
    /// did not come from COM.
    pub open spec fn verdict(self, code: Option<u32>) -> Verdict {
        if code is Some && transient(code->0) && self.failed + 1 < ATTEMPTS {
            Verdict::Again { pause_ms: PAUSE_MS }
        } else {
            Verdict::Report
        }
    }

    /// Before the first attempt.
    pub fn new() -> (r: Attempts)
        ensures
            r.failed == 0,
            r.open(),
    {
        Attempts { failed: 0 }
    }

    /// Whether there is an attempt left to make.
    pub fn is_open(&self) -> (r: bool)
        ensures
            r == self.open(),
    {
        self.failed < ATTEMPTS
    }

    /// Records a failed attempt and says what to do.
    ///
    /// There is no pause after the last attempt: there is nothing left to wait
    /// for, and it would only delay the error.
    pub fn fail(&mut self, code: Option<u32>) -> (r: Verdict)
        requires
            old(self).open(),
        ensures
            r == old(self).verdict(code),
            final(self).failed == old(self).failed + 1,
            r is Again ==> final(self).open(),
    {
        let again = match code {
            Some(c) => is_transient(c) && self.failed + 1 < ATTEMPTS,
            None => false,
        };
        self.failed += 1;
        if again {
            Verdict::Again { pause_ms: PAUSE_MS }
        } else {
            Verdict::Report
        }
    }
}

} // verus!
