//! The first-frame signal: the frame-arrived callback reports whether
//! the first frame came (or what went wrong), and the waiting capture
//! takes that report. Only the first report counts.
use vstd::prelude::*;

verus! {

/// Holds the first report of a frame arrival until it is taken.
pub struct FirstFrameSignal {
    sent: bool,
    result: Option<Result<(), String>>,
}

impl FirstFrameSignal {
    /// Whether a report has been given.
    pub closed spec fn sent(&self) -> bool {
        self.sent
    }

    /// The report waiting to be taken, if any.
    pub closed spec fn pending(&self) -> Option<Result<(), String>> {
        self.result
    }

    /// A signal with no report yet.
    pub fn new() -> (s: Self)
        ensures
            !s.sent(),
            s.pending() is None,
    {
        FirstFrameSignal { sent: false, result: None }
    }

    /// Whether a report has been given.
    pub fn has_sent(&self) -> (r: bool)
        ensures
            r == self.sent(),
    {
        self.sent
    }

    /// Gives a report. Only the first report is kept; a later one is
    /// ignored. Returns whether this report was kept, in which case the
    /// waiting side is to be woken.
    pub fn try_signal(&mut self, value: Result<(), String>) -> (kept: bool)
        ensures
            kept == !old(self).sent(),
            final(self).sent(),
            kept ==> final(self).pending() == Some(value),
            !kept ==> final(self).pending() == old(self).pending(),
    {
        if self.sent {
            return false;
        }
        self.sent = true;
        self.result = Some(value);
        true
    }

    /// Takes the waiting report, leaving none.
    pub fn take_result(&mut self) -> (r: Option<Result<(), String>>)
        ensures
            r == old(self).pending(),
            final(self).pending() is None,
            final(self).sent() == old(self).sent(),
    {
        self.result.take()
    }
}

} // verus!
