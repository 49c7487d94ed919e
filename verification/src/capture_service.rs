//! The capture service is started on first use and only once; its
//! outcome, a running service or the reason it could not start, is kept
//! and given to every later caller.
use vstd::prelude::*;
use crate::error::AppError;

verus! {

/// The state of a service started on first use.
pub enum ServiceState<S> {
    /// Not asked for yet.
    Unstarted,
    /// Started.
    Running(S),
    /// Could not start; the summary of why.
    Failed(String),
}

/// The state that a start attempt leaves: the service, or the summary of
/// its error.
pub open spec fn state_after_start<S>(res: Result<S, AppError>) -> ServiceState<S> {
    match res {
        Ok(s) => ServiceState::Running(s),
        Err(e) => ServiceState::Failed(e.summary),
    }
}

/// Whether `r` is what asking a service in `state` reports: success for a
/// running service, else an error whose text is the kept reason.
pub open spec fn reports_state<S, T>(state: ServiceState<S>, r: Result<T, AppError>) -> bool {
    match state {
        ServiceState::Unstarted => false,
        ServiceState::Running(_) => r is Ok,
        ServiceState::Failed(m) => r matches Err(e) && e.summary@ == m@ && e.detail@ == m@,
    }
}

/// A service that is started on first use, at most once.
pub struct ServiceSlot<S> {
    state: ServiceState<S>,
}

impl<S> ServiceSlot<S> {
    /// The state of the service.
    pub closed spec fn state(&self) -> ServiceState<S> {
        self.state
    }

    /// A slot whose service has not been started.
    pub fn new() -> (slot: Self)
        ensures
            slot.state() is Unstarted,
    {
        ServiceSlot { state: ServiceState::Unstarted }
    }

    /// Starts the service with `start` unless a start was already tried,
    /// and keeps the outcome.
    pub fn start_once<F: FnOnce() -> Result<S, AppError>>(&mut self, start: F)
        requires
            old(self).state() is Unstarted ==> call_requires(start, ()),
        ensures
            !(final(self).state() is Unstarted),
            old(self).state() is Unstarted ==> exists|res: Result<S, AppError>|
                call_ensures(start, (), res) && final(self).state() == state_after_start(res),
            !(old(self).state() is Unstarted) ==> final(self).state() == old(self).state(),
    {
        if let ServiceState::Unstarted = self.state {
            let res = start();
            let ghost outcome = res;
            self.state = match res {
                Ok(s) => ServiceState::Running(s),
                Err(e) => ServiceState::Failed(e.summary),
            };
            assert(call_ensures(start, (), outcome) && self.state == state_after_start(outcome));
        }
    }

    /// The running service, or the reason it could not start
    /// (`capture_service`).
    pub fn service(&self) -> (r: Result<&S, AppError>)
        requires
            !(self.state() is Unstarted),
        ensures
            reports_state(self.state(), r),
            self.state() matches ServiceState::Running(s) ==> r == Ok::<&S, AppError>(&s),
    {
        match &self.state {
            ServiceState::Running(s) => Ok(s),
            ServiceState::Failed(m) => Err(AppError::from_text(m.clone())),
            ServiceState::Unstarted => {
                // excluded by the precondition
                proof {
                    assert(false);
                }
                Err(AppError::msg("截图服务尚未启动"))
            },
        }
    }
}

/// Makes sure the service has been started (starting it with `start` on
/// the first call) and reports whether it runs. Warming up again starts
/// nothing, changes nothing and reports the same.
pub fn warmup_capture_service<S, F: FnOnce() -> Result<S, AppError>>(slot: &mut ServiceSlot<S>, start: F) -> (r: Result<(), AppError>)
    requires
        old(slot).state() is Unstarted ==> call_requires(start, ()),
    ensures
        reports_state(final(slot).state(), r),
        old(slot).state() is Unstarted ==> exists|res: Result<S, AppError>|
            call_ensures(start, (), res) && final(slot).state() == state_after_start(res),
        !(old(slot).state() is Unstarted) ==> final(slot).state() == old(slot).state(),
{
    slot.start_once(start);
    match slot.service() {
        Ok(_) => Ok(()),
        Err(e) => Err(e),
    }
}

/// Warming up is idempotent: once a start was tried, every warm-up
/// reports the same outcome, the one the kept state gives.
pub proof fn lemma_warmup_idempotent<S>(
    state: ServiceState<S>,
    first: Result<(), AppError>,
    second: Result<(), AppError>,
)
    requires
        reports_state(state, first),
        reports_state(state, second),
    ensures
        first is Ok <==> second is Ok,
        first matches Err(e1) ==> (second matches Err(e2) && e1.summary@ == e2.summary@ && e1.detail@
            == e2.detail@),
{
}

} // verus!
