//! The bookkeeping of one window capture: which resources are held and
//! must be released (once), and what the frame-arrived callback answers.
use vstd::prelude::*;
use vstd::string::*;
use crate::cleanup::CleanupStep;
use crate::error::AppError;

verus! {

/// The resources a capture holds besides its frame pool: the token of
/// the registered frame-arrived handler and whether a session exists.
pub struct CaptureResources {
    handler_token: Option<i64>,
    has_session: bool,
    closed: bool,
}

/// The resources as plain values: handler token, session, closed.
pub struct ResourcesView {
    pub handler_token: Option<i64>,
    pub has_session: bool,
    pub closed: bool,
}

/// The steps that release the resources: nothing once released; else
/// close the session (if any), remove the handler (if registered), and
/// always close the frame pool, in this order.
pub open spec fn release_plan(v: ResourcesView) -> Seq<CleanupStep> {
    if v.closed {
        Seq::<CleanupStep>::empty()
    } else {
        let a = if v.has_session {
            seq![CleanupStep::CloseSession]
        } else {
            Seq::<CleanupStep>::empty()
        };
        let b = match v.handler_token {
            Some(t) => seq![CleanupStep::RemoveFrameArrived(t)],
            None => Seq::<CleanupStep>::empty(),
        };
        a + b + seq![CleanupStep::CloseFramePool]
    }
}

/// The resources after releasing: nothing is held any more and they are
/// marked released.
pub open spec fn after_release(v: ResourcesView) -> ResourcesView {
    if v.closed {
        v
    } else {
        ResourcesView { handler_token: None, has_session: false, closed: true }
    }
}

/// Releasing twice releases nothing the second time, and the frame pool
/// is closed exactly once.
pub proof fn lemma_release_once(v: ResourcesView)
    ensures
        release_plan(after_release(v)) == Seq::<CleanupStep>::empty(),
        after_release(after_release(v)) == after_release(v),
        !v.closed ==> release_plan(v).last() == CleanupStep::CloseFramePool,
{
}

impl CaptureResources {
    /// The resources as plain values.
    pub closed spec fn view_state(&self) -> ResourcesView {
        ResourcesView { handler_token: self.handler_token, has_session: self.has_session, closed: self.closed }
    }

    /// Resources of a fresh frame pool: no handler, no session.
    pub fn new() -> (r: Self)
        ensures
            r.view_state() == (ResourcesView { handler_token: None, has_session: false, closed: false }),
    {
        CaptureResources { handler_token: None, has_session: false, closed: false }
    }

    /// Records the token of the registered frame-arrived handler.
    pub fn set_handler_token(&mut self, token: i64)
        ensures
            final(self).view_state() == (ResourcesView { handler_token: Some(token), ..old(self).view_state() }),
    {
        self.handler_token = Some(token);
    }

    /// Records that a capture session exists.
    pub fn set_session(&mut self)
        ensures
            final(self).view_state() == (ResourcesView { has_session: true, ..old(self).view_state() }),
    {
        self.has_session = true;
    }

    /// Whether a session exists; `捕获会话尚未初始化` when none does.
    pub fn session(&self) -> (r: Result<(), AppError>)
        ensures
            r is Ok <==> self.view_state().has_session,
            r matches Err(e) ==> e.summary@ == "捕获会话尚未初始化"@ && e.detail@ == e.summary@,
    {
        if self.has_session {
            Ok(())
        } else {
            Err(AppError::msg("捕获会话尚未初始化"))
        }
    }

    /// Releases the resources: returns the steps to perform, in order,
    /// and forgets the session and handler; releasing again returns no
    /// step.
    pub fn close(&mut self) -> (steps: Vec<CleanupStep>)
        ensures
            steps@ == release_plan(old(self).view_state()),
            final(self).view_state() == after_release(old(self).view_state()),
    {
        let mut steps: Vec<CleanupStep> = Vec::new();
        if self.closed {
            return steps;
        }
        if self.has_session {
            steps.push(CleanupStep::CloseSession);
        }
        self.has_session = false;
        if let Some(token) = self.handler_token {
            steps.push(CleanupStep::RemoveFrameArrived(token));
        }
        self.handler_token = None;
        steps.push(CleanupStep::CloseFramePool);
        self.closed = true;
        assert(steps@ =~= release_plan(old(self).view_state()));
        steps
    }
}

/// What the frame-arrived callback reports: success when it got a frame
/// pool, else the text of the null-pointer error.
pub fn frame_arrival_report(pool_present: bool, missing_pool_error: String) -> (r: Result<(), String>)
    ensures
        pool_present ==> r is Ok,
        !pool_present ==> r == Err::<(), String>(missing_pool_error),
{
    if pool_present {
        Ok(())
    } else {
        Err(missing_pool_error)
    }
}

/// What became of offering a report to the one-slot channel.
#[derive(Clone, Copy, Debug, PartialEq, Eq)]
pub enum OfferOutcome {
    Sent,
    Full,
    Disconnected,
}

/// What the frame-arrived callback returns after offering its report: a
/// full channel already holds the first report, so that is fine too;
/// only a channel whose receiver is gone is an error.
pub fn frame_handler_result(outcome: OfferOutcome) -> (r: Result<(), String>)
    ensures
        outcome != OfferOutcome::Disconnected ==> r is Ok,
        outcome == OfferOutcome::Disconnected ==> (r matches Err(m) && m@ == "首帧通知接收端已关闭"@),
{
    match outcome {
        OfferOutcome::Sent | OfferOutcome::Full => Ok(()),
        OfferOutcome::Disconnected => Err(String::from_str("首帧通知接收端已关闭")),
    }
}

} // verus!
