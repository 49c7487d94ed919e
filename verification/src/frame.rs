//! Handing on the first frame only: the frame-arrived callback fires for
//! every frame, but only the first one is sent to the waiting capture.
use vstd::prelude::*;
use std::sync::mpsc::Sender;

verus! {

#[verifier::external_type_specification]
#[verifier::external_body]
#[verifier::reject_recursive_types(T)]
pub struct ExSender<T>(Sender<T>);

/// A channel's sending end together with the record of every value
/// handed to `Sender::send` through it.
#[verifier::reject_recursive_types(T)]
pub struct LoggedSender<T> {
    sender: Sender<T>,
    log: Ghost<Seq<T>>,
}

impl<T> LoggedSender<T> {
    /// The values handed to `Sender::send` so far, in order.
    pub closed spec fn log(&self) -> Seq<T> {
        self.log@
    }

    /// Wraps a sending end through which nothing has been sent yet.
    pub fn new(sender: Sender<T>) -> (s: Self)
        ensures
            s.log() == Seq::<T>::empty(),
    {
        LoggedSender { sender, log: Ghost(Seq::empty()) }
    }

    /// `Sender::send`: hands `value` to the channel, which the record
    /// notes. Whether the receiver still exists decides the result, so
    /// nothing is stated of it.
    #[verifier::external_body]
    pub fn send(&mut self, value: T) -> (delivered: bool)
        ensures
            final(self).log() == old(self).log().push(value),
    {
        self.sender.send(value).is_ok()
    }
}

/// Sends the first value it is given and ignores the rest.
#[verifier::reject_recursive_types(T)]
pub struct FirstFrameSender<T> {
    channel: LoggedSender<T>,
    sent: bool,
}

impl<T> FirstFrameSender<T> {
    /// The values this sender has handed to `Sender::send`.
    pub closed spec fn delivered(&self) -> Seq<T> {
        self.channel.log()
    }

    /// Whether the first value has been handed on.
    pub closed spec fn sent(&self) -> bool {
        self.sent
    }

    /// The invariant: at most one value was handed to `Sender::send`, and
    /// one was exactly when the flag is set.
    pub closed spec fn wf(&self) -> bool {
        self.channel.log().len() == if self.sent {
            1int
        } else {
            0int
        }
    }

    /// A sender that has sent nothing yet.
    pub fn new(sender: Sender<T>) -> (s: Self)
        ensures
            s.wf(),
            !s.sent(),
            s.delivered() == Seq::<T>::empty(),
    {
        FirstFrameSender { channel: LoggedSender::new(sender), sent: false }
    }

    /// Whether the first value has been sent.
    pub fn has_sent(&self) -> (r: bool)
        ensures
            r == self.sent(),
    {
        self.sent
    }

    /// Hands `value` to `Sender::send` if nothing was handed on before;
    /// later values are dropped. A closed receiver is tolerated.
    pub fn try_send(&mut self, value: T)
        requires
            old(self).wf(),
        ensures
            final(self).wf(),
            final(self).sent(),
            final(self).delivered() == if old(self).sent() {
                old(self).delivered()
            } else {
                seq![value]
            },
    {
        if self.sent {
            return;
        }
        let _ = self.channel.send(value);
        self.sent = true;
    }
}

} // verus!
