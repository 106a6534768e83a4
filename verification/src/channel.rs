//! The tokio tasks and channels behind an established connection.
use vstd::prelude::*;

use crate::ConnectionId;

verus! {

#[verifier::external_type_specification]
#[verifier::external_body]
pub struct ExTokioAbortHandle(tokio::task::AbortHandle);

#[verifier::external_type_specification]
#[verifier::external_body]
#[verifier::reject_recursive_types(T)]
pub struct ExUnboundedSender<T>(tokio::sync::mpsc::UnboundedSender<T>);

/// Stops a tokio task: `tokio::task::AbortHandle::abort`. Nothing is claimed
/// of the task's state afterwards.
#[verifier::external_body]
pub(crate) fn abort_task(task: &tokio::task::AbortHandle) {
    task.abort()
}

/// Queues `message` on an unbounded tokio channel:
/// `tokio::sync::mpsc::UnboundedSender::send`. The result is `true` when the
/// message was queued and `false` when the receiving half was already closed;
/// which of the two happens depends on the other side of the channel, so
/// nothing is claimed of it.
#[verifier::external_body]
pub(crate) fn send_on_channel<T>(sender: &tokio::sync::mpsc::UnboundedSender<T>, message: T) -> bool {
    sender.send(message).is_ok()
}

/// The tasks that its owner has stopped, in the order in which it stopped
/// them. A task enters the record only through [`StopLog::stop`], which aborts
/// it.
pub struct StopLog {
    stopped: Ghost<Seq<tokio::task::AbortHandle>>,
}

impl StopLog {
    /// The handles of the stopped tasks, oldest first.
    pub closed spec fn stopped(&self) -> Seq<tokio::task::AbortHandle> {
        self.stopped@
    }

    /// A record of no stopped task.
    pub fn new() -> (r: StopLog)
        ensures
            r.stopped() == Seq::<tokio::task::AbortHandle>::empty(),
    {
        StopLog { stopped: Ghost(Seq::empty()) }
    }

    /// Aborts the task of `task`, and records it.
    pub fn stop(&mut self, task: &tokio::task::AbortHandle)
        ensures
            final(self).stopped() == old(self).stopped().push(*task),
    {
        abort_task(task);
        proof {
            self.stopped@ = self.stopped@.push(*task);
        }
    }
}

/// The packets that its owner has handed to the channels of connections, in
/// order: for each, the id of the connection and whether the channel accepted
/// it. A hand-over enters the record only through [`SendLog::send`], which
/// makes it.
pub struct SendLog {
    attempts: Ghost<Seq<(ConnectionId, bool)>>,
}

impl SendLog {
    /// Each hand-over: the connection's id, and whether the channel accepted
    /// the packet; oldest first.
    pub closed spec fn attempts(&self) -> Seq<(ConnectionId, bool)> {
        self.attempts@
    }

    /// A record of no hand-over.
    pub fn new() -> (r: SendLog)
        ensures
            r.attempts() == Seq::<(ConnectionId, bool)>::empty(),
    {
        SendLog { attempts: Ghost(Seq::empty()) }
    }

    /// Hands `message` to the channel `sender` of connection `id`, and records
    /// the hand-over with its outcome: `true` when the channel accepted it.
    pub fn send<T>(
        &mut self,
        id: ConnectionId,
        sender: &tokio::sync::mpsc::UnboundedSender<T>,
        message: T,
    ) -> (r: bool)
        ensures
            final(self).attempts() == old(self).attempts().push((id, r)),
    {
        let r = send_on_channel(sender, message);
        proof {
            self.attempts@ = self.attempts@.push((id, r));
        }
        r
    }
}

} // verus!
