//! The channel that carries messages to the worker threads.
//!
//! It is an unbounded channel of the `flume` crate. What this module says of that crate is not
//! proved.

use vstd::prelude::*;

verus! {

/// What is sent through the channel: the signal to stop, or the notice of a parked job, with the
/// number of the wait group that the job counts in.
#[derive(Clone, Copy, Debug, PartialEq, Eq, Structural)]
pub enum Ticket {
    Stop,
    Job(u64),
}

/// The sending end of a `flume` channel.
#[verifier::external_type_specification]
#[verifier::external_body]
#[verifier::reject_recursive_types(T)]
pub struct ExSender<T>(flume::Sender<T>);

/// The receiving end of a `flume` channel.
#[verifier::external_type_specification]
#[verifier::external_body]
#[verifier::reject_recursive_types(T)]
pub struct ExReceiver<T>(flume::Receiver<T>);

/// The error of `flume::Sender::send`.
#[verifier::external_type_specification]
#[verifier::external_body]
#[verifier::reject_recursive_types(T)]
pub struct ExSendError<T>(flume::SendError<T>);

/// The error of `flume::Receiver::recv`.
#[verifier::external_type_specification]
#[verifier::external_body]
pub struct ExRecvError(flume::RecvError);

/// The messages that wait in the channel of a receiver, the oldest first.
pub uninterp spec fn waiting(rx: flume::Receiver<Ticket>) -> Seq<Ticket>;

/// Whether two ends belong to the same unbounded channel, and no other end of it exists.
pub uninterp spec fn connected(tx: flume::Sender<Ticket>, rx: flume::Receiver<Ticket>) -> bool;

/// A channel with its only two ends.
///
/// `flume` ends can be cloned, and work on shared references. These are never cloned or handed
/// out, and the operations that change the messages take `&mut self`.
pub struct Channel {
    tx: flume::Sender<Ticket>,
    rx: flume::Receiver<Ticket>,
}

impl View for Channel {
    type V = Seq<Ticket>;

    /// The messages that wait in the channel, the oldest first.
    closed spec fn view(&self) -> Seq<Ticket> {
        waiting(self.rx)
    }
}

impl Channel {
    /// Whether the two ends belong together.
    pub closed spec fn wf(&self) -> bool {
        connected(self.tx, self.rx)
    }

    /// `flume::unbounded`: the two ends of a new channel, in which no message waits.
    #[verifier::external_body]
    fn unbounded() -> (ends: (flume::Sender<Ticket>, flume::Receiver<Ticket>))
        ensures
            connected(ends.0, ends.1),
            waiting(ends.1) == Seq::<Ticket>::empty(),
    {
        flume::unbounded()
    }

    /// A new channel without messages.
    pub fn new() -> (channel: Self)
        ensures
            channel.wf(),
            channel@ == Seq::<Ticket>::empty(),
    {
        let (tx, rx) = Self::unbounded();
        Channel { tx, rx }
    }

    /// `flume::Sender::send`: puts a message behind those that wait in the channel. It does not
    /// block, because the channel is unbounded, and does not fail, because the receiver exists.
    #[verifier::external_body]
    pub(crate) fn send(&mut self, ticket: Ticket) -> (sent: Result<(), flume::SendError<Ticket>>)
        requires
            old(self).wf(),
        ensures
            sent is Ok,
            final(self).wf(),
            final(self)@ == old(self)@.push(ticket),
    {
        self.tx.send(ticket)
    }

    /// `flume::Receiver::is_empty`: whether no message waits in the channel.
    #[verifier::external_body]
    pub(crate) fn is_empty(&self) -> (empty: bool)
        requires
            self.wf(),
        ensures
            empty == (self@.len() == 0),
    {
        self.rx.is_empty()
    }

    /// `flume::Receiver::recv`: takes the oldest message out of the channel. It would block on a
    /// channel without messages, so there has to be one.
    #[verifier::external_body]
    pub(crate) fn recv(&mut self) -> (received: Result<Ticket, flume::RecvError>)
        requires
            old(self).wf(),
            old(self)@.len() > 0,
        ensures
            received == Ok::<Ticket, flume::RecvError>(old(self)@[0]),
            final(self).wf(),
            final(self)@ == old(self)@.drop_first(),
    {
        self.rx.recv()
    }
}

} // verus!
