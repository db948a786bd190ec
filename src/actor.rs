//! State actors, the observations they emit, and the bounded channel that
//! carries observations to the aggregator.
use vstd::prelude::*;
use tokio::sync::mpsc::{Receiver, Sender};
use tokio::sync::mpsc::error::TrySendError;

verus! {

#[verifier::external_type_specification]
#[verifier::external_body]
#[verifier::reject_recursive_types(T)]
pub struct ExSender<T>(Sender<T>);

#[verifier::external_type_specification]
#[verifier::external_body]
#[verifier::reject_recursive_types(T)]
pub struct ExReceiver<T>(Receiver<T>);

/// The largest capacity the channel accepts.
pub const MAX_CHANNEL_CAPACITY: usize = usize::MAX / 8;

/// One sample reported by the actor at `source` (row, column): the pair
/// `(x, y)` whose ratio drives the update of that cell.
#[derive(Debug, Clone, Copy)]
pub struct Observation {
    pub source: [u8; 2],
    pub x: i64,
    pub y: i64,
}

/// Why an actor's send did not go through.
#[derive(Debug, Clone, Copy, PartialEq, Eq, Structural)]
pub enum StateErr {
    /// The actor was never given a channel handle.
    NoProducer,
    /// The channel is full; the observation was not sent.
    Full,
    /// The aggregator is gone: no further observation can be delivered.
    SendFail,
}

/// What `try_send` hands back on failure, with the observation it did not send.
pub enum TrySendFailure {
    Full(Observation),
    Closed(Observation),
}

/// Relies on tokio::sync::mpsc::channel: a bounded channel of `capacity`
/// slots; it panics on a capacity of zero or above the semaphore's limit
/// (`usize::MAX >> 3`), which `requires` leaves out.
#[verifier::external_body]
pub(crate) fn open_channel(capacity: usize) -> (Sender<Observation>, Receiver<Observation>)
    requires
        0 < capacity <= MAX_CHANNEL_CAPACITY,
{
    tokio::sync::mpsc::channel(capacity)
}

/// Relies on `Clone for tokio::sync::mpsc::Sender`: a new handle on the same channel.
#[verifier::external_body]
pub(crate) fn clone_sender(s: &Sender<Observation>) -> Sender<Observation> {
    s.clone()
}

/// Relies on tokio::sync::mpsc::Sender::try_send: it either queues the message
/// or hands the same message back, marked full or closed.
#[verifier::external_body]
pub(crate) fn try_send(s: &Sender<Observation>, o: Observation) -> (r: Result<(), TrySendFailure>)
    ensures
        r matches Err(TrySendFailure::Full(b)) ==> b == o,
        r matches Err(TrySendFailure::Closed(b)) ==> b == o,
{
    match s.try_send(o) {
        Ok(()) => Ok(()),
        Err(TrySendError::Full(b)) => Err(TrySendFailure::Full(b)),
        Err(TrySendError::Closed(b)) => Err(TrySendFailure::Closed(b)),
    }
}

/// An actor standing for one state of the chain, at `(row, column)`.
pub struct State {
    state: [u8; 2],
    producer: Option<Sender<Observation>>,
}

impl State {
    pub closed spec fn spec_state(&self) -> [u8; 2] {
        self.state
    }

    pub closed spec fn has_producer(&self) -> bool {
        self.producer is Some
    }

    /// The handle on the channel the actor sends into, if any.
    pub closed spec fn spec_producer(&self) -> Option<Sender<Observation>> {
        self.producer
    }

    /// An actor for the state at `state`, not yet connected to a channel.
    pub fn new(state: [u8; 2]) -> (s: State)
        ensures
            s.spec_state() == state,
            !s.has_producer(),
            s.spec_producer() is None,
    {
        State { state, producer: None }
    }

    /// Connects the actor to the channel; it replaces any earlier handle.
    pub fn add_producer(&mut self, producer: Sender<Observation>)
        ensures
            final(self).spec_state() == old(self).spec_state(),
            final(self).has_producer(),
            final(self).spec_producer() == Some(producer),
    {
        self.producer = Some(producer)
    }

    pub fn state(&self) -> (r: [u8; 2])
        ensures
            r == self.spec_state(),
    {
        self.state
    }

    /// The observation `(x, y)`, tagged with this actor's state.
    pub fn observation(&self, x: i64, y: i64) -> (o: Observation)
        ensures
            o.source == self.spec_state(),
            o.x == x,
            o.y == y,
    {
        Observation { source: self.state, x, y }
    }

    /// A handle on the actor's channel, if it has one.
    pub fn sender(&self) -> (r: Option<Sender<Observation>>)
        ensures
            r is Some <==> self.has_producer(),
    {
        match &self.producer {
            Some(p) => Some(clone_sender(p)),
            None => None,
        }
    }

    /// Sends `(x, y)` without waiting: fails with `Full` where the channel has
    /// no free slot, and with `SendFail` where the aggregator is gone.
    pub fn try_send_state(&self, x: i64, y: i64) -> (r: Result<(), StateErr>)
        ensures
            r == Err::<(), StateErr>(StateErr::NoProducer) <==> !self.has_producer(),
    {
        match &self.producer {
            None => Err(StateErr::NoProducer),
            Some(p) => match try_send(p, self.observation(x, y)) {
                Ok(()) => Ok(()),
                Err(TrySendFailure::Full(_)) => Err(StateErr::Full),
                Err(TrySendFailure::Closed(_)) => Err(StateErr::SendFail),
            },
        }
    }
}

} // verus!
