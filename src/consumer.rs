use vstd::prelude::*;
use vstd::utf8::valid_utf8;

use crate::shared::SharedStore;
use crate::store::{fold_step, Aggregate, ApplyError, Message, StateStore, Variant};

verus! {

/// What the broker's subscription hands the consumption loop next.
#[derive(Debug)]
pub enum Delivery {
    /// A message to fold.
    Message(Message),
    /// The subscription ended.
    Closed,
    /// The subscription reported an error.
    Failed,
}

/// Why the consumption loop stopped.
#[derive(Clone, Copy, Debug, PartialEq, Eq, Structural)]
pub enum BrokerConnectionError {
    Closed,
    Failed,
}

/// What the consumption loop does after handling a delivery.
#[derive(Clone, Copy, Debug, PartialEq, Eq, Structural)]
pub enum Action {
    /// The message was folded: acknowledge it, then receive the next one.
    Acknowledge,
    /// The message was not folded: do not acknowledge it, and receive the next.
    LeaveUnacknowledged(ApplyError),
    /// The subscription is gone: stop the loop.
    Stop(BrokerConnectionError),
}

/// The action that follows the outcome of a fold: acknowledge only a message
/// that was folded.
pub fn disposition(outcome: Result<(), ApplyError>) -> (r: Action)
    ensures
        outcome is Ok ==> r == Action::Acknowledge,
        outcome is Err ==> r == Action::LeaveUnacknowledged(outcome->Err_0),
{
    match outcome {
        Ok(()) => Action::Acknowledge,
        Err(e) => Action::LeaveUnacknowledged(e),
    }
}

/// The action that ends the loop when the subscription is gone, or `None`
/// for a message.
pub open spec fn stop_action(event: Delivery) -> Option<Action> {
    match event {
        Delivery::Message(_) => None,
        Delivery::Closed => Some(Action::Stop(BrokerConnectionError::Closed)),
        Delivery::Failed => Some(Action::Stop(BrokerConnectionError::Failed)),
    }
}

impl StateStore {
    /// One turn of the consumption loop on a store of its own: fold a delivered
    /// message and say whether to acknowledge it, or stop when the
    /// subscription is gone.
    pub fn handle(&mut self, event: Delivery) -> (r: Action)
        requires
            old(self).wf(),
        ensures
            final(self).wf(),
            final(self).variant() == old(self).variant(),
            stop_action(event) is Some ==> r == stop_action(event)->Some_0 && final(self)@ == old(
                self,
            )@,
            event is Message ==> ({
                let m = event->Message_0;
                &&& r == Action::LeaveUnacknowledged(ApplyError::Decode) <==> !valid_utf8(
                    m.payload@,
                )
                &&& r == Action::Acknowledge <==> valid_utf8(m.payload@) && old(self)@
                    != Aggregate::Count(u64::MAX as nat)
                &&& r == Action::Acknowledge ==> final(self)@ == fold_step(old(self)@, m@)
                &&& r != Action::Acknowledge ==> final(self)@ == old(self)@
                &&& r is Acknowledge || r is LeaveUnacknowledged
            }),
    {
        match event {
            Delivery::Message(m) => disposition(self.apply(m.topic.as_str(), m.payload.as_slice())),
            Delivery::Closed => Action::Stop(BrokerConnectionError::Closed),
            Delivery::Failed => Action::Stop(BrokerConnectionError::Failed),
        }
    }
}

impl SharedStore {
    /// One turn of the consumption loop on a shared store: fold a delivered
    /// message under the write lock and say whether to acknowledge it, or stop
    /// when the subscription is gone.
    pub fn handle(&self, event: Delivery) -> (r: Action)
        requires
            self.wf(),
        ensures
            stop_action(event) is Some ==> r == stop_action(event)->Some_0,
            event is Message ==> ({
                let m = event->Message_0;
                &&& r == Action::LeaveUnacknowledged(ApplyError::Decode) <==> !valid_utf8(
                    m.payload@,
                )
                &&& self.variant() == Variant::KeyValue ==> (r == Action::Acknowledge
                    <==> valid_utf8(m.payload@))
                &&& r is Acknowledge || r is LeaveUnacknowledged
            }),
    {
        match event {
            Delivery::Message(m) => disposition(self.apply(m.topic.as_str(), m.payload.as_slice())),
            Delivery::Closed => Action::Stop(BrokerConnectionError::Closed),
            Delivery::Failed => Action::Stop(BrokerConnectionError::Failed),
        }
    }
}

} // verus!
