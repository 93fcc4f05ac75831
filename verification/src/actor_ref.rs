//! Actor references: handles through which messages are sent to an actor's
//! inbox.
//!
//! A reference comes in three flavours — for an actor on the same thread, on
//! the same machine, or on a remote machine — combined into the one
//! [`ActorRef`] type. Sending a message through any flavour only enqueues it
//! into the actor's inbox: a returned `Ok` does not mean the message was
//! handled.

use vstd::prelude::*;

use crate::inbox::{Channel, SendError, Sender};

verus! {

/// A reference to an actor, used to send messages to it.
#[derive(Debug)]
pub enum ActorRef<M> {
    /// A reference to a local actor, running on the same thread.
    Local(Sender<M>),
    /// A reference to an actor running on the same machine.
    Machine(Sender<M>),
    /// A reference to a remote actor, running on a different machine.
    Remote(Sender<M>),
}

impl<M> ActorRef<M> {
    /// The key of the inbox this reference delivers to.
    pub open spec fn spec_key(self) -> u64 {
        match self {
            ActorRef::Local(sender) => sender.chan_key(),
            ActorRef::Machine(sender) => sender.chan_key(),
            ActorRef::Remote(sender) => sender.chan_key(),
        }
    }

    /// A reference to a local actor, delivering through `sender`.
    pub fn local(sender: Sender<M>) -> (r: ActorRef<M>)
        ensures
            r.spec_key() == sender.chan_key(),
    {
        ActorRef::Local(sender)
    }

    /// Send a message to the actor: enqueue it into the inbox `chan`. Fails
    /// with `Full` exactly when no inbox slot is empty and with
    /// `Disconnected` exactly when the actor (and its inbox manager) is
    /// gone; in both cases the message is handed back.
    pub fn send(&self, chan: &mut Channel<M>, msg: M) -> (r: Result<(), SendError<M>>)
        requires
            old(chan).wf(),
            self.spec_key() == old(chan)@.key,
        ensures
            final(chan).wf(),
            r == old(chan)@.send_result(msg),
            final(chan)@ == old(chan)@.send_post(msg),
    {
        match self {
            ActorRef::Local(sender) => sender.try_send(chan, msg),
            ActorRef::Machine(sender) => sender.try_send(chan, msg),
            ActorRef::Remote(sender) => sender.try_send(chan, msg),
        }
    }
}

} // verus!
