//! The actor system's process glue: an actor together with its mailbox,
//! run as one process.

use vstd::prelude::*;

use crate::actor_ref::ActorRef;
use crate::inbox::{new_small_with_key, Channel, Receiver, MAX_SENDERS};
use crate::process::{Actor, ActorContext, ProcessId, ProcessResult};

verus! {

broadcast use vstd::multiset::group_multiset_axioms;

/// A process that represents an actor, its mailbox and current execution.
///
/// The actor's inbox is owned by the process; [`Self::create_ref`] hands out
/// references through which messages are delivered into it.
pub struct ActorProcess<A: Actor> {
    /// The actor.
    actor: A,
    /// Whether the actor is ready to handle another message, or must first
    /// be polled to finish the message it is on.
    ready_for_msg: bool,
    /// The inbox of the actor.
    inbox: Channel<A::Message>,
    /// The receiving end of the inbox.
    receiver: Receiver<A::Message>,
}

impl<A: Actor> ActorProcess<A> {
    /// The process and its inbox are well formed.
    pub open spec fn wf(&self) -> bool {
        &&& self.spec_inbox().wf()
        &&& self.spec_receiver().chan_key() == self.spec_inbox()@.key
    }

    /// The inbox of the actor.
    pub closed spec fn spec_inbox(&self) -> Channel<A::Message> {
        self.inbox
    }

    /// The receiving end of the inbox.
    pub closed spec fn spec_receiver(&self) -> Receiver<A::Message> {
        self.receiver
    }

    /// Whether the actor is ready for a new message, or must first be polled
    /// to finish the one it is on.
    pub closed spec fn spec_ready_for_msg(&self) -> bool {
        self.ready_for_msg
    }

    /// Create a new actor process. Its inbox is created with it, keyed by
    /// the process id.
    pub fn new(pid: ProcessId, actor: A) -> (r: ActorProcess<A>)
        ensures
            r.wf(),
            r.spec_ready_for_msg(),
            r.spec_inbox()@.senders == 0,
            r.spec_inbox()@.receiver,
    {
        let (sender, receiver, mut inbox) = new_small_with_key(pid.0 as u64);
        // The construction hands out one sender; the process itself delivers
        // no messages, so that sender is disconnected at once and senders
        // exist only through `create_ref`.
        sender.disconnect(&mut inbox);
        ActorProcess { actor, ready_for_msg: true, inbox, receiver }
    }

    /// Create a new reference to this actor, through which messages are
    /// delivered to its inbox.
    pub fn create_ref(&mut self) -> (r: ActorRef<A::Message>)
        requires
            old(self).wf(),
            old(self).spec_inbox()@.senders < MAX_SENDERS - 1,
        ensures
            final(self).wf(),
            r.spec_key() == final(self).spec_inbox()@.key,
            final(self).spec_inbox()@ == (crate::inbox::ChannelView {
                senders: (old(self).spec_inbox()@.senders + 1) as u64,
                ..old(self).spec_inbox()@
            }),
    {
        let sender = self.receiver.new_sender(&mut self.inbox);
        ActorRef::local(sender)
    }

    /// The actor's inbox, for the runtime to deliver messages into through
    /// an [`ActorRef`].
    pub fn inbox_mut(&mut self) -> (r: &mut Channel<A::Message>)
        ensures
            *r == old(self).spec_inbox(),
            final(self).spec_inbox() == *final(r),
            final(self).spec_receiver() == old(self).spec_receiver(),
    {
        &mut self.inbox
    }

    /// Run the actor: finish the message it is on, then feed it the messages
    /// of its inbox one by one, until the actor completes or the inbox runs
    /// dry. What the actor answers is the user's; what the library decides
    /// stands below: an actor that is ready for a message and has none
    /// suspends after exactly one failed receive, and messages only ever
    /// leave the inbox by being handed to the actor.
    pub fn run(&mut self, ctx: &mut ActorContext) -> (r: ProcessResult)
        requires
            old(self).wf(),
        ensures
            final(self).wf(),
            final(self).spec_receiver() == old(self).spec_receiver(),
            final(self).spec_inbox()@.key == old(self).spec_inbox()@.key,
            old(self).spec_ready_for_msg() && old(self).spec_inbox()@.filled_count() == 0
                ==> r == ProcessResult::Pending && final(self).spec_inbox()@ == old(
                self,
            ).spec_inbox()@.recv_post() && final(self).spec_ready_for_msg(),
            final(self).spec_inbox()@.contents().subset_of(old(self).spec_inbox()@.contents()),
    {
        let ghost on_empty = old(self).spec_ready_for_msg() && old(
            self,
        ).spec_inbox()@.filled_count() == 0;
        loop
            invariant
                self.wf(),
                self.spec_receiver() == old(self).spec_receiver(),
                self.spec_inbox()@.key == old(self).spec_inbox()@.key,
                on_empty == (old(self).spec_ready_for_msg() && old(
                    self,
                ).spec_inbox()@.filled_count() == 0),
                on_empty ==> *self == *old(self),
                self.inbox@.contents().subset_of(old(self).spec_inbox()@.contents()),
            decreases self.inbox@.contents().len(),
        {
            // First finish the message the actor is currently handling, if
            // any.
            if !self.ready_for_msg {
                match crate::process::check_result(self.actor.poll(ctx)) {
                    Some(status) => {
                        self.ready_for_msg = false;
                        return status;
                    },
                    None => {},
                }
            }
            // Retrieve another message, if any.
            let ghost pre_inbox = self.inbox@;
            proof {
                if pre_inbox.filled_count() == 0 {
                    crate::laws::lemma_empty_recv_fails(pre_inbox);
                }
            }
            let msg = match self.receiver.try_recv(&mut self.inbox) {
                Ok(msg) => msg,
                Err(_) => {
                    proof {
                        crate::laws::lemma_recv_contents(pre_inbox);
                        crate::laws::lemma_recv_post_fields(pre_inbox);
                    }
                    return ProcessResult::Pending;
                },
            };
            proof {
                crate::laws::lemma_recv_contents(pre_inbox);
                crate::laws::lemma_recv_post_fields(pre_inbox);
                assert(self.inbox@.contents().len() < pre_inbox.contents().len());
                assert(self.inbox@.contents().subset_of(old(self).spec_inbox()@.contents()));
            }
            // And pass the message to the actor.
            match crate::process::check_result(self.actor.handle(ctx, msg)) {
                Some(status) => {
                    self.ready_for_msg = false;
                    return status;
                },
                None => {},
            }
        }
    }
}

} // verus!
