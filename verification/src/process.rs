//! Process identity and the outcome of running a process.

use vstd::prelude::*;

verus! {

/// An opaque, stable identifier of a process, assigned on spawn.
///
/// Uniqueness is per scheduler instance; the id is used as a cheap equality
/// and routing key.
#[derive(Copy, Clone, Debug, PartialEq, Eq, Hash, Structural)]
pub struct ProcessId(pub usize);

impl ProcessId {
    /// The raw value of this identifier.
    pub fn get(self) -> (r: usize)
        ensures
            r == self.0,
    {
        self.0
    }
}

/// The result of polling a suspended computation once: either its output or
/// the promise of a wake-up once progress is possible.
#[derive(Copy, Clone, Debug, PartialEq, Eq, Structural)]
pub enum Poll<T> {
    /// The computation finished with this output.
    Ready(T),
    /// The computation suspended; the waker it was polled with will be woken
    /// when it can make progress.
    Pending,
}

/// The result of a single run of a process.
#[derive(Copy, Clone, Debug, PartialEq, Eq, Structural)]
pub enum ProcessResult {
    /// The process is complete and must be discarded.
    Complete,
    /// The process was not ready and must be stored as inactive until it is
    /// marked ready again.
    Pending,
}

/// Status of an actor after a poll or after handling a message.
#[derive(Copy, Clone, Debug, PartialEq, Eq, Structural)]
pub enum Status {
    /// The actor is done; it can be discarded.
    Complete,
    /// The actor is ready to handle another message.
    Ready,
}

/// What polling an actor or handing it a message yields: the next status,
/// an error, or a suspension.
pub type ActorResult<E> = Poll<Result<Status, E>>;

/// The context in which an actor runs.
#[derive(Debug)]
pub struct ActorContext {}

/// A user-defined actor: a state machine driven by the messages of its
/// inbox. Implementations are the users'; nothing is assumed of them.
pub trait Actor {
    /// The type of message the actor handles.
    type Message;

    /// The type of error the actor can fail with.
    type Error;

    /// Continue the work the actor is in the middle of.
    fn poll(&mut self, ctx: &mut ActorContext) -> ActorResult<Self::Error>;

    /// Handle one message.
    fn handle(&mut self, ctx: &mut ActorContext, msg: Self::Message) -> ActorResult<Self::Error>;
}

/// Check the result of a call to poll or handle of an actor: what the
/// process should return, or `None` where the loop should continue with the
/// next message.
pub fn check_result<E>(result: ActorResult<E>) -> (r: Option<ProcessResult>)
    ensures
        r == (match result {
            Poll::Ready(Ok(Status::Complete)) => Some(ProcessResult::Complete),
            Poll::Ready(Ok(Status::Ready)) => None::<ProcessResult>,
            Poll::Ready(Err(_)) => Some(ProcessResult::Complete),
            Poll::Pending => Some(ProcessResult::Pending),
        }),
{
    match result {
        Poll::Ready(Ok(Status::Complete)) => Some(ProcessResult::Complete),
        Poll::Ready(Ok(Status::Ready)) => None,
        Poll::Ready(Err(_)) => Some(ProcessResult::Complete),
        Poll::Pending => Some(ProcessResult::Pending),
    }
}

/// What a supervisor decides about a failed actor.
#[derive(Debug)]
pub enum SupervisorStrategy<Arg> {
    /// Restart the actor, building it anew from this argument.
    Restart(Arg),
    /// Stop the actor.
    Stop,
}

/// Supervisor of an actor: decides what happens after the actor fails.
/// Implementations are the users'; nothing is assumed of them.
pub trait Supervisor<E, Arg> {
    /// Decide what to do about the error `err`.
    fn decide(&mut self, err: E) -> SupervisorStrategy<Arg>;
}

/// Builds an actor, fresh or as a restart.
pub trait NewActor {
    /// The actor this builds.
    type Actor: Actor;

    /// The argument the actor is built from.
    type Argument;

    /// Build an actor.
    fn new(&mut self, ctx: ActorContext, arg: Self::Argument) -> Self::Actor;
}

/// How many times in a row a failing actor is rebuilt within one run before
/// it is stopped regardless, so that an actor that fails at once on every
/// restart cannot hold its worker forever.
pub const MAX_RESTARTS: u32 = 3;

/// A process that represents a supervised [`Actor`]: when the actor fails,
/// its [`Supervisor`] decides whether it is rebuilt via [`NewActor`] and
/// polled again at once, or stopped — after [`MAX_RESTARTS`] consecutive
/// restarts it is stopped regardless.
pub struct ActorProcess<S, NA: NewActor> {
    pid: ProcessId,
    supervisor: S,
    new_actor: NA,
    actor: NA::Actor,
}

impl<S, NA: NewActor> ActorProcess<S, NA> {
    /// Create a new `ActorProcess`.
    pub fn new(pid: ProcessId, supervisor: S, new_actor: NA, actor: NA::Actor) -> (r: ActorProcess<
        S,
        NA,
    >)
        ensures
            r.spec_pid() == pid,
    {
        ActorProcess { pid, supervisor, new_actor, actor }
    }

    /// The id of the process this actor runs as.
    pub closed spec fn spec_pid(&self) -> ProcessId {
        self.pid
    }

    /// The id of the process this actor runs as.
    pub fn pid(&self) -> (r: ProcessId)
        ensures
            r == self.spec_pid(),
    {
        self.pid
    }
}

impl<S, NA> ActorProcess<S, NA> where
    NA: NewActor,
    S: Supervisor<<NA::Actor as Actor>::Error, NA::Argument>,
 {
    /// Run the actor: poll it once; when it fails, let the supervisor
    /// decide, and on a restart rebuild the actor and poll again at once.
    /// What comes back depends on the user's actor and supervisor; the
    /// process identity does not change.
    pub fn run(&mut self, ctx: &mut ActorContext) -> (r: ProcessResult)
        ensures
            final(self).spec_pid() == old(self).spec_pid(),
    {
        let mut restarts_left: u32 = MAX_RESTARTS;
        loop
            invariant
                self.pid == old(self).pid,
            decreases restarts_left,
        {
            match self.actor.poll(ctx) {
                Poll::Ready(Ok(_)) => {
                    return ProcessResult::Complete;
                },
                Poll::Ready(Err(err)) => {
                    match self.supervisor.decide(err) {
                        SupervisorStrategy::Restart(arg) => {
                            if restarts_left == 0 {
                                return ProcessResult::Complete;
                            }
                            restarts_left = restarts_left - 1;
                            // Build the actor anew and poll it at once, in
                            // case progress can be made already.
                            let actor = self.new_actor.new(ActorContext {  }, arg);
                            self.actor = actor;
                        },
                        SupervisorStrategy::Stop => {
                            return ProcessResult::Complete;
                        },
                    }
                },
                Poll::Pending => {
                    return ProcessResult::Pending;
                },
            }
        }
    }
}

} // verus!
