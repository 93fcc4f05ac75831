//! Generic messages.
//!
//! To use these messages the receiving actor's message type implements
//! `From` of them, so a sending actor can send one without wrapping it
//! first. Most of the types carry an optional id, defaulting to `()`, so one
//! actor can receive them from several sources and tell the sources apart.

use vstd::prelude::*;

verus! {

/// A start signal, for example to delay the start of an actor's work. This
/// message has an optional id.
#[derive(Copy, Clone, Debug, Eq, PartialEq, Ord, PartialOrd)]
pub struct Start<Id = ()>(pub Id);

/// An acknowledgement, for example that a message was received. This message
/// has an optional id.
#[derive(Copy, Clone, Debug, Eq, PartialEq, Ord, PartialOrd)]
pub struct Ack<Id = ()>(pub Id);

/// A signal to an actor that the sender is done. This message has an
/// optional id.
#[derive(Copy, Clone, Debug, Eq, PartialEq, Ord, PartialOrd)]
pub struct Done<Id = ()>(pub Id);

/// A signal to an actor to cancel an operation. This message has an optional
/// id.
#[derive(Copy, Clone, Debug, Eq, PartialEq, Ord, PartialOrd)]
pub struct Cancel<Id = ()>(pub Id);

/// Ask an actor to terminate. The message is not special: the receiving
/// actor may ignore it and continue living.
#[derive(Copy, Clone, Debug, Eq, PartialEq, Ord, PartialOrd)]
pub struct Terminate;

} // verus!
