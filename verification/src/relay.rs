//! Configuration of the net relay: the actor that relays messages to actors
//! on remote nodes.
//!
//! The configuration is assembled at the type level: the connection type and
//! the serialisation format are phantom markers, and the router is the one
//! value it holds. The relay actor itself performs network I/O and lives
//! with the runtime's unverified edge; what stands here is the
//! configuration.

use core::marker::PhantomData;

use vstd::prelude::*;

verus! {

/// Use a TCP connection: mainly for connections between datacentres; within
/// one, [`Udp`] is faster. "Reliable" refers to the connection, not to
/// message delivery.
#[derive(Copy, Clone, Debug)]
pub struct Tcp;

/// Use a UDP connection: a faster alternative to [`Tcp`] for
/// intra-datacentre communication. A single message is limited to roughly
/// 65,000 bytes and its delivery is not guaranteed — but the latter is true
/// of any actor reference.
#[derive(Copy, Clone, Debug)]
pub struct Udp;

/// Use JSON serialisation.
#[derive(Copy, Clone, Debug)]
pub struct Json;

/// Configuration for the net relay.
///
/// The pieces are:
///  * `R`: the router of incoming messages.
///  * `CT`: the connection to use, [`Udp`] or [`Tcp`].
///  * `S`: the serialisation format, such as [`Json`].
///  * `Out`: the outgoing message type.
///  * `In`: the incoming message type, the one that `R` routes.
///  * `RT`: the runtime access of the spawned actor.
#[derive(Debug)]
pub struct Config<R, CT, S, Out, In, RT> {
    /// How to route incoming messages.
    router: R,
    /// The type of connection to use.
    connection_type: PhantomData<CT>,
    /// The type of serialisation to use.
    serialisation: PhantomData<S>,
    /// The message and runtime-access types of the relay actor.
    types: PhantomData<(Out, In, RT)>,
}

impl<R, CT, S, Out, In, RT> Config<R, CT, S, Out, In, RT> {
    /// The router of this configuration.
    pub closed spec fn spec_router(&self) -> R {
        self.router
    }

    /// Create a default configuration. The router, the connection type and
    /// the serialisation format still need to be set; they start as `()`.
    pub fn default() -> (r: Config<(), (), (), Out, In, RT>)
        ensures
            r.spec_router() == (),
    {
        Config {
            router: (),
            connection_type: PhantomData,
            serialisation: PhantomData,
            types: PhantomData,
        }
    }

    /// Use `router` to route incoming messages.
    pub fn route<R2>(self, router: R2) -> (r: Config<R2, CT, S, Out, In, RT>)
        ensures
            r.spec_router() == router,
    {
        Config {
            router,
            connection_type: self.connection_type,
            serialisation: self.serialisation,
            types: PhantomData,
        }
    }

    /// Use a [`Tcp`] connection.
    pub fn tcp(self) -> (r: Config<R, Tcp, S, Out, In, RT>)
        ensures
            r.spec_router() == self.spec_router(),
    {
        Config {
            router: self.router,
            connection_type: PhantomData,
            serialisation: self.serialisation,
            types: PhantomData,
        }
    }

    /// Use a [`Udp`] connection.
    pub fn udp(self) -> (r: Config<R, Udp, S, Out, In, RT>)
        ensures
            r.spec_router() == self.spec_router(),
    {
        Config {
            router: self.router,
            connection_type: PhantomData,
            serialisation: self.serialisation,
            types: PhantomData,
        }
    }

    /// Use [`Json`] serialisation.
    pub fn json(self) -> (r: Config<R, CT, Json, Out, In, RT>)
        ensures
            r.spec_router() == self.spec_router(),
    {
        Config {
            router: self.router,
            connection_type: self.connection_type,
            serialisation: PhantomData,
            types: PhantomData,
        }
    }
}

} // verus!
