//! The mode markers of the network sockets.
//!
//! A datagram socket is either unconnected — it sends to and receives from
//! explicit addresses — or connected to one peer; the marker in its type
//! determines which methods it offers.

use vstd::prelude::*;

verus! {

/// The unconnected mode of a datagram socket.
#[derive(Copy, Clone, Debug)]
pub struct Unconnected;

/// The connected mode of a datagram socket.
#[derive(Copy, Clone, Debug)]
pub struct Connected;

} // verus!
