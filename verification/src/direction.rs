//! The two ends of the tunnel.
use vstd::prelude::*;

verus! {

/// Which end of the tunnel this is.
#[derive(Debug, Clone, Copy, PartialEq, Eq, Structural)]
pub enum Direction {
    /// Websockets come in, TCP connections go out.
    ServerSide,
    /// TCP connections come in, websockets go out.
    ClientSide,
}

} // verus!
