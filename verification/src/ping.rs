use vstd::prelude::*;

use crate::addr::Address;

verus! {

/// Why a single liveness probe failed.
///
/// A probe failure is data, never a fatal error: the probe worker keeps
/// running whatever a single probe returned.
#[derive(Clone, Copy, PartialEq, Eq, Structural, Debug)]
pub enum Error {
    /// The peer answered with something other than an echo reply.
    Unreachable,
    /// Waiting for the reply failed (most often a receive timeout).
    IoError,
    /// The probe packet could not be sent at all; the worker throttles
    /// itself when it sees this, since the local stack is failing.
    SendError,
    /// A reply arrived, but from a different address than was probed.
    UnknownReturnAddress(Address),
}

/// The outcome of one successful liveness probe.
#[derive(Clone, Copy, PartialEq, Eq, Structural, Debug)]
pub struct PingInfo {
    /// Round-trip time of the probe, in microseconds.
    pub rtt: u64,
}

impl PingInfo {
    pub fn new(rtt: u64) -> (r: PingInfo)
        ensures
            r == (PingInfo { rtt }),
    {
        PingInfo { rtt }
    }

    /// Get the round-trip time, in microseconds.
    pub fn get_rtt(&self) -> (r: u64)
        ensures
            r == self.rtt,
    {
        self.rtt
    }
}

} // verus!
