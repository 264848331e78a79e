//! Process-wide facts the engine discovers at startup.  Reading them from
//! the machine is the surrounding tool's concern; here stands the data and
//! the one computation on it.

use vstd::prelude::*;

verus! {

/// The base clock of the cycle counter, in Hz.
#[derive(Clone, Copy, Debug)]
pub struct SystemData {
    pub cpu_clock: u64,
}

impl SystemData {
    /// Builds the system facts from the kilohertz value the machine
    /// reports for its base clock.
    pub fn from_kilohertz(khz: u64) -> (r: SystemData)
        requires
            khz * 1000 <= u64::MAX,
        ensures
            r.cpu_clock == khz * 1000,
    {
        SystemData { cpu_clock: khz * 1000 }
    }
}

/// How inbound flows are steered to pipeline cores: by destination port or
/// by destination IP address.
#[derive(Clone, Copy, Debug, PartialEq, Eq, Structural)]
pub enum FlowSteeringMode {
    Port,
    Ip,
}

} // verus!
