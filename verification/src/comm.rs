//! Identity of one pipeline: the core it runs on, the port it serves and
//! the receive queue it polls.  Reports and cross-core messages carry it to
//! say which per-core tracker they speak of.

use vstd::prelude::*;

verus! {

#[derive(Clone, Copy, Debug, PartialEq, Eq, Hash, Default, Structural)]
pub struct PipelineId {
    pub core: u16,
    pub port_id: u16,
    pub rxq: u16,
}

impl PipelineId {
    pub fn new(core: u16, port_id: u16, rxq: u16) -> (r: PipelineId)
        ensures
            r.core == core,
            r.port_id == port_id,
            r.rxq == rxq,
    {
        PipelineId { core, port_id, rxq }
    }
}

} // verus!
