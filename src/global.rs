use vstd::prelude::*;

verus! {

/// Number of auxiliary ports of the widest agent.
pub const MAX_AUX_NUM: u8 = 4;

/// Auxiliary ports of the widest value agent (the left side of a pair).
pub const MAX_AUX_NUM_LEFT: u8 = 2;

/// Auxiliary ports of the widest operator agent (the right side of a pair).
pub const MAX_AUX_NUM_RIGHT: u8 = 4;

/// Most agents that a single rule body allocates.
pub const MAX_AGENTS_CREATED: u8 = 4;

/// Size of the register file: both agents of a pair, their auxiliary
/// neighbours and the agents that a rule allocates.
pub const MAX_AGENT_REG_SIZE: u8 = MAX_AUX_NUM_LEFT + MAX_AUX_NUM_RIGHT + MAX_AGENTS_CREATED + 2;

/// The address stored in a port that is not connected to anything.
pub const UNASSIGNED_PORT: usize = usize::MAX;

/// Index into the register file.
pub type RegAddress = u8;

/// Index of an agent in the heap.
pub type HeapAddress = usize;

/// One of the ports of an agent: four auxiliary ports and the principal one.
#[derive(Clone, Copy, Debug, PartialEq, Eq, Structural)]
pub enum PortNum {
    P0,
    P1,
    P2,
    P3,
    Main,
}

impl PortNum {
    /// Position of the port in an agent's port array.
    pub open spec fn spec_index(self) -> nat {
        match self {
            PortNum::P0 => 0,
            PortNum::P1 => 1,
            PortNum::P2 => 2,
            PortNum::P3 => 3,
            PortNum::Main => 4,
        }
    }

    pub fn index(self) -> (r: usize)
        ensures
            r == self.spec_index(),
            r < 5,
    {
        match self {
            PortNum::P0 => 0,
            PortNum::P1 => 1,
            PortNum::P2 => 2,
            PortNum::P3 => 3,
            PortNum::Main => 4,
        }
    }
}

} // verus!
