use vstd::prelude::*;

use crate::global::{HeapAddress, PortNum, UNASSIGNED_PORT};

verus! {

/// Kind of an agent. `L`, `S` and `F` are the values (leaf, stem, fork);
/// `E`, `D`, `A`, `T` and `Q` the operators (erase, duplicate, apply and the
/// two case analyses); `I` is the interface agent at the root.
#[derive(Clone, Copy, Debug, PartialEq, Eq, Structural)]
pub enum AgentType {
    L,
    S,
    F,
    E,
    D,
    A,
    T,
    Q,
    I,
}

impl AgentType {
    /// Number of auxiliary ports of an agent of this type.
    pub open spec fn arity(self) -> nat {
        match self {
            AgentType::L => 0,
            AgentType::S => 1,
            AgentType::F => 2,
            AgentType::E => 0,
            AgentType::D => 2,
            AgentType::A => 2,
            AgentType::T => 3,
            AgentType::Q => 4,
            AgentType::I => 1,
        }
    }

    pub open spec fn is_value(self) -> bool {
        self == AgentType::L || self == AgentType::S || self == AgentType::F
    }

    pub open spec fn is_operator(self) -> bool {
        self == AgentType::E || self == AgentType::D || self == AgentType::A
            || self == AgentType::T || self == AgentType::Q
    }
}

/// One end of a wire: the agent on the other side and the port it is
/// attached to there.
#[derive(Clone, Copy, Debug, PartialEq, Eq, Structural)]
pub struct Port {
    pub agent_addr: HeapAddress,
    pub port_num: PortNum,
}

impl Port {
    pub open spec fn spec_empty() -> Port {
        Port { agent_addr: UNASSIGNED_PORT, port_num: PortNum::Main }
    }

    pub open spec fn is_connected(self) -> bool {
        self.agent_addr != UNASSIGNED_PORT
    }

    /// A port that is connected to nothing.
    pub fn empty() -> (r: Self)
        ensures
            r == Port::spec_empty(),
            !r.is_connected(),
    {
        Port { agent_addr: UNASSIGNED_PORT, port_num: PortNum::Main }
    }

    pub fn new(agent_addr: usize, port_num: PortNum) -> (r: Self)
        ensures
            r.agent_addr == agent_addr,
            r.port_num == port_num,
    {
        Port { agent_addr, port_num }
    }
}

/// A node of the net: its type and one port per slot, auxiliary ports first
/// and the principal port last.
#[derive(Clone, Copy, Debug)]
pub struct Agent {
    pub agent_type: AgentType,
    pub ports: [Port; 5],
}

impl Agent {
    pub open spec fn port(self, p: PortNum) -> Port {
        self.ports@[p.spec_index() as int]
    }

    pub open spec fn spec_new(agent_type: AgentType) -> Agent {
        Agent { agent_type, ports: vstd::array::spec_array_fill_for_copy_type::<Port, 5>(Port::spec_empty()) }
    }

    /// Every port of the agent is unconnected.
    pub open spec fn is_fresh(self) -> bool {
        forall|i: int| 0 <= i < 5 ==> self.ports@[i] == Port::spec_empty()
    }

    /// A fresh agent of the given type with every port unconnected.
    pub fn new(agent_type: AgentType) -> (r: Self)
        ensures
            r == Agent::spec_new(agent_type),
            r.agent_type == agent_type,
            r.is_fresh(),
    {
        let r = Agent { agent_type, ports: [Port::empty(); 5] };
        assert(r.ports =~= Agent::spec_new(agent_type).ports);
        r
    }
}

} // verus!
