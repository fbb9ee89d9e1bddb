use vstd::prelude::*;

use crate::agent::{Agent, AgentType, Port};
use crate::code::Instr;
use crate::global::PortNum;
use crate::heap::{is_lowest_free, lemma_lowest_free_unique, lowest_free, HEAP_CAPACITY};
use crate::vm::{connect_spec, evaluates_to, exec_instr_spec, steps, EvalState, Machine};

verus! {

/// The port number stored at position `i` of a port array.
pub open spec fn port_at(i: int) -> PortNum {
    if i == 0 {
        PortNum::P0
    } else if i == 1 {
        PortNum::P1
    } else if i == 2 {
        PortNum::P2
    } else if i == 3 {
        PortNum::P3
    } else {
        PortNum::Main
    }
}

/// Every connected port of a live agent leads to a live agent whose port
/// leads back to it.
#[verifier::opaque]
pub open spec fn symmetric(h: Map<nat, Agent>) -> bool {
    forall|a: nat, i: int|
        #![trigger h[a].ports@[i]]
        h.contains_key(a) && 0 <= i < 5 && h[a].ports@[i].is_connected() ==> {
            let t = h[a].ports@[i];
            &&& h.contains_key(t.agent_addr as nat)
            &&& h[t.agent_addr as nat].ports@[t.port_num.spec_index() as int] == (Port {
                agent_addr: a as usize,
                port_num: port_at(i),
            })
        }
}

pub proof fn lemma_port_at_index(p: PortNum)
    ensures
        port_at(p.spec_index() as int) == p,
        p.spec_index() < 5,
{
}

/// No live agent has an address at or beyond the arena's capacity.
pub open spec fn below_capacity(h: Map<nat, Agent>) -> bool {
    forall|a: nat| h.contains_key(a) ==> a < HEAP_CAPACITY
}

pub proof fn lemma_lowest_free_exists(h: Map<nat, Agent>, b: nat)
    requires
        !h.contains_key(b),
    ensures
        is_lowest_free(h, lowest_free(h)),
        lowest_free(h) <= b,
    decreases b,
{
    if forall|a: nat| a < b ==> h.contains_key(a) {
        lemma_lowest_free_unique(h, b);
    } else {
        let a = choose|a: nat| a < b && !h.contains_key(a);
        lemma_lowest_free_exists(h, a);
    }
}

/// Creating an agent takes an address that no live agent holds and leaves
/// every live agent as it was: no two live agents ever share an address.
pub proof fn lemma_create_agent_fresh(m: Machine, r: u8, t: AgentType)
    requires
        below_capacity(m.heap),
        exec_instr_spec(m, Instr::MkAgent(r, t)) is Some,
    ensures
        ({
            let m2 = exec_instr_spec(m, Instr::MkAgent(r, t))->0;
            let a = m2.reg[r as int] as nat;
            &&& !m.heap.contains_key(a)
            &&& m2.heap.contains_key(a)
            &&& m2.heap[a] == Agent::spec_new(t)
            &&& forall|b: nat|
                b != a ==> (m2.heap.contains_key(b) == m.heap.contains_key(b)) && (m.heap.contains_key(b)
                    ==> m2.heap[b] == m.heap[b])
        }),
{
    lemma_lowest_free_exists(m.heap, HEAP_CAPACITY as nat);
}

/// Adding an agent with no connection at a free address keeps every wire
/// symmetric.
pub proof fn lemma_insert_fresh_keeps_symmetry(h: Map<nat, Agent>, a: nat, t: AgentType)
    requires
        symmetric(h),
        !h.contains_key(a),
    ensures
        symmetric(h.insert(a, Agent::spec_new(t))),
{
    reveal(symmetric);
    let h2 = h.insert(a, Agent::spec_new(t));
    assert forall|c: nat, i: int|
        #![trigger h2[c].ports@[i]]
        h2.contains_key(c) && 0 <= i < 5 && h2[c].ports@[i].is_connected() implies {
        let x = h2[c].ports@[i];
        &&& h2.contains_key(x.agent_addr as nat)
        &&& h2[x.agent_addr as nat].ports@[x.port_num.spec_index() as int] == (Port {
            agent_addr: c as usize,
            port_num: port_at(i),
        })
    } by {
        if c == a {
            assert(h2[c].ports@[i] == Port::spec_empty());
        } else {
            let x = h[c].ports@[i];
            assert(h[x.agent_addr as nat].ports@[x.port_num.spec_index() as int] == (Port {
                agent_addr: c as usize,
                port_num: port_at(i),
            }));
        }
    }
}

/// After a connection the two ports lead to each other, whatever they held
/// before; no other port of any agent changes.
pub proof fn lemma_connect_links_both_ways(m: Machine, a: nat, p: PortNum, b: nat, q: PortNum)
    requires
        m.heap.contains_key(a),
        m.heap.contains_key(b),
        a != b || p != q,
    ensures
        ({
            let h = connect_spec(m, a, p, b, q).heap;
            &&& h.dom() == m.heap.dom()
            &&& h[a].port(p) == (Port { agent_addr: b as usize, port_num: q })
            &&& h[b].port(q) == (Port { agent_addr: a as usize, port_num: p })
            &&& forall|c: nat, i: int|
                m.heap.contains_key(c) && 0 <= i < 5 && !(c == a && i == p.spec_index()) && !(c == b
                    && i == q.spec_index()) ==> #[trigger] h[c].ports@[i] == m.heap[c].ports@[i]
            &&& forall|c: nat| m.heap.contains_key(c) ==> #[trigger] h[c].agent_type == m.heap[c].agent_type
        }),
{
    let h = connect_spec(m, a, p, b, q).heap;
    assert(h.dom() =~= m.heap.dom());
    lemma_port_at_index(p);
    lemma_port_at_index(q);
}

/// Connecting two distinct unconnected ports of live agents keeps every
/// wire symmetric.
pub proof fn lemma_connect_keeps_symmetry(m: Machine, a: nat, p: PortNum, b: nat, q: PortNum)
    requires
        symmetric(m.heap),
        below_capacity(m.heap),
        m.heap.contains_key(a),
        m.heap.contains_key(b),
        a != b || p != q,
        !m.heap[a].port(p).is_connected(),
        !m.heap[b].port(q).is_connected(),
    ensures
        symmetric(connect_spec(m, a, p, b, q).heap),
{
    reveal(symmetric);
    let h = connect_spec(m, a, p, b, q).heap;
    lemma_connect_links_both_ways(m, a, p, b, q);
    lemma_port_at_index(p);
    lemma_port_at_index(q);
    assert forall|c: nat, i: int|
        #![trigger h[c].ports@[i]]
        h.contains_key(c) && 0 <= i < 5 && h[c].ports@[i].is_connected() implies {
        let t = h[c].ports@[i];
        &&& h.contains_key(t.agent_addr as nat)
        &&& h[t.agent_addr as nat].ports@[t.port_num.spec_index() as int] == (Port {
            agent_addr: c as usize,
            port_num: port_at(i),
        })
    } by {
        let t = h[c].ports@[i];
        if c == a && i == p.spec_index() {
        } else if c == b && i == q.spec_index() {
        } else {
            let t0 = m.heap[c].ports@[i];
            assert(t0 == t);
            assert(m.heap[t0.agent_addr as nat].ports@[t0.port_num.spec_index() as int] == (Port {
                agent_addr: c as usize,
                port_num: port_at(i),
            }));
            lemma_port_at_index(t.port_num);
            let d = t.agent_addr as nat;
            let j = t.port_num.spec_index() as int;
            if d == a && j == p.spec_index() {
                assert(!m.heap[a].ports@[j].is_connected());
            } else if d == b && j == q.spec_index() {
                assert(!m.heap[b].ports@[j].is_connected());
            } else {
                assert(h[d].ports@[j] == m.heap[d].ports@[j]);
            }
        }
    }
}

/// Evaluation is deterministic: run twice from the same graph, it stops
/// after the same number of steps, the same way, in the same state.
pub proof fn lemma_evaluation_deterministic(
    m: Machine,
    n1: nat,
    r1: EvalState,
    m1: Machine,
    n2: nat,
    r2: EvalState,
    m2: Machine,
)
    requires
        evaluates_to(m, n1, r1, m1),
        evaluates_to(m, n2, r2, m2),
    ensures
        n1 == n2,
        r1 == r2,
        m1 == m2,
{
    if n1 < n2 {
        assert(steps(m, n1).0 == EvalState::EvalRunning);
    } else if n2 < n1 {
        assert(steps(m, n2).0 == EvalState::EvalRunning);
    }
}

} // verus!
