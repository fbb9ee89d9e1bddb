use vstd::prelude::*;

use crate::agent::{Agent, AgentType, Port};
use crate::code::{ConnectMode, Instr};
use crate::global::PortNum;
use crate::heap::{is_lowest_free, lowest_free, HEAP_CAPACITY};
use crate::lemmas::{
    lemma_connect_links_both_ways, lemma_lowest_free_exists, lemma_port_at_index, port_at, symmetric,
};
use crate::rules::{rule, rule_index};
use crate::vm::{
    connect_spec, endpoint, exec_instr_spec, pair_regs, run_spec, step_spec, EvalState, Machine,
};

verus! {

/// What a register holds while a rule body runs, as far as wiring goes.
pub enum Slot {
    Left,
    Right,
    Fresh(nat),
    Other,
}

/// A port that a `Connect` may use: an auxiliary port of the pair whose
/// wire has not been moved yet (by its position among the six: two of the
/// value agent, then four of the operator agent), or a still unconnected
/// port of an agent that the rule created.
pub enum Ep {
    Pend(int),
    New(int, int),
}

/// The tracker's state: the registers, which auxiliary wires of the pair are
/// still to be moved, which ports of created agents are still free, and how
/// many agents the rule created.
pub struct Track {
    pub regs: Seq<Slot>,
    pub pending: Seq<bool>,
    pub free: Seq<Seq<bool>>,
    pub count: nat,
}

pub open spec fn abs_endpoint(t: Track, reg: u8, p: PortNum, follow: bool) -> Option<Ep> {
    let j = p.spec_index() as int;
    if reg >= 12 {
        None
    } else {
        match t.regs[reg as int] {
            Slot::Left => if follow && j < 2 && t.pending[j] {
                Some(Ep::Pend(j))
            } else {
                None
            },
            Slot::Right => if follow && j < 4 && t.pending[2 + j] {
                Some(Ep::Pend(2 + j))
            } else {
                None
            },
            Slot::Fresh(k) => if !follow && k < t.count && t.free[k as int][j] {
                Some(Ep::New(k as int, j))
            } else {
                None
            },
            Slot::Other => None,
        }
    }
}

/// The ports of a new agent of type `ty` that a rule may wire: its auxiliary
/// ports and its principal port.
pub open spec fn fresh_ports(ty: AgentType) -> Seq<bool> {
    seq![0 < ty.arity(), 1 < ty.arity(), 2 < ty.arity(), 3 < ty.arity(), true]
}

pub open spec fn use_ep(t: Track, e: Ep) -> Track {
    match e {
        Ep::Pend(i) => Track { regs: t.regs, pending: t.pending.update(i, false), free: t.free, count: t.count },
        Ep::New(k, j) => Track {
            regs: t.regs,
            pending: t.pending,
            free: t.free.update(k, t.free[k].update(j, false)),
            count: t.count,
        },
    }
}

pub open spec fn abs_step(t: Track, i: Instr) -> Option<Track> {
    match i {
        Instr::MkAgent(r, ty) => if r < 12 && t.count < 4 {
            Some(
                Track {
                    regs: t.regs.update(r as int, Slot::Fresh(t.count)),
                    pending: t.pending,
                    free: t.free.update(t.count as int, fresh_ports(ty)),
                    count: t.count + 1,
                },
            )
        } else {
            None
        },
        Instr::Connect(ra, pa, rb, pb, mode) => {
            match (
                abs_endpoint(t, ra, pa, mode.resolves_left()),
                abs_endpoint(t, rb, pb, mode.resolves_right()),
            ) {
                (Some(e1), Some(e2)) => if e1 != e2 {
                    Some(use_ep(use_ep(t, e1), e2))
                } else {
                    None
                },
                _ => None,
            }
        },
        _ => None,
    }
}

/// The tracker accepts `code` from `pc`: each instruction creates an agent or
/// connects ports that it may use, and at `Return` every auxiliary wire of
/// the pair has been moved.
pub open spec fn abs_run(t: Track, code: Seq<Instr>, pc: nat) -> bool
    decreases code.len() - pc,
{
    if pc >= code.len() {
        false
    } else if code[pc as int] == Instr::Return {
        !t.pending[0] && !t.pending[1] && !t.pending[2] && !t.pending[3] && !t.pending[4]
            && !t.pending[5]
    } else {
        match abs_step(t, code[pc as int]) {
            Some(t2) => abs_run(t2, code, pc + 1),
            None => false,
        }
    }
}

/// The agent and port index of the auxiliary wire at position `q` among the
/// pair's six.
pub open spec fn pend_port(l: nat, r: nat, q: int) -> (nat, int) {
    if q < 2 {
        (l, q)
    } else {
        (r, q - 2)
    }
}

pub open spec fn slot_ok(v: usize, s: Slot, l: nat, r: nat, news: Seq<nat>) -> bool {
    match s {
        Slot::Left => v as nat == l,
        Slot::Right => v as nat == r,
        Slot::Fresh(k) => k < news.len() && v as nat == news[k as int],
        Slot::Other => true,
    }
}

/// A connected port `i` of a live agent `c` outside the pair leads to a live
/// agent whose port leads back; where that agent is one of the pair, the
/// wire is one still to be moved.
pub open spec fn outside_port(h: Map<nat, Agent>, l: nat, r: nat, pending: Seq<bool>, c: nat, i: int) -> bool {
    h.contains_key(c) && c != l && c != r && 0 <= i < 5 && h[c].ports@[i].is_connected() ==> {
        let x = h[c].ports@[i];
        let d = x.agent_addr as nat;
        let j = x.port_num.spec_index() as int;
        &&& h.contains_key(d)
        &&& h[d].ports@[j] == (Port { agent_addr: c as usize, port_num: port_at(i) })
        &&& (d == l ==> j < 2 && pending[j])
        &&& (d == r ==> j < 4 && pending[2 + j])
    }
}

#[verifier::opaque]
pub open spec fn outside_ok(h: Map<nat, Agent>, l: nat, r: nat, pending: Seq<bool>) -> bool {
    forall|c: nat, i: int| #[trigger] outside_port(h, l, r, pending, c, i)
}

/// Each wire still to be moved leads from the pair to a live agent outside
/// it, whose port leads back.
#[verifier::opaque]
pub open spec fn pending_ok(h: Map<nat, Agent>, l: nat, r: nat, pending: Seq<bool>) -> bool {
    forall|q: int|
        0 <= q < 6 && #[trigger] pending[q] ==> {
            let d = pend_port(l, r, q).0;
            let j = pend_port(l, r, q).1;
            let x = h[d].ports@[j];
            let c = x.agent_addr as nat;
            &&& x.is_connected()
            &&& h.contains_key(c)
            &&& c != l
            &&& c != r
            &&& h[c].ports@[x.port_num.spec_index() as int] == (Port {
                agent_addr: d as usize,
                port_num: port_at(j),
            })
        }
}

#[verifier::opaque]
pub open spec fn free_ok(h: Map<nat, Agent>, news: Seq<nat>, t: Track) -> bool {
    forall|k: int, j: int|
        0 <= k < t.count && 0 <= j < 5 && #[trigger] t.free[k][j] ==> {
            &&& !h[news[k]].ports@[j].is_connected()
            &&& (j < 4 ==> j < h[news[k]].agent_type.arity())
        }
}

/// No agent has a connected auxiliary port beyond its arity.
#[verifier::opaque]
pub open spec fn well_typed(h: Map<nat, Agent>) -> bool {
    forall|c: nat, i: int|
        h.contains_key(c) && h[c].agent_type.arity() <= i < 4 ==> !(#[trigger] h[c].ports@[i]).is_connected()
}

/// `t` describes machine `m` while the rule for the pair `l`, `r` runs;
/// `news` lists the agents that the rule has created.
pub open spec fn tracks(m: Machine, l: nat, r: nat, news: Seq<nat>, t: Track) -> bool {
    let h = m.heap;
    &&& l != r
    &&& h.contains_key(l)
    &&& h.contains_key(r)
    &&& m.reg.len() == 12
    &&& t.regs.len() == 12
    &&& t.pending.len() == 6
    &&& t.free.len() == 4
    &&& forall|k: int| 0 <= k < 4 ==> #[trigger] t.free[k].len() == 5
    &&& news.len() == t.count
    &&& t.count <= 4
    &&& forall|k: int|
        0 <= k < news.len() ==> h.contains_key(#[trigger] news[k]) && news[k] != l && news[k] != r
    &&& forall|k1: int, k2: int| 0 <= k1 < k2 < news.len() ==> news[k1] != news[k2]
    &&& forall|x: int| 0 <= x < 12 ==> slot_ok(#[trigger] m.reg[x], t.regs[x], l, r, news)
    &&& forall|a: nat| h.contains_key(a) ==> a < HEAP_CAPACITY - 4 + t.count
    &&& outside_ok(h, l, r, t.pending)
    &&& pending_ok(h, l, r, t.pending)
    &&& free_ok(h, news, t)
    &&& well_typed(h)
}

/// No live agent outside the pair has a wire into it, and every such wire
/// is symmetric.
pub open spec fn settled(h: Map<nat, Agent>, l: nat, r: nat) -> bool {
    &&& h.contains_key(l)
    &&& h.contains_key(r)
    &&& l != r
    &&& forall|c: nat, i: int|
        #![trigger h[c].ports@[i]]
        h.contains_key(c) && c != l && c != r && 0 <= i < 5 && h[c].ports@[i].is_connected() ==> {
            let x = h[c].ports@[i];
            let d = x.agent_addr as nat;
            &&& h.contains_key(d)
            &&& d != l
            &&& d != r
            &&& h[d].ports@[x.port_num.spec_index() as int] == (Port {
                agent_addr: c as usize,
                port_num: port_at(i),
            })
        }
}

proof fn lemma_track_mk(m: Machine, l: nat, r: nat, news: Seq<nat>, t: Track, reg: u8, ty: AgentType)
    requires
        tracks(m, l, r, news, t),
        abs_step(t, Instr::MkAgent(reg, ty)) is Some,
    ensures
        exec_instr_spec(m, Instr::MkAgent(reg, ty)) is Some,
        tracks(
            exec_instr_spec(m, Instr::MkAgent(reg, ty))->0,
            l,
            r,
            news.push(lowest_free(m.heap)),
            abs_step(t, Instr::MkAgent(reg, ty))->0,
        ),
{
    let h = m.heap;
    lemma_lowest_free_exists(h, (HEAP_CAPACITY - 4 + t.count) as nat);
    let a = lowest_free(h);
    let m2 = exec_instr_spec(m, Instr::MkAgent(reg, ty))->0;
    let t2 = abs_step(t, Instr::MkAgent(reg, ty))->0;
    let news2 = news.push(a);
    let h2 = m2.heap;
    assert(h2 == h.insert(a, Agent::spec_new(ty)));
    assert forall|k: int| 0 <= k < 4 implies #[trigger] t2.free[k].len() == 5 by {
        if k != t.count {
            assert(t2.free[k] == t.free[k]);
        }
    }
    assert forall|k: int|
        0 <= k < news2.len() implies h2.contains_key(#[trigger] news2[k]) && news2[k] != l && news2[k]
        != r by {
        if k < news.len() {
            assert(news2[k] == news[k]);
        }
    }
    assert forall|k1: int, k2: int| 0 <= k1 < k2 < news2.len() implies news2[k1] != news2[k2] by {
        if k2 < news.len() {
            assert(news2[k2] == news[k2]);
        }
        assert(news2[k1] == news[k1]);
    }
    assert forall|x: int| 0 <= x < 12 implies slot_ok(#[trigger] m2.reg[x], t2.regs[x], l, r, news2) by {
        if x != reg {
            assert(slot_ok(m.reg[x], t.regs[x], l, r, news));
            match t.regs[x] {
                Slot::Fresh(k) => {
                    assert(news2[k as int] == news[k as int]);
                },
                _ => {},
            }
        }
    }
    lemma_insert_outside(h, a, ty, l, r, t.pending);
    lemma_insert_pending(h, a, ty, l, r, t.pending);
    lemma_insert_free(h, news, t, a, ty, t2);
    lemma_insert_well_typed(h, a, ty);
}

proof fn lemma_insert_outside(h: Map<nat, Agent>, a: nat, ty: AgentType, l: nat, r: nat, pending: Seq<bool>)
    requires
        outside_ok(h, l, r, pending),
        !h.contains_key(a),
    ensures
        outside_ok(h.insert(a, Agent::spec_new(ty)), l, r, pending),
{
    reveal(outside_ok);
    let h2 = h.insert(a, Agent::spec_new(ty));
    assert forall|c: nat, i: int| #[trigger] outside_port(h2, l, r, pending, c, i) by {
        if c == a {
            if 0 <= i < 5 {
                assert(h2[c].ports@[i] == Port::spec_empty());
            }
        } else {
            assert(outside_port(h, l, r, pending, c, i));
            if h.contains_key(c) && 0 <= i < 5 {
                assert(h[c].ports@[i] == h2[c].ports@[i]);
            }
        }
    }
}

pub proof fn lemma_insert_well_typed(h: Map<nat, Agent>, a: nat, ty: AgentType)
    requires
        well_typed(h),
    ensures
        well_typed(h.insert(a, Agent::spec_new(ty))),
{
    reveal(well_typed);
    let h2 = h.insert(a, Agent::spec_new(ty));
    assert forall|c: nat, i: int|
        h2.contains_key(c) && h2[c].agent_type.arity() <= i < 4 implies !(#[trigger] h2[c].ports@[i]).is_connected() by {
        if c == a {
            assert(h2[c].ports@[i] == Port::spec_empty());
        }
    }
}

proof fn lemma_insert_pending(h: Map<nat, Agent>, a: nat, ty: AgentType, l: nat, r: nat, pending: Seq<bool>)
    requires
        pending_ok(h, l, r, pending),
        !h.contains_key(a),
        h.contains_key(l),
        h.contains_key(r),
    ensures
        pending_ok(h.insert(a, Agent::spec_new(ty)), l, r, pending),
{
    reveal(pending_ok);
}

proof fn lemma_insert_free(h: Map<nat, Agent>, news: Seq<nat>, t: Track, a: nat, ty: AgentType, t2: Track)
    requires
        free_ok(h, news, t),
        !h.contains_key(a),
        news.len() == t.count,
        t.free.len() == 4,
        t.count < 4,
        forall|k: int| 0 <= k < news.len() ==> h.contains_key(#[trigger] news[k]),
        t2.count == t.count + 1,
        t2.free == t.free.update(t.count as int, fresh_ports(ty)),
    ensures
        free_ok(h.insert(a, Agent::spec_new(ty)), news.push(a), t2),
{
    reveal(free_ok);
    let h2 = h.insert(a, Agent::spec_new(ty));
    let news2 = news.push(a);
    assert forall|k: int, j: int|
        0 <= k < t2.count && 0 <= j < 5 && #[trigger] t2.free[k][j] implies {
        &&& !h2[news2[k]].ports@[j].is_connected()
        &&& (j < 4 ==> j < h2[news2[k]].agent_type.arity())
    } by {
        if k < t.count {
            assert(t2.free[k] == t.free[k]);
            assert(news2[k] == news[k]);
        } else {
            assert(news2[k] == a);
            assert(h2[a].ports@[j] == Port::spec_empty());
        }
    }
}

/// The machine port that an abstract endpoint stands for.
pub open spec fn conc_ep(h: Map<nat, Agent>, l: nat, r: nat, news: Seq<nat>, e: Ep) -> (nat, PortNum) {
    match e {
        Ep::Pend(q) => {
            let x = h[pend_port(l, r, q).0].ports@[pend_port(l, r, q).1];
            (x.agent_addr as nat, x.port_num)
        },
        Ep::New(k, j) => (news[k], port_at(j)),
    }
}

/// What holds of the port that an abstract endpoint stands for.
pub open spec fn ep_ok(h: Map<nat, Agent>, l: nat, r: nat, news: Seq<nat>, t: Track, e: Ep) -> bool {
    let c = conc_ep(h, l, r, news, e).0;
    let cp = conc_ep(h, l, r, news, e).1;
    &&& h.contains_key(c)
    &&& c != l
    &&& c != r
    &&& match e {
        Ep::Pend(q) => {
            &&& 0 <= q < 6
            &&& t.pending[q]
            &&& h[c].port(cp) == (Port {
                agent_addr: pend_port(l, r, q).0 as usize,
                port_num: port_at(pend_port(l, r, q).1),
            })
        },
        Ep::New(k, j) => {
            &&& 0 <= k < t.count
            &&& 0 <= j < 5
            &&& t.free[k][j]
            &&& !h[c].port(cp).is_connected()
            &&& (j < 4 ==> j < h[c].agent_type.arity())
        },
    }
}

proof fn lemma_port_at_roundtrip(i: int)
    requires
        0 <= i < 5,
    ensures
        port_at(i).spec_index() == i,
{
}

proof fn lemma_track_endpoint(m: Machine, l: nat, r: nat, news: Seq<nat>, t: Track, reg: u8, p: PortNum, follow: bool)
    requires
        tracks(m, l, r, news, t),
        abs_endpoint(t, reg, p, follow) is Some,
    ensures
        endpoint(m, reg, p, follow) == Some(conc_ep(m.heap, l, r, news, abs_endpoint(t, reg, p, follow)->0)),
        ep_ok(m.heap, l, r, news, t, abs_endpoint(t, reg, p, follow)->0),
{
    reveal(pending_ok);
    reveal(free_ok);
    lemma_port_at_index(p);
    let e = abs_endpoint(t, reg, p, follow)->0;
    assert(slot_ok(m.reg[reg as int], t.regs[reg as int], l, r, news));
    match e {
        Ep::Pend(q) => {
            assert(t.pending[q]);
        },
        Ep::New(k, j) => {
            assert(t.free[k][j]);
        },
    }
}

proof fn lemma_conc_distinct(h: Map<nat, Agent>, l: nat, r: nat, news: Seq<nat>, t: Track, e1: Ep, e2: Ep)
    requires
        l != r,
        l < HEAP_CAPACITY,
        r < HEAP_CAPACITY,
        e1 != e2,
        ep_ok(h, l, r, news, t, e1),
        ep_ok(h, l, r, news, t, e2),
        forall|k1: int, k2: int| 0 <= k1 < k2 < news.len() ==> news[k1] != news[k2],
        news.len() == t.count,
    ensures
        conc_ep(h, l, r, news, e1) != conc_ep(h, l, r, news, e2),
{
    match e1 {
        Ep::Pend(q1) => match e2 {
            Ep::Pend(q2) => {
                let (d1, j1) = pend_port(l, r, q1);
                let (d2, j2) = pend_port(l, r, q2);
                lemma_port_at_roundtrip(j1);
                lemma_port_at_roundtrip(j2);
                if conc_ep(h, l, r, news, e1) == conc_ep(h, l, r, news, e2) {
                    let c = conc_ep(h, l, r, news, e1).0;
                    let cp = conc_ep(h, l, r, news, e1).1;
                    assert(h[c].port(cp) == (Port { agent_addr: d1 as usize, port_num: port_at(j1) }));
                    assert(h[c].port(cp) == (Port { agent_addr: d2 as usize, port_num: port_at(j2) }));
                    assert(d1 == d2);
                    assert(j1 == j2);
                    assert(q1 == q2);
                }
            },
            Ep::New(k2, j2) => {},
        },
        Ep::New(k1, j1) => match e2 {
            Ep::Pend(q2) => {},
            Ep::New(k2, j2) => {
                lemma_port_at_roundtrip(j1);
                lemma_port_at_roundtrip(j2);
                if k1 < k2 {
                    assert(news[k1] != news[k2]);
                } else if k2 < k1 {
                    assert(news[k2] != news[k1]);
                }
            },
        },
    }
}

proof fn lemma_connect_outside(m: Machine, l: nat, r: nat, news: Seq<nat>, t: Track, e1: Ep, e2: Ep)
    requires
        l != r,
        m.heap.contains_key(l),
        m.heap.contains_key(r),
        t.pending.len() == 6,
        outside_ok(m.heap, l, r, t.pending),
        forall|x: nat| m.heap.contains_key(x) ==> x < HEAP_CAPACITY,
        e1 != e2,
        ep_ok(m.heap, l, r, news, t, e1),
        ep_ok(m.heap, l, r, news, t, e2),
        conc_ep(m.heap, l, r, news, e1) != conc_ep(m.heap, l, r, news, e2),
    ensures
        outside_ok(
            connect_spec(
                m,
                conc_ep(m.heap, l, r, news, e1).0,
                conc_ep(m.heap, l, r, news, e1).1,
                conc_ep(m.heap, l, r, news, e2).0,
                conc_ep(m.heap, l, r, news, e2).1,
            ).heap,
            l,
            r,
            use_ep(use_ep(t, e1), e2).pending,
        ),
{
    reveal(outside_ok);
    let h = m.heap;
    let (a, p) = conc_ep(h, l, r, news, e1);
    let (b, q) = conc_ep(h, l, r, news, e2);
    let h2 = connect_spec(m, a, p, b, q).heap;
    let pending2 = use_ep(use_ep(t, e1), e2).pending;
    lemma_connect_links_both_ways(m, a, p, b, q);
    lemma_port_at_index(p);
    lemma_port_at_index(q);
    assert forall|c: nat, i: int| #[trigger] outside_port(h2, l, r, pending2, c, i) by {
        if h2.contains_key(c) && c != l && c != r && 0 <= i < 5 && h2[c].ports@[i].is_connected() {
            lemma_port_at_roundtrip(i);
            if c == a && i == p.spec_index() {
            } else if c == b && i == q.spec_index() {
            } else {
                lemma_connect_outside_other(m, l, r, news, t, e1, e2, c, i);
            }
        }
    }
}

proof fn lemma_connect_outside_other(m: Machine, l: nat, r: nat, news: Seq<nat>, t: Track, e1: Ep, e2: Ep, c: nat, i: int)
    requires
        l != r,
        t.pending.len() == 6,
        outside_ok(m.heap, l, r, t.pending),
        ep_ok(m.heap, l, r, news, t, e1),
        ep_ok(m.heap, l, r, news, t, e2),
        conc_ep(m.heap, l, r, news, e1) != conc_ep(m.heap, l, r, news, e2),
        forall|x: nat| m.heap.contains_key(x) ==> x < HEAP_CAPACITY,
        m.heap.contains_key(l),
        m.heap.contains_key(r),
        m.heap.contains_key(c),
        c != l,
        c != r,
        0 <= i < 5,
        m.heap[c].ports@[i].is_connected(),
        !(c == conc_ep(m.heap, l, r, news, e1).0 && i == conc_ep(m.heap, l, r, news, e1).1.spec_index()),
        !(c == conc_ep(m.heap, l, r, news, e2).0 && i == conc_ep(m.heap, l, r, news, e2).1.spec_index()),
    ensures
        ({
            let (a, p) = conc_ep(m.heap, l, r, news, e1);
            let (b, q) = conc_ep(m.heap, l, r, news, e2);
            let h2 = connect_spec(m, a, p, b, q).heap;
            let pending2 = use_ep(use_ep(t, e1), e2).pending;
            let x = h2[c].ports@[i];
            let d = x.agent_addr as nat;
            let j = x.port_num.spec_index() as int;
            &&& h2.contains_key(d)
            &&& h2[d].ports@[j] == (Port { agent_addr: c as usize, port_num: port_at(i) })
            &&& (d == l ==> j < 2 && pending2[j])
            &&& (d == r ==> j < 4 && pending2[2 + j])
        }),
{
    reveal(outside_ok);
    let h = m.heap;
    let (a, p) = conc_ep(h, l, r, news, e1);
    let (b, q) = conc_ep(h, l, r, news, e2);
    let h2 = connect_spec(m, a, p, b, q).heap;
    let pending2 = use_ep(use_ep(t, e1), e2).pending;
    lemma_connect_links_both_ways(m, a, p, b, q);
    lemma_port_at_index(p);
    lemma_port_at_index(q);
    lemma_port_at_roundtrip(i);
    assert(outside_port(h, l, r, t.pending, c, i));
    let x = h[c].ports@[i];
    assert(h2[c].ports@[i] == x);
    let d = x.agent_addr as nat;
    let j = x.port_num.spec_index() as int;
    lemma_port_at_index(x.port_num);
    assert(h[d].ports@[j] == (Port { agent_addr: c as usize, port_num: port_at(i) }));
    if d == a && j == p.spec_index() {
        match e1 {
            Ep::Pend(q1) => {
                assert(c as usize == pend_port(l, r, q1).0 as usize);
            },
            Ep::New(k1, j1) => {},
        }
    }
    if d == b && j == q.spec_index() {
        match e2 {
            Ep::Pend(q2) => {
                assert(c as usize == pend_port(l, r, q2).0 as usize);
            },
            Ep::New(k2, j2) => {},
        }
    }
    assert(h2[d].ports@[j] == h[d].ports@[j]);
    if d == l || d == r {
        let qq = if d == l { j } else { 2 + j };
        assert(t.pending[qq]);
        assert(pend_port(l, r, qq) == (d, j));
        if e1 == Ep::Pend(qq) {
            assert(a == c && p == port_at(i));
        }
        if e2 == Ep::Pend(qq) {
            assert(b == c && q == port_at(i));
        }
        assert(pending2[qq]);
    }
}

proof fn lemma_connect_pending(m: Machine, l: nat, r: nat, news: Seq<nat>, t: Track, e1: Ep, e2: Ep)
    requires
        tracks(m, l, r, news, t),
        e1 != e2,
        ep_ok(m.heap, l, r, news, t, e1),
        ep_ok(m.heap, l, r, news, t, e2),
        conc_ep(m.heap, l, r, news, e1) != conc_ep(m.heap, l, r, news, e2),
    ensures
        pending_ok(
            connect_spec(
                m,
                conc_ep(m.heap, l, r, news, e1).0,
                conc_ep(m.heap, l, r, news, e1).1,
                conc_ep(m.heap, l, r, news, e2).0,
                conc_ep(m.heap, l, r, news, e2).1,
            ).heap,
            l,
            r,
            use_ep(use_ep(t, e1), e2).pending,
        ),
{
    reveal(pending_ok);
    let h = m.heap;
    let (a, p) = conc_ep(h, l, r, news, e1);
    let (b, q) = conc_ep(h, l, r, news, e2);
    let h2 = connect_spec(m, a, p, b, q).heap;
    let pending2 = use_ep(use_ep(t, e1), e2).pending;
    lemma_connect_links_both_ways(m, a, p, b, q);
    lemma_port_at_index(p);
    lemma_port_at_index(q);
    assert forall|qq: int| 0 <= qq < 6 && #[trigger] pending2[qq] implies {
        let d = pend_port(l, r, qq).0;
        let j = pend_port(l, r, qq).1;
        let x = h2[d].ports@[j];
        let c = x.agent_addr as nat;
        &&& x.is_connected()
        &&& h2.contains_key(c)
        &&& c != l
        &&& c != r
        &&& h2[c].ports@[x.port_num.spec_index() as int] == (Port {
            agent_addr: d as usize,
            port_num: port_at(j),
        })
    } by {
        assert(t.pending[qq]);
        assert(e1 != Ep::Pend(qq));
        assert(e2 != Ep::Pend(qq));
        let d = pend_port(l, r, qq).0;
        let j = pend_port(l, r, qq).1;
        assert(h2[d].ports@[j] == h[d].ports@[j]);
        let x = h[d].ports@[j];
        let c = x.agent_addr as nat;
        let xi = x.port_num.spec_index() as int;
        lemma_port_at_index(x.port_num);
        lemma_port_at_roundtrip(j);
        if c == a && xi == p.spec_index() {
            match e1 {
                Ep::Pend(q1) => {
                    lemma_port_at_roundtrip(pend_port(l, r, q1).1);
                    assert(pend_port(l, r, q1) == pend_port(l, r, qq));
                },
                Ep::New(k1, j1) => {},
            }
        }
        if c == b && xi == q.spec_index() {
            match e2 {
                Ep::Pend(q2) => {
                    lemma_port_at_roundtrip(pend_port(l, r, q2).1);
                    assert(pend_port(l, r, q2) == pend_port(l, r, qq));
                },
                Ep::New(k2, j2) => {},
            }
        }
        assert(h2[c].ports@[xi] == h[c].ports@[xi]);
    }
}

proof fn lemma_connect_free(m: Machine, l: nat, r: nat, news: Seq<nat>, t: Track, e1: Ep, e2: Ep)
    requires
        tracks(m, l, r, news, t),
        e1 != e2,
        ep_ok(m.heap, l, r, news, t, e1),
        ep_ok(m.heap, l, r, news, t, e2),
        conc_ep(m.heap, l, r, news, e1) != conc_ep(m.heap, l, r, news, e2),
    ensures
        free_ok(
            connect_spec(
                m,
                conc_ep(m.heap, l, r, news, e1).0,
                conc_ep(m.heap, l, r, news, e1).1,
                conc_ep(m.heap, l, r, news, e2).0,
                conc_ep(m.heap, l, r, news, e2).1,
            ).heap,
            news,
            use_ep(use_ep(t, e1), e2),
        ),
{
    reveal(free_ok);
    let h = m.heap;
    let (a, p) = conc_ep(h, l, r, news, e1);
    let (b, q) = conc_ep(h, l, r, news, e2);
    let h2 = connect_spec(m, a, p, b, q).heap;
    let t2 = use_ep(use_ep(t, e1), e2);
    lemma_connect_links_both_ways(m, a, p, b, q);
    lemma_port_at_index(p);
    lemma_port_at_index(q);
    assert forall|k: int, j: int|
        0 <= k < t2.count && 0 <= j < 5 && #[trigger] t2.free[k][j] implies {
        &&& !h2[news[k]].ports@[j].is_connected()
        &&& (j < 4 ==> j < h2[news[k]].agent_type.arity())
    } by {
        assert(t.free[k][j]);
        assert(e1 != Ep::New(k, j));
        assert(e2 != Ep::New(k, j));
        assert(h.contains_key(news[k]));
        if news[k] == a && j == p.spec_index() {
            match e1 {
                Ep::Pend(q1) => {},
                Ep::New(k1, j1) => {
                    lemma_port_at_roundtrip(j1);
                    if k1 < k {
                        assert(news[k1] != news[k]);
                    } else if k < k1 {
                        assert(news[k] != news[k1]);
                    }
                },
            }
        }
        if news[k] == b && j == q.spec_index() {
            match e2 {
                Ep::Pend(q2) => {},
                Ep::New(k2, j2) => {
                    lemma_port_at_roundtrip(j2);
                    if k2 < k {
                        assert(news[k2] != news[k]);
                    } else if k < k2 {
                        assert(news[k] != news[k2]);
                    }
                },
            }
        }
        assert(h2[news[k]].ports@[j] == h[news[k]].ports@[j]);
        assert(h2[news[k]].agent_type == h[news[k]].agent_type);
    }
}

proof fn lemma_connect_well_typed(m: Machine, l: nat, r: nat, news: Seq<nat>, t: Track, e1: Ep, e2: Ep)
    requires
        well_typed(m.heap),
        l < HEAP_CAPACITY,
        r < HEAP_CAPACITY,
        ep_ok(m.heap, l, r, news, t, e1),
        ep_ok(m.heap, l, r, news, t, e2),
        conc_ep(m.heap, l, r, news, e1) != conc_ep(m.heap, l, r, news, e2),
    ensures
        well_typed(
            connect_spec(
                m,
                conc_ep(m.heap, l, r, news, e1).0,
                conc_ep(m.heap, l, r, news, e1).1,
                conc_ep(m.heap, l, r, news, e2).0,
                conc_ep(m.heap, l, r, news, e2).1,
            ).heap,
        ),
{
    reveal(well_typed);
    let h = m.heap;
    let (a, p) = conc_ep(h, l, r, news, e1);
    let (b, q) = conc_ep(h, l, r, news, e2);
    let h2 = connect_spec(m, a, p, b, q).heap;
    lemma_connect_links_both_ways(m, a, p, b, q);
    lemma_port_at_index(p);
    lemma_port_at_index(q);
    assert(p.spec_index() == 4 || p.spec_index() < h[a].agent_type.arity()) by {
        match e1 {
            Ep::Pend(q1) => {
                assert(h[a].ports@[p.spec_index() as int].is_connected());
            },
            Ep::New(k1, j1) => {
                lemma_port_at_roundtrip(j1);
            },
        }
    }
    assert(q.spec_index() == 4 || q.spec_index() < h[b].agent_type.arity()) by {
        match e2 {
            Ep::Pend(q2) => {
                assert(h[b].ports@[q.spec_index() as int].is_connected());
            },
            Ep::New(k2, j2) => {
                lemma_port_at_roundtrip(j2);
            },
        }
    }
    assert forall|c: nat, i: int|
        h2.contains_key(c) && h2[c].agent_type.arity() <= i < 4 implies !(#[trigger] h2[c].ports@[i]).is_connected() by {
        assert(h2[c].agent_type == h[c].agent_type);
        if !(c == a && i == p.spec_index()) && !(c == b && i == q.spec_index()) {
            assert(h2[c].ports@[i] == h[c].ports@[i]);
        }
    }
}

proof fn lemma_track_connect(m: Machine, l: nat, r: nat, news: Seq<nat>, t: Track, i: Instr)
    requires
        tracks(m, l, r, news, t),
        i is Connect,
        abs_step(t, i) is Some,
    ensures
        exec_instr_spec(m, i) is Some,
        tracks(exec_instr_spec(m, i)->0, l, r, news, abs_step(t, i)->0),
{
    if let Instr::Connect(ra, pa, rb, pb, mode) = i {
        let e1 = abs_endpoint(t, ra, pa, mode.resolves_left())->0;
        let e2 = abs_endpoint(t, rb, pb, mode.resolves_right())->0;
        lemma_track_endpoint(m, l, r, news, t, ra, pa, mode.resolves_left());
        lemma_track_endpoint(m, l, r, news, t, rb, pb, mode.resolves_right());
        lemma_conc_distinct(m.heap, l, r, news, t, e1, e2);
        let (a, p) = conc_ep(m.heap, l, r, news, e1);
        let (b, q) = conc_ep(m.heap, l, r, news, e2);
        let m2 = connect_spec(m, a, p, b, q);
        let t2 = use_ep(use_ep(t, e1), e2);
        assert(exec_instr_spec(m, i) == Some(m2));
        assert(abs_step(t, i) == Some(t2));
        lemma_connect_outside(m, l, r, news, t, e1, e2);
        lemma_connect_pending(m, l, r, news, t, e1, e2);
        lemma_connect_free(m, l, r, news, t, e1, e2);
        lemma_connect_well_typed(m, l, r, news, t, e1, e2);
        lemma_connect_links_both_ways(m, a, p, b, q);
        assert(m2.heap.dom() == m.heap.dom());
        assert forall|k: int| 0 <= k < 4 implies #[trigger] t2.free[k].len() == 5 by {
            assert(t.free[k].len() == 5);
        }
        assert forall|x: int| 0 <= x < 12 implies slot_ok(#[trigger] m2.reg[x], t2.regs[x], l, r, news) by {
            assert(slot_ok(m.reg[x], t.regs[x], l, r, news));
        }
        assert forall|k: int|
            0 <= k < news.len() implies m2.heap.contains_key(#[trigger] news[k]) && news[k] != l
            && news[k] != r by {
            assert(m.heap.contains_key(news[k]));
        }
    }
}

proof fn lemma_track_run(m: Machine, code: Seq<Instr>, pc: nat, l: nat, r: nat, news: Seq<nat>, t: Track)
    requires
        tracks(m, l, r, news, t),
        abs_run(t, code, pc),
    ensures
        run_spec(m, code, pc).0,
        settled(run_spec(m, code, pc).1.heap, l, r),
        well_typed(run_spec(m, code, pc).1.heap),
    decreases code.len() - pc,
{
    let i = code[pc as int];
    if i == Instr::Return {
        let h = m.heap;
        reveal(outside_ok);
        assert forall|c: nat, j: int|
            #![trigger h[c].ports@[j]]
            h.contains_key(c) && c != l && c != r && 0 <= j < 5 && h[c].ports@[j].is_connected() implies {
            let x = h[c].ports@[j];
            let d = x.agent_addr as nat;
            &&& h.contains_key(d)
            &&& d != l
            &&& d != r
            &&& h[d].ports@[x.port_num.spec_index() as int] == (Port {
                agent_addr: c as usize,
                port_num: port_at(j),
            })
        } by {
            assert(outside_port(h, l, r, t.pending, c, j));
        }
    } else {
        match i {
            Instr::MkAgent(reg, ty) => {
                lemma_track_mk(m, l, r, news, t, reg, ty);
                lemma_track_run(
                    exec_instr_spec(m, i)->0,
                    code,
                    pc + 1,
                    l,
                    r,
                    news.push(lowest_free(m.heap)),
                    abs_step(t, i)->0,
                );
            },
            Instr::Connect(..) => {
                lemma_track_connect(m, l, r, news, t, i);
                lemma_track_run(exec_instr_spec(m, i)->0, code, pc + 1, l, r, news, abs_step(t, i)->0);
            },
            _ => {},
        }
    }
}

/// With no wire from outside into the pair, dropping the pair leaves every
/// wire symmetric.
proof fn lemma_settled_remove(h: Map<nat, Agent>, l: nat, r: nat)
    requires
        settled(h, l, r),
    ensures
        symmetric(h.remove(l).remove(r)),
{
    reveal(symmetric);
    let h2 = h.remove(l).remove(r);
    assert forall|c: nat, i: int|
        #![trigger h2[c].ports@[i]]
        h2.contains_key(c) && 0 <= i < 5 && h2[c].ports@[i].is_connected() implies {
        let x = h2[c].ports@[i];
        &&& h2.contains_key(x.agent_addr as nat)
        &&& h2[x.agent_addr as nat].ports@[x.port_num.spec_index() as int] == (Port {
            agent_addr: c as usize,
            port_num: port_at(i),
        })
    } by {
        assert(h[c].ports@[i] == h2[c].ports@[i]);
    }
}

proof fn lemma_remove_well_typed(h: Map<nat, Agent>, l: nat, r: nat)
    requires
        well_typed(h),
    ensures
        well_typed(h.remove(l).remove(r)),
{
    reveal(well_typed);
    let h2 = h.remove(l).remove(r);
    assert forall|c: nat, i: int|
        h2.contains_key(c) && h2[c].agent_type.arity() <= i < 4 implies !(#[trigger] h2[c].ports@[i]).is_connected() by {
        assert(h2[c] == h[c]);
    }
}

/// The tracker's state when a rule body starts: register 0 holds the value
/// agent, register 3 the operator agent, and every auxiliary wire of the two
/// is still to be moved.
pub open spec fn initial_track(tl: AgentType, tr: AgentType) -> Track {
    Track {
        regs: seq![
            Slot::Left,
            Slot::Other,
            Slot::Other,
            Slot::Right,
            Slot::Other,
            Slot::Other,
            Slot::Other,
            Slot::Other,
            Slot::Other,
            Slot::Other,
            Slot::Other,
            Slot::Other,
        ],
        pending: seq![
            0 < tl.arity(),
            1 < tl.arity(),
            0 < tr.arity(),
            1 < tr.arity(),
            2 < tr.arity(),
            3 < tr.arity(),
        ],
        free: seq![
            seq![false, false, false, false, false],
            seq![false, false, false, false, false],
            seq![false, false, false, false, false],
            seq![false, false, false, false, false],
        ],
        count: 0,
    }
}

proof fn lemma_rule_tracked_l_e()
    ensures
        abs_run(initial_track(AgentType::L, AgentType::E), rule(0), 0),
{
    reveal_with_fuel(abs_run, 14);
}

proof fn lemma_rule_tracked_l_d()
    ensures
        abs_run(initial_track(AgentType::L, AgentType::D), rule(1), 0),
{
    reveal_with_fuel(abs_run, 14);
}

proof fn lemma_rule_tracked_l_a()
    ensures
        abs_run(initial_track(AgentType::L, AgentType::A), rule(2), 0),
{
    reveal_with_fuel(abs_run, 14);
}

proof fn lemma_rule_tracked_l_t()
    ensures
        abs_run(initial_track(AgentType::L, AgentType::T), rule(3), 0),
{
    reveal_with_fuel(abs_run, 14);
}

proof fn lemma_rule_tracked_l_q()
    ensures
        abs_run(initial_track(AgentType::L, AgentType::Q), rule(4), 0),
{
    reveal_with_fuel(abs_run, 14);
}

proof fn lemma_rule_tracked_s_e()
    ensures
        abs_run(initial_track(AgentType::S, AgentType::E), rule(5), 0),
{
    reveal_with_fuel(abs_run, 14);
}

proof fn lemma_rule_tracked_s_d()
    ensures
        abs_run(initial_track(AgentType::S, AgentType::D), rule(6), 0),
{
    reveal_with_fuel(abs_run, 14);
}

proof fn lemma_rule_tracked_s_a()
    ensures
        abs_run(initial_track(AgentType::S, AgentType::A), rule(7), 0),
{
    reveal_with_fuel(abs_run, 14);
}

proof fn lemma_rule_tracked_s_t()
    ensures
        abs_run(initial_track(AgentType::S, AgentType::T), rule(8), 0),
{
    reveal_with_fuel(abs_run, 14);
}

proof fn lemma_rule_tracked_s_q()
    ensures
        abs_run(initial_track(AgentType::S, AgentType::Q), rule(9), 0),
{
    reveal_with_fuel(abs_run, 14);
}

proof fn lemma_rule_tracked_f_e()
    ensures
        abs_run(initial_track(AgentType::F, AgentType::E), rule(10), 0),
{
    reveal_with_fuel(abs_run, 14);
}

proof fn lemma_rule_tracked_f_d()
    ensures
        abs_run(initial_track(AgentType::F, AgentType::D), rule(11), 0),
{
    reveal_with_fuel(abs_run, 14);
}

proof fn lemma_rule_tracked_f_a()
    ensures
        abs_run(initial_track(AgentType::F, AgentType::A), rule(12), 0),
{
    reveal_with_fuel(abs_run, 14);
}

proof fn lemma_rule_tracked_f_t()
    ensures
        abs_run(initial_track(AgentType::F, AgentType::T), rule(13), 0),
{
    reveal_with_fuel(abs_run, 14);
}

proof fn lemma_rule_tracked_f_q()
    ensures
        abs_run(initial_track(AgentType::F, AgentType::Q), rule(14), 0),
{
    reveal_with_fuel(abs_run, 14);
}

/// Every rule body moves each auxiliary wire of the pair exactly once and
/// otherwise only wires ports of the agents it creates.
proof fn lemma_rules_tracked(tl: AgentType, tr: AgentType)
    requires
        tl.is_value(),
        tr.is_operator(),
    ensures
        abs_run(initial_track(tl, tr), rule(rule_index(tl, tr)), 0),
{
    if tl == AgentType::L && tr == AgentType::E {
        lemma_rule_tracked_l_e();
    } else if tl == AgentType::L && tr == AgentType::D {
        lemma_rule_tracked_l_d();
    } else if tl == AgentType::L && tr == AgentType::A {
        lemma_rule_tracked_l_a();
    } else if tl == AgentType::L && tr == AgentType::T {
        lemma_rule_tracked_l_t();
    } else if tl == AgentType::L && tr == AgentType::Q {
        lemma_rule_tracked_l_q();
    } else if tl == AgentType::S && tr == AgentType::E {
        lemma_rule_tracked_s_e();
    } else if tl == AgentType::S && tr == AgentType::D {
        lemma_rule_tracked_s_d();
    } else if tl == AgentType::S && tr == AgentType::A {
        lemma_rule_tracked_s_a();
    } else if tl == AgentType::S && tr == AgentType::T {
        lemma_rule_tracked_s_t();
    } else if tl == AgentType::S && tr == AgentType::Q {
        lemma_rule_tracked_s_q();
    } else if tl == AgentType::F && tr == AgentType::E {
        lemma_rule_tracked_f_e();
    } else if tl == AgentType::F && tr == AgentType::D {
        lemma_rule_tracked_f_d();
    } else if tl == AgentType::F && tr == AgentType::A {
        lemma_rule_tracked_f_a();
    } else if tl == AgentType::F && tr == AgentType::T {
        lemma_rule_tracked_f_t();
    } else if tl == AgentType::F && tr == AgentType::Q {
        lemma_rule_tracked_f_q();
    }
}

/// Connecting two unconnected ports, each principal or auxiliary within its
/// agent's arity, keeps the graph well typed.
pub proof fn lemma_connect_keeps_well_typed(m: Machine, a: nat, p: PortNum, b: nat, q: PortNum)
    requires
        well_typed(m.heap),
        m.heap.contains_key(a),
        m.heap.contains_key(b),
        a != b || p != q,
        p == PortNum::Main || p.spec_index() < m.heap[a].agent_type.arity(),
        q == PortNum::Main || q.spec_index() < m.heap[b].agent_type.arity(),
    ensures
        well_typed(connect_spec(m, a, p, b, q).heap),
{
    reveal(well_typed);
    let h = m.heap;
    let h2 = connect_spec(m, a, p, b, q).heap;
    lemma_connect_links_both_ways(m, a, p, b, q);
    lemma_port_at_index(p);
    lemma_port_at_index(q);
    assert forall|c: nat, i: int|
        h2.contains_key(c) && h2[c].agent_type.arity() <= i < 4 implies !(#[trigger] h2[c].ports@[i]).is_connected() by {
        assert(h2[c].agent_type == h[c].agent_type);
        if !(c == a && i == p.spec_index()) && !(c == b && i == q.spec_index()) {
            assert(h2[c].ports@[i] == h[c].ports@[i]);
        }
    }
}

/// The pair on top of the stack is ready to reduce: two distinct live
/// agents, the value on the left and the operator on the right, joined by
/// their principal ports, each auxiliary port of either wired to an agent
/// outside the pair.
pub open spec fn top_pair_ready(m: Machine) -> bool {
    let h = m.heap;
    let l = m.pairs.last().left_agent as nat;
    let r = m.pairs.last().right_agent as nat;
    &&& m.pairs.len() > 0
    &&& l != r
    &&& h.contains_key(l)
    &&& h.contains_key(r)
    &&& h[l].agent_type.is_value()
    &&& h[r].agent_type.is_operator()
    &&& h[l].port(PortNum::Main) == (Port { agent_addr: r as usize, port_num: PortNum::Main })
    &&& forall|d: nat, j: int|
        (d == l || d == r) && 0 <= j < h[d].agent_type.arity() ==> {
            let x = #[trigger] h[d].ports@[j];
            &&& x.is_connected()
            &&& x.agent_addr as nat != l
            &&& x.agent_addr as nat != r
        }
}

/// When a ready pair starts its rule, the tracker's initial state describes
/// the machine.
proof fn lemma_symmetric_at(h: Map<nat, Agent>, c: nat, i: int)
    requires
        symmetric(h),
        h.contains_key(c),
        0 <= i < 5,
        h[c].ports@[i].is_connected(),
    ensures
        h.contains_key(h[c].ports@[i].agent_addr as nat),
        h[h[c].ports@[i].agent_addr as nat].ports@[h[c].ports@[i].port_num.spec_index() as int] == (Port {
            agent_addr: c as usize,
            port_num: port_at(i),
        }),
{
    reveal(symmetric);
}

proof fn lemma_well_typed_at(h: Map<nat, Agent>, c: nat, i: int)
    requires
        well_typed(h),
        h.contains_key(c),
        h[c].agent_type.arity() <= i < 4,
    ensures
        !h[c].ports@[i].is_connected(),
{
    reveal(well_typed);
}

proof fn lemma_initial_outside(m: Machine)
    requires
        symmetric(m.heap),
        well_typed(m.heap),
        forall|a: nat| m.heap.contains_key(a) ==> a < HEAP_CAPACITY - 4,
        top_pair_ready(m),
    ensures
        ({
            let h = m.heap;
            let l = m.pairs.last().left_agent as nat;
            let r = m.pairs.last().right_agent as nat;
            outside_ok(h, l, r, initial_track(h[l].agent_type, h[r].agent_type).pending)
        }),
{
    let h = m.heap;
    let l = m.pairs.last().left_agent as nat;
    let r = m.pairs.last().right_agent as nat;
    let t0 = initial_track(h[l].agent_type, h[r].agent_type);
    reveal(outside_ok);
    assert forall|c: nat, i: int| #[trigger] outside_port(h, l, r, t0.pending, c, i) by {
        if h.contains_key(c) && c != l && c != r && 0 <= i < 5 && h[c].ports@[i].is_connected() {
            let x = h[c].ports@[i];
            let d = x.agent_addr as nat;
            let j = x.port_num.spec_index() as int;
            lemma_port_at_index(x.port_num);
            lemma_symmetric_at(h, c, i);
            assert(h[d].ports@[j] == (Port { agent_addr: c as usize, port_num: port_at(i) }));
            if d == l || d == r {
                if j == 4 {
                    assert(h[l].ports@[4] == (Port { agent_addr: r as usize, port_num: PortNum::Main }));
                    lemma_symmetric_at(h, l, 4);
                    assert(h[r].ports@[4] == (Port { agent_addr: l as usize, port_num: port_at(4) }));
                }
                assert(j < 4);
                assert(h[d].ports@[j].is_connected());
                if j >= h[d].agent_type.arity() {
                    lemma_well_typed_at(h, d, j);
                }
            }
        }
    }
}

proof fn lemma_initial_pending(m: Machine)
    requires
        symmetric(m.heap),
        well_typed(m.heap),
        forall|a: nat| m.heap.contains_key(a) ==> a < HEAP_CAPACITY - 4,
        top_pair_ready(m),
    ensures
        ({
            let h = m.heap;
            let l = m.pairs.last().left_agent as nat;
            let r = m.pairs.last().right_agent as nat;
            pending_ok(h, l, r, initial_track(h[l].agent_type, h[r].agent_type).pending)
        }),
{
    let h = m.heap;
    let l = m.pairs.last().left_agent as nat;
    let r = m.pairs.last().right_agent as nat;
    let t0 = initial_track(h[l].agent_type, h[r].agent_type);
    reveal(pending_ok);
    assert forall|q: int| 0 <= q < 6 && #[trigger] t0.pending[q] implies {
        let d = pend_port(l, r, q).0;
        let j = pend_port(l, r, q).1;
        let x = h[d].ports@[j];
        let c = x.agent_addr as nat;
        &&& x.is_connected()
        &&& h.contains_key(c)
        &&& c != l
        &&& c != r
        &&& h[c].ports@[x.port_num.spec_index() as int] == (Port {
            agent_addr: d as usize,
            port_num: port_at(j),
        })
    } by {
        let d = pend_port(l, r, q).0;
        let j = pend_port(l, r, q).1;
        assert(0 <= j < h[d].agent_type.arity());
        assert(h[d].ports@[j].is_connected());
        lemma_symmetric_at(h, d, j);
        lemma_port_at_roundtrip(j);
    }
}

proof fn lemma_initial_tracks(m: Machine)
    requires
        symmetric(m.heap),
        well_typed(m.heap),
        m.reg.len() == 12,
        forall|a: nat| m.heap.contains_key(a) ==> a < HEAP_CAPACITY - 4,
        top_pair_ready(m),
    ensures
        ({
            let h = m.heap;
            let l = m.pairs.last().left_agent as nat;
            let r = m.pairs.last().right_agent as nat;
            let m2 = Machine { heap: h, pairs: m.pairs.drop_last(), reg: pair_regs(m.reg, h, l, r) };
            tracks(m2, l, r, Seq::<nat>::empty(), initial_track(h[l].agent_type, h[r].agent_type))
        }),
{
    let h = m.heap;
    let eq = m.pairs.last();
    let l = eq.left_agent as nat;
    let r = eq.right_agent as nat;
    let tl = h[l].agent_type;
    let tr = h[r].agent_type;
    let m2 = Machine { heap: h, pairs: m.pairs.drop_last(), reg: pair_regs(m.reg, h, l, r) };
    let t0 = initial_track(tl, tr);
    let news = Seq::<nat>::empty();
    assert forall|k: int| 0 <= k < 4 implies #[trigger] t0.free[k].len() == 5 by {}
    assert forall|x: int| 0 <= x < 12 implies slot_ok(#[trigger] m2.reg[x], t0.regs[x], l, r, news) by {}
    lemma_initial_outside(m);
    lemma_initial_pending(m);
    assert(free_ok(h, news, t0)) by {
        reveal(free_ok);
    }
}

/// Reducing a pair keeps every wire symmetric: on a symmetric, well-typed
/// graph whose top pair is ready, with room for the agents a rule creates,
/// a step of evaluation does not fault and leaves a symmetric, well-typed
/// graph.
pub proof fn lemma_step_keeps_symmetry(m: Machine)
    requires
        symmetric(m.heap),
        well_typed(m.heap),
        m.reg.len() == 12,
        forall|a: nat| m.heap.contains_key(a) ==> a < HEAP_CAPACITY - 4,
        top_pair_ready(m),
    ensures
        step_spec(m).0 != EvalState::EvalFault,
        symmetric(step_spec(m).1.heap),
        well_typed(step_spec(m).1.heap),
{
    let h = m.heap;
    let eq = m.pairs.last();
    let l = eq.left_agent as nat;
    let r = eq.right_agent as nat;
    let tl = h[l].agent_type;
    let tr = h[r].agent_type;
    let m1 = Machine { heap: m.heap, pairs: m.pairs.drop_last(), reg: m.reg };
    let m2 = Machine { heap: m1.heap, pairs: m1.pairs, reg: pair_regs(m1.reg, m1.heap, l, r) };
    let t0 = initial_track(tl, tr);
    let news = Seq::<nat>::empty();
    lemma_initial_tracks(m);
    lemma_rules_tracked(tl, tr);
    lemma_track_run(m2, rule(rule_index(tl, tr)), 0, l, r, news, t0);
    let m3 = run_spec(m2, rule(rule_index(tl, tr)), 0).1;
    lemma_settled_remove(m3.heap, l, r);
    lemma_remove_well_typed(m3.heap, l, r);
}

} // verus!
