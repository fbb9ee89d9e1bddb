use vstd::prelude::*;

use crate::agent::{Agent, AgentType, Port};
use crate::code::{
    agents, code_of, lemma_agents_unfold, lemma_code_of_unfold, out_port, program_of, ConnectMode, Instr,
};
use crate::expr::{Expr, Tree};
use crate::global::PortNum;
use crate::heap::{is_lowest_free, lemma_lowest_free_unique, lowest_free, HEAP_CAPACITY};
use crate::symmetry::{lemma_connect_keeps_well_typed, lemma_insert_well_typed, well_typed};
use crate::lemmas::{
    lemma_connect_keeps_symmetry, lemma_connect_links_both_ways, lemma_evaluation_deterministic,
    lemma_insert_fresh_keeps_symmetry, lemma_port_at_index, symmetric,
};
use crate::vm::{
    connect_spec, evaluates_to, exec_instr_spec, initial_machine, readback_tree, run_spec, step_spec, steps,
    EvalState, Machine, VM,
};

verus! {

/// Runs every instruction of `code` in order; `None` where one fails.
pub open spec fn run_all(m: Machine, code: Seq<Instr>) -> Option<Machine>
    decreases code.len(),
{
    if code.len() == 0 {
        Some(m)
    } else {
        match exec_instr_spec(m, code[0]) {
            Some(m2) => run_all(m2, code.drop_first()),
            None => None,
        }
    }
}

/// Every node of the term `t cs` has at most two children: the term is a
/// value, built from leaves, stems and forks alone.
pub open spec fn is_value_term(cs: Seq<Expr>) -> bool
    decreases cs,
{
    if cs.len() == 0 {
        true
    } else if cs.len() == 1 {
        is_value_term(cs[0].children@)
    } else if cs.len() == 2 {
        is_value_term(cs[0].children@) && is_value_term(cs[1].children@)
    } else {
        false
    }
}

/// The term `t cs` as a tree.
pub open spec fn tree_of(cs: Seq<Expr>) -> Tree {
    Tree {
        children: Seq::new(
            cs.len(),
            |i: int|
                if 0 <= i < cs.len() {
                    cs[i]@
                } else {
                    Tree { children: Seq::empty() }
                },
        ),
    }
}

/// The live addresses are exactly those below `n`.
pub open spec fn dense(h: Map<nat, Agent>, n: nat) -> bool {
    forall|a: nat| h.contains_key(a) <==> a < n
}

/// `h1` and `h2` hold, at each address from `lo` up to `hi`, agents of the
/// same type with the same first two ports.
pub open spec fn agrees(h1: Map<nat, Agent>, h2: Map<nat, Agent>, lo: nat, hi: nat) -> bool {
    forall|a: nat|
        #![trigger h1[a]]
        #![trigger h2[a]]
        lo <= a < hi ==> {
            &&& h1.contains_key(a)
            &&& h2.contains_key(a)
            &&& h1[a].agent_type == h2[a].agent_type
            &&& h1[a].ports@[0] == h2[a].ports@[0]
            &&& h1[a].ports@[1] == h2[a].ports@[1]
        }
}

/// Any graph that keeps the agents from `addr` up to `hi` as `h` has them
/// reads back as the term `t cs` from `addr`, with enough fuel.
pub open spec fn reads_as(h: Map<nat, Agent>, addr: nat, hi: nat, cs: Seq<Expr>) -> bool {
    forall|h2: Map<nat, Agent>, f: nat|
        agrees(h2, h, addr, hi) && f >= agents(cs) ==> #[trigger] readback_tree(h2, addr, f)
            == tree_of(cs)
}

/// Running the code of `t cs` from `m` built it at `addr`.
pub open spec fn builds(m: Machine, cs: Seq<Expr>, addr: nat, m2: Machine) -> bool {
    &&& dense(m2.heap, addr + agents(cs))
    &&& m2.pairs == m.pairs
    &&& m2.reg.len() == m.reg.len()
    &&& forall|a: nat| a < addr ==> #[trigger] m2.heap[a] == m.heap[a]
    &&& reads_as(m2.heap, addr, addr + agents(cs), cs)
}

pub open spec fn no_return(code: Seq<Instr>) -> bool {
    forall|j: int| 0 <= j < code.len() ==> code[j] != Instr::Return
}

proof fn lemma_run_all_append(m: Machine, c1: Seq<Instr>, c2: Seq<Instr>)
    ensures
        run_all(m, c1 + c2) == match run_all(m, c1) {
            Some(m1) => run_all(m1, c2),
            None => None,
        },
    decreases c1.len(),
{
    if c1.len() == 0 {
        assert(c1 + c2 =~= c2);
    } else {
        assert((c1 + c2)[0] == c1[0]);
        assert((c1 + c2).drop_first() =~= c1.drop_first() + c2);
        match exec_instr_spec(m, c1[0]) {
            Some(m2) => lemma_run_all_append(m2, c1.drop_first(), c2),
            None => {},
        }
    }
}

proof fn lemma_run_all_one(m: Machine, i: Instr)
    ensures
        run_all(m, seq![i]) == exec_instr_spec(m, i),
{
    assert(seq![i].drop_first() =~= Seq::<Instr>::empty());
    match exec_instr_spec(m, i) {
        Some(m2) => {
            assert(run_all(m2, Seq::<Instr>::empty()) == Some(m2));
        },
        None => {},
    }
}

proof fn lemma_run_all_cons(m: Machine, i: Instr, rest: Seq<Instr>)
    ensures
        run_all(m, seq![i] + rest) == match exec_instr_spec(m, i) {
            Some(m2) => run_all(m2, rest),
            None => None,
        },
{
    assert((seq![i] + rest)[0] == i);
    assert((seq![i] + rest).drop_first() =~= rest);
}

proof fn lemma_view_is_tree_of(e: Expr)
    ensures
        e@ == tree_of(e.children@),
{
    assert(e@.children =~= tree_of(e.children@).children);
}

/// Where the agent at `a` kept its type and first two ports, so did every
/// agent that the connection did not write.
proof fn lemma_connect_agrees(m: Machine, a: nat, p: PortNum, b: nat, q: PortNum, lo: nat, hi: nat)
    requires
        m.heap.contains_key(a),
        m.heap.contains_key(b),
        a != b || p != q,
        forall|x: nat| lo <= x < hi ==> m.heap.contains_key(x),
        !(lo <= a < hi) || p == PortNum::Main,
        !(lo <= b < hi) || q == PortNum::Main,
    ensures
        agrees(connect_spec(m, a, p, b, q).heap, m.heap, lo, hi),
{
    lemma_connect_links_both_ways(m, a, p, b, q);
    let h = connect_spec(m, a, p, b, q).heap;
    assert forall|x: nat| #![trigger h[x]] lo <= x < hi implies {
        &&& h.contains_key(x)
        &&& m.heap.contains_key(x)
        &&& h[x].agent_type == m.heap[x].agent_type
        &&& h[x].ports@[0] == m.heap[x].ports@[0]
        &&& h[x].ports@[1] == m.heap[x].ports@[1]
    } by {
        assert(h[x].ports@[0] == m.heap[x].ports@[0]);
        assert(h[x].ports@[1] == m.heap[x].ports@[1]);
    }
}

proof fn lemma_agrees_trans(h1: Map<nat, Agent>, h2: Map<nat, Agent>, h3: Map<nat, Agent>, lo: nat, hi: nat)
    requires
        agrees(h1, h2, lo, hi),
        agrees(h2, h3, lo, hi),
    ensures
        agrees(h1, h3, lo, hi),
{
    assert forall|a: nat| #![trigger h1[a]] #![trigger h3[a]] lo <= a < hi implies {
        &&& h1.contains_key(a)
        &&& h3.contains_key(a)
        &&& h1[a].agent_type == h3[a].agent_type
        &&& h1[a].ports@[0] == h3[a].ports@[0]
        &&& h1[a].ports@[1] == h3[a].ports@[1]
    } by {
        assert(h2[a] == h2[a]);
    }
}

proof fn lemma_agrees_sub(h1: Map<nat, Agent>, h2: Map<nat, Agent>, lo: nat, hi: nat, lo2: nat, hi2: nat)
    requires
        agrees(h1, h2, lo, hi),
        lo <= lo2,
        hi2 <= hi,
    ensures
        agrees(h1, h2, lo2, hi2),
{
    assert forall|a: nat| #![trigger h1[a]] #![trigger h2[a]] lo2 <= a < hi2 implies {
        &&& h1.contains_key(a)
        &&& h2.contains_key(a)
        &&& h1[a].agent_type == h2[a].agent_type
        &&& h1[a].ports@[0] == h2[a].ports@[0]
        &&& h1[a].ports@[1] == h2[a].ports@[1]
    } by {
        assert(h1[a] == h1[a]);
    }
}

/// Agents that stayed as they were agree.
proof fn lemma_agrees_unchanged(h1: Map<nat, Agent>, h2: Map<nat, Agent>, lo: nat, hi: nat)
    requires
        forall|a: nat| lo <= a < hi ==> h1.contains_key(a) && h2.contains_key(a) && #[trigger] h1[a] == h2[a],
    ensures
        agrees(h1, h2, lo, hi),
{
    assert forall|a: nat| #![trigger h1[a]] #![trigger h2[a]] lo <= a < hi implies {
        &&& h1.contains_key(a)
        &&& h2.contains_key(a)
        &&& h1[a].agent_type == h2[a].agent_type
        &&& h1[a].ports@[0] == h2[a].ports@[0]
        &&& h1[a].ports@[1] == h2[a].ports@[1]
    } by {
        assert(h1[a] == h2[a]);
    }
}

proof fn lemma_value_term_narrow(cs: Seq<Expr>)
    requires
        is_value_term(cs),
    ensures
        cs.len() <= 2,
        out_port(cs) == PortNum::Main,
{
}

proof fn lemma_dense_lowest_free(h: Map<nat, Agent>, n: nat)
    requires
        dense(h, n),
    ensures
        lowest_free(h) == n,
{
    assert(is_lowest_free(h, n));
    lemma_lowest_free_unique(h, n);
}

/// Running the code of a value term on a graph whose live addresses are
/// those below `addr` builds the term's agents from `addr` on, pushes no
/// pair and leaves every agent below `addr` alone.
proof fn lemma_build(m: Machine, cs: Seq<Expr>, addr: nat)
    requires
        is_value_term(cs),
        dense(m.heap, addr),
        m.reg.len() == 12,
        addr + agents(cs) <= HEAP_CAPACITY,
    ensures
        no_return(code_of(cs, addr)),
        run_all(m, code_of(cs, addr)) is Some,
        builds(m, cs, addr, run_all(m, code_of(cs, addr))->0),
    decreases cs, 1nat,
{
    lemma_value_term_narrow(cs);
    if cs.len() == 0 {
        lemma_build_leaf(m, cs, addr);
    } else if cs.len() == 1 {
        lemma_build_stem(m, cs, addr);
    } else {
        lemma_build_fork(m, cs, addr);
    }
}

proof fn lemma_build_leaf(m: Machine, cs: Seq<Expr>, addr: nat)
    requires
        is_value_term(cs),
        dense(m.heap, addr),
        m.reg.len() == 12,
        addr + agents(cs) <= HEAP_CAPACITY,
        cs.len() == 0,
    ensures
        no_return(code_of(cs, addr)),
        run_all(m, code_of(cs, addr)) is Some,
        builds(m, cs, addr, run_all(m, code_of(cs, addr))->0),
    decreases cs, 0nat,
{
    lemma_code_of_unfold(cs, addr);
    lemma_agents_unfold(cs);
    lemma_dense_lowest_free(m.heap, addr);
    let mk_instr = Instr::MkAgent(0, AgentType::L);
    let m1 = exec_instr_spec(m, mk_instr)->0;
    assert(m1.heap == m.heap.insert(addr, Agent::spec_new(AgentType::L)));
    assert(m1.reg == m.reg.update(0, addr as usize));
    assert(dense(m1.heap, addr + 1));
    lemma_run_all_one(m, mk_instr);
    assert(code_of(cs, addr) == seq![mk_instr]);
    assert forall|h2: Map<nat, Agent>, f: nat|
        agrees(h2, m1.heap, addr, addr + 1) && f >= agents(cs) implies #[trigger] readback_tree(
        h2,
        addr,
        f,
    ) == tree_of(cs) by {
        assert(h2.contains_key(addr) && h2[addr].agent_type == m1.heap[addr].agent_type);
        assert(readback_tree(h2, addr, f).children =~= tree_of(cs).children);
    }
}

proof fn lemma_build_stem(m: Machine, cs: Seq<Expr>, addr: nat)
    requires
        is_value_term(cs),
        dense(m.heap, addr),
        m.reg.len() == 12,
        addr + agents(cs) <= HEAP_CAPACITY,
        cs.len() == 1,
    ensures
        no_return(code_of(cs, addr)),
        run_all(m, code_of(cs, addr)) is Some,
        builds(m, cs, addr, run_all(m, code_of(cs, addr))->0),
    decreases cs, 0nat,
{
    lemma_code_of_unfold(cs, addr);
    lemma_agents_unfold(cs);
    lemma_dense_lowest_free(m.heap, addr);
    let mk_instr = Instr::MkAgent(0, AgentType::S);
    let m1 = exec_instr_spec(m, mk_instr)->0;
    assert(m1.heap == m.heap.insert(addr, Agent::spec_new(AgentType::S)));
    assert(m1.reg == m.reg.update(0, addr as usize));
    assert(dense(m1.heap, addr + 1));
    let c0 = cs[0].children@;
    let x = code_of(c0, addr + 1);
    let tail = seq![
        Instr::Load(0, addr as usize),
        Instr::Load(1, (addr + 1) as usize),
        Instr::Connect(0, PortNum::P0, 1, out_port(c0), ConnectMode::NoRef),
    ];
    assert(code_of(cs, addr) == seq![mk_instr] + x + tail);
    lemma_build(m1, c0, addr + 1);
    let m2 = run_all(m1, x)->0;
    lemma_run_all_append(m, seq![mk_instr] + x, tail);
    lemma_run_all_cons(m, mk_instr, x);
    assert(run_all(m, seq![mk_instr] + x) == Some(m2));
    lemma_value_term_narrow(c0);
    let m3 = Machine { heap: m2.heap, pairs: m2.pairs, reg: m2.reg.update(0, addr as usize) };
    let m4 = Machine { heap: m3.heap, pairs: m3.pairs, reg: m3.reg.update(1, (addr + 1) as usize) };
    let m5 = connect_spec(m4, addr, PortNum::P0, addr + 1, PortNum::Main);
    assert(m2.heap.contains_key(addr));
    assert(m2.heap.contains_key(addr + 1));
    assert(exec_instr_spec(m2, tail[0]) == Some(m3));
    assert(exec_instr_spec(m3, tail[1]) == Some(m4));
    assert(exec_instr_spec(m4, tail[2]) == Some(m5));
    lemma_run_all_cons(m2, tail[0], seq![tail[1], tail[2]]);
    lemma_run_all_cons(m3, tail[1], seq![tail[2]]);
    lemma_run_all_one(m4, tail[2]);
    assert(tail =~= seq![tail[0]] + seq![tail[1], tail[2]]);
    assert(seq![tail[1], tail[2]] =~= seq![tail[1]] + seq![tail[2]]);
    assert(run_all(m2, tail) == Some(m5));
    let end = addr + agents(cs);
    lemma_connect_links_both_ways(m4, addr, PortNum::P0, addr + 1, PortNum::Main);
    lemma_connect_agrees(m4, addr, PortNum::P0, addr + 1, PortNum::Main, addr + 1, end);
    assert(m1.heap[addr] == m2.heap[addr]);
    assert forall|a: nat| a < addr implies #[trigger] m5.heap[a] == m.heap[a] by {
        assert(m2.heap[a] == m1.heap[a]);
    }

    assert forall|h2: Map<nat, Agent>, f: nat|
        agrees(h2, m5.heap, addr, end) && f >= agents(cs) implies #[trigger] readback_tree(
        h2,
        addr,
        f,
    ) == tree_of(cs) by {
        assert(h2.contains_key(addr));
        assert(h2[addr].agent_type == m5.heap[addr].agent_type);
        assert(h2[addr].ports@[0] == m5.heap[addr].ports@[0]);
        lemma_agrees_trans(h2, m5.heap, m4.heap, addr + 1, end);
        assert(readback_tree(h2, addr + 1, (f - 1) as nat) == tree_of(c0));
        lemma_view_is_tree_of(cs[0]);
        assert(readback_tree(h2, addr, f).children =~= tree_of(cs).children);
    }
    assert(no_return(code_of(cs, addr))) by {
        assert forall|j: int| 0 <= j < code_of(cs, addr).len() implies code_of(cs, addr)[j]
            != Instr::Return by {
            if 1 <= j < 1 + x.len() {
                assert(code_of(cs, addr)[j] == x[j - 1]);
            }
        }
    }
}

proof fn lemma_build_fork(m: Machine, cs: Seq<Expr>, addr: nat)
    requires
        is_value_term(cs),
        dense(m.heap, addr),
        m.reg.len() == 12,
        addr + agents(cs) <= HEAP_CAPACITY,
        cs.len() == 2,
    ensures
        no_return(code_of(cs, addr)),
        run_all(m, code_of(cs, addr)) is Some,
        builds(m, cs, addr, run_all(m, code_of(cs, addr))->0),
    decreases cs, 0nat,
{
    lemma_code_of_unfold(cs, addr);
    lemma_agents_unfold(cs);
    lemma_dense_lowest_free(m.heap, addr);
    let mk_instr = Instr::MkAgent(0, AgentType::F);
    let m1 = exec_instr_spec(m, mk_instr)->0;
    assert(m1.heap == m.heap.insert(addr, Agent::spec_new(AgentType::F)));
    assert(m1.reg == m.reg.update(0, addr as usize));
    assert(dense(m1.heap, addr + 1));
    let c0 = cs[0].children@;
    let c1 = cs[1].children@;
    let a1 = addr + 1;
    let a2 = addr + 1 + agents(c0);
    let end = addr + agents(cs);
    let x0 = code_of(c0, a1);
    let x1 = code_of(c1, a2);
    let tail = seq![
        Instr::Load(0, addr as usize),
        Instr::Load(1, a1 as usize),
        Instr::Load(2, a2 as usize),
        Instr::Connect(0, PortNum::P0, 1, out_port(c0), ConnectMode::NoRef),
        Instr::Connect(0, PortNum::P1, 2, out_port(c1), ConnectMode::NoRef),
    ];
    assert(code_of(cs, addr) == seq![mk_instr] + x0 + x1 + tail);
    lemma_build(m1, c0, a1);
    let m2 = run_all(m1, x0)->0;
    lemma_build(m2, c1, a2);
    let m2b = run_all(m2, x1)->0;
    lemma_run_all_append(m, seq![mk_instr] + x0 + x1, tail);
    lemma_run_all_append(m, seq![mk_instr] + x0, x1);
    lemma_run_all_cons(m, mk_instr, x0);
    assert(run_all(m, seq![mk_instr] + x0 + x1) == Some(m2b));
    lemma_value_term_narrow(c0);
    lemma_value_term_narrow(c1);
    let m3 = Machine { heap: m2b.heap, pairs: m2b.pairs, reg: m2b.reg.update(0, addr as usize) };
    let m4 = Machine { heap: m3.heap, pairs: m3.pairs, reg: m3.reg.update(1, a1 as usize) };
    let m5 = Machine { heap: m4.heap, pairs: m4.pairs, reg: m4.reg.update(2, a2 as usize) };
    let m6 = connect_spec(m5, addr, PortNum::P0, a1, PortNum::Main);
    let m7 = connect_spec(m6, addr, PortNum::P1, a2, PortNum::Main);
    assert(m2b.heap.contains_key(addr));
    assert(m2b.heap.contains_key(a1));
    assert(m2b.heap.contains_key(a2));
    assert(exec_instr_spec(m2b, tail[0]) == Some(m3));
    assert(exec_instr_spec(m3, tail[1]) == Some(m4));
    assert(exec_instr_spec(m4, tail[2]) == Some(m5));
    assert(exec_instr_spec(m5, tail[3]) == Some(m6));
    lemma_connect_links_both_ways(m5, addr, PortNum::P0, a1, PortNum::Main);
    assert(m6.heap.contains_key(addr) && m6.heap.contains_key(a2));
    assert(m6.reg == m5.reg);
    assert(exec_instr_spec(m6, tail[4]) == Some(m7));
    lemma_run_all_cons(m2b, tail[0], tail.drop_first());
    lemma_run_all_cons(m3, tail[1], tail.drop_first().drop_first());
    lemma_run_all_cons(m4, tail[2], tail.drop_first().drop_first().drop_first());
    lemma_run_all_cons(m5, tail[3], seq![tail[4]]);
    lemma_run_all_one(m6, tail[4]);
    assert(tail =~= seq![tail[0]] + tail.drop_first());
    assert(tail.drop_first() =~= seq![tail[1]] + tail.drop_first().drop_first());
    assert(tail.drop_first().drop_first() =~= seq![tail[2]] + tail.drop_first().drop_first().drop_first());
    assert(tail.drop_first().drop_first().drop_first() =~= seq![tail[3]] + seq![tail[4]]);
    assert(run_all(m2b, tail) == Some(m7));
    lemma_connect_links_both_ways(m6, addr, PortNum::P1, a2, PortNum::Main);
    lemma_connect_agrees(m5, addr, PortNum::P0, a1, PortNum::Main, a1, end);
    lemma_connect_agrees(m6, addr, PortNum::P1, a2, PortNum::Main, a1, end);
    assert(m1.heap[addr] == m2.heap[addr]);
    assert(m2.heap[addr] == m2b.heap[addr]);
    assert forall|a: nat| a < addr implies #[trigger] m7.heap[a] == m.heap[a] by {
        assert(m2b.heap[a] == m2.heap[a]);
        assert(m2.heap[a] == m1.heap[a]);
    }

    lemma_agrees_trans(m7.heap, m6.heap, m5.heap, a1, end);
    assert forall|a: nat| a1 <= a < a2 implies m2b.heap.contains_key(a) && m2.heap.contains_key(a)
        && #[trigger] m2b.heap[a] == m2.heap[a] by {}
    lemma_agrees_unchanged(m2b.heap, m2.heap, a1, a2);
    assert forall|h2: Map<nat, Agent>, f: nat|
        agrees(h2, m7.heap, addr, end) && f >= agents(cs) implies #[trigger] readback_tree(
        h2,
        addr,
        f,
    ) == tree_of(cs) by {
        assert(h2.contains_key(addr));
        assert(h2[addr].agent_type == m7.heap[addr].agent_type);
        assert(h2[addr].ports@[0] == m7.heap[addr].ports@[0]);
        assert(h2[addr].ports@[1] == m7.heap[addr].ports@[1]);
        lemma_agrees_sub(h2, m7.heap, addr, end, a1, end);
        lemma_agrees_trans(h2, m7.heap, m5.heap, a1, end);
        lemma_agrees_sub(h2, m5.heap, a1, end, a1, a2);
        lemma_agrees_trans(h2, m2b.heap, m2.heap, a1, a2);
        lemma_agrees_sub(h2, m5.heap, a1, end, a2, end);
        assert(readback_tree(h2, a1, (f - 1) as nat) == tree_of(c0));
        assert(readback_tree(h2, a2, (f - 1) as nat) == tree_of(c1));
        lemma_view_is_tree_of(cs[0]);
        lemma_view_is_tree_of(cs[1]);
        assert(readback_tree(h2, addr, f).children =~= tree_of(cs).children);
    }
    assert(no_return(code_of(cs, addr))) by {
        assert forall|j: int| 0 <= j < code_of(cs, addr).len() implies code_of(cs, addr)[j]
            != Instr::Return by {
            if 1 <= j < 1 + x0.len() {
                assert(code_of(cs, addr)[j] == x0[j - 1]);
            } else if 1 + x0.len() <= j < 1 + x0.len() + x1.len() {
                assert(code_of(cs, addr)[j] == x1[j - 1 - x0.len()]);
            }
        }
    }
}

/// Running the code of `t cs` from `m` placed its agents from `addr` on and
/// left every agent below `addr` alone.
pub open spec fn places(m: Machine, cs: Seq<Expr>, addr: nat, m2: Machine) -> bool {
    &&& dense(m2.heap, addr + agents(cs))
    &&& m2.reg.len() == m.reg.len()
    &&& forall|a: nat| a < addr ==> #[trigger] m2.heap[a] == m.heap[a]
    &&& m2.heap[addr].agent_type == root_type(cs)
    &&& !m2.heap[addr].port(out_port(cs)).is_connected()
    &&& (symmetric(m.heap) ==> symmetric(m2.heap))
    &&& (well_typed(m.heap) ==> well_typed(m2.heap))
}

/// Type of the agent at the root of the term `t cs`.
pub open spec fn root_type(cs: Seq<Expr>) -> AgentType {
    if cs.len() == 0 {
        AgentType::L
    } else if cs.len() == 1 {
        AgentType::S
    } else if cs.len() == 2 {
        AgentType::F
    } else {
        AgentType::A
    }
}

/// Two connections, each of two distinct unconnected ports that are
/// principal or within their agent's arity, keep the graph symmetric and
/// well typed.
proof fn lemma_two_connects(
    m: Machine,
    a: nat,
    p: PortNum,
    b: nat,
    q: PortNum,
    c: nat,
    r: PortNum,
    d: nat,
    s: PortNum,
)
    requires
        forall|x: nat| m.heap.contains_key(x) ==> x < HEAP_CAPACITY,
        m.heap.contains_key(a),
        m.heap.contains_key(b),
        m.heap.contains_key(c),
        m.heap.contains_key(d),
        a != b,
        c != d,
        !(a == c && p == r),
        !(a == d && p == s),
        !(b == c && q == r),
        !(b == d && q == s),
        !m.heap[a].port(p).is_connected(),
        !m.heap[b].port(q).is_connected(),
        !m.heap[c].port(r).is_connected(),
        !m.heap[d].port(s).is_connected(),
        p == PortNum::Main || p.spec_index() < m.heap[a].agent_type.arity(),
        q == PortNum::Main || q.spec_index() < m.heap[b].agent_type.arity(),
        r == PortNum::Main || r.spec_index() < m.heap[c].agent_type.arity(),
        s == PortNum::Main || s.spec_index() < m.heap[d].agent_type.arity(),
    ensures
        ({
            let h2 = connect_spec(connect_spec(m, a, p, b, q), c, r, d, s).heap;
            &&& (symmetric(m.heap) ==> symmetric(h2))
            &&& (well_typed(m.heap) ==> well_typed(h2))
        }),
{
    let m1 = connect_spec(m, a, p, b, q);
    lemma_connect_links_both_ways(m, a, p, b, q);
    lemma_port_at_index(p);
    lemma_port_at_index(q);
    lemma_port_at_index(r);
    lemma_port_at_index(s);
    assert(m1.heap[c].port(r) == m.heap[c].port(r));
    assert(m1.heap[d].port(s) == m.heap[d].port(s));
    assert(m1.heap[c].agent_type == m.heap[c].agent_type);
    assert(m1.heap[d].agent_type == m.heap[d].agent_type);
    if symmetric(m.heap) {
        lemma_connect_keeps_symmetry(m, a, p, b, q);
        lemma_connect_keeps_symmetry(m1, c, r, d, s);
    }
    if well_typed(m.heap) {
        lemma_connect_keeps_well_typed(m, a, p, b, q);
        lemma_connect_keeps_well_typed(m1, c, r, d, s);
    }
}

/// The code of any term runs to its end on a graph whose live addresses are
/// those below `addr`.
proof fn lemma_place(m: Machine, cs: Seq<Expr>, addr: nat)
    requires
        dense(m.heap, addr),
        m.reg.len() == 12,
        addr + agents(cs) <= HEAP_CAPACITY,
    ensures
        no_return(code_of(cs, addr)),
        run_all(m, code_of(cs, addr)) is Some,
        places(m, cs, addr, run_all(m, code_of(cs, addr))->0),
    decreases cs, 1nat,
{
    if cs.len() == 0 {
        lemma_place_node(m, cs, addr);
    } else if cs.len() <= 2 {
        lemma_place_node(m, cs, addr);
    } else {
        lemma_place_app(m, cs, addr);
    }
}

proof fn lemma_place_node(m: Machine, cs: Seq<Expr>, addr: nat)
    requires
        dense(m.heap, addr),
        m.reg.len() == 12,
        addr + agents(cs) <= HEAP_CAPACITY,
        cs.len() <= 2,
    ensures
        no_return(code_of(cs, addr)),
        run_all(m, code_of(cs, addr)) is Some,
        places(m, cs, addr, run_all(m, code_of(cs, addr))->0),
    decreases cs, 0nat,
{
    lemma_code_of_unfold(cs, addr);
    lemma_agents_unfold(cs);
    lemma_dense_lowest_free(m.heap, addr);
    let t = if cs.len() == 0 {
        AgentType::L
    } else if cs.len() == 1 {
        AgentType::S
    } else {
        AgentType::F
    };
    let mk_instr = Instr::MkAgent(0, t);
    let m1 = exec_instr_spec(m, mk_instr)->0;
    assert(m1.heap == m.heap.insert(addr, Agent::spec_new(t)));
    assert(dense(m1.heap, addr + 1));
    lemma_port_at_index(out_port(cs));
    assert(m1.heap[addr].ports@[4] == Port::spec_empty());
    if symmetric(m.heap) {
        lemma_insert_fresh_keeps_symmetry(m.heap, addr, t);
    }
    if well_typed(m.heap) {
        lemma_insert_well_typed(m.heap, addr, t);
    }
    if cs.len() == 0 {
        lemma_run_all_one(m, mk_instr);
        assert(code_of(cs, addr) == seq![mk_instr]);
    } else if cs.len() == 1 {
        let c0 = cs[0].children@;
        let x = code_of(c0, addr + 1);
        let tail = seq![
            Instr::Load(0, addr as usize),
            Instr::Load(1, (addr + 1) as usize),
            Instr::Connect(0, PortNum::P0, 1, out_port(c0), ConnectMode::NoRef),
        ];
        assert(code_of(cs, addr) == seq![mk_instr] + x + tail);
        lemma_place(m1, c0, addr + 1);
        let m2 = run_all(m1, x)->0;
        lemma_run_all_append(m, seq![mk_instr] + x, tail);
        lemma_run_all_cons(m, mk_instr, x);
        let m3 = Machine { heap: m2.heap, pairs: m2.pairs, reg: m2.reg.update(0, addr as usize) };
        let m4 = Machine { heap: m3.heap, pairs: m3.pairs, reg: m3.reg.update(1, (addr + 1) as usize) };
        let m5 = connect_spec(m4, addr, PortNum::P0, addr + 1, out_port(c0));
        assert(m2.heap.contains_key(addr));
        assert(m2.heap.contains_key(addr + 1));
        assert(exec_instr_spec(m2, tail[0]) == Some(m3));
        assert(exec_instr_spec(m3, tail[1]) == Some(m4));
        assert(exec_instr_spec(m4, tail[2]) == Some(m5));
        lemma_run_all_cons(m2, tail[0], seq![tail[1], tail[2]]);
        lemma_run_all_cons(m3, tail[1], seq![tail[2]]);
        lemma_run_all_one(m4, tail[2]);
        assert(tail =~= seq![tail[0]] + seq![tail[1], tail[2]]);
        assert(seq![tail[1], tail[2]] =~= seq![tail[1]] + seq![tail[2]]);
        assert(run_all(m, code_of(cs, addr)) == Some(m5));
        assert(m5.heap.dom() =~= m4.heap.dom());
        lemma_connect_links_both_ways(m4, addr, PortNum::P0, addr + 1, out_port(c0));
        lemma_port_at_index(out_port(c0));
        assert(m2.heap[addr] == m1.heap[addr]);
        assert(m1.heap[addr].ports@[0] == Port::spec_empty());
        assert(m5.heap[addr].ports@[4] == m4.heap[addr].ports@[4]);
        assert(forall|x: nat| m4.heap.contains_key(x) ==> x < HEAP_CAPACITY);
        if symmetric(m.heap) {
            lemma_connect_keeps_symmetry(m4, addr, PortNum::P0, addr + 1, out_port(c0));
        }
        if well_typed(m.heap) {
            lemma_connect_keeps_well_typed(m4, addr, PortNum::P0, addr + 1, out_port(c0));
        }
        assert forall|a: nat| a < addr implies #[trigger] m5.heap[a] == m.heap[a] by {
            assert(m2.heap[a] == m1.heap[a]);
        }
        assert(no_return(code_of(cs, addr))) by {
            assert forall|j: int| 0 <= j < code_of(cs, addr).len() implies code_of(cs, addr)[j]
                != Instr::Return by {
                if 1 <= j < 1 + x.len() {
                    assert(code_of(cs, addr)[j] == x[j - 1]);
                }
            }
        }
    } else {
        let c0 = cs[0].children@;
        let c1 = cs[1].children@;
        let a1 = addr + 1;
        let a2 = addr + 1 + agents(c0);
        let x0 = code_of(c0, a1);
        let x1 = code_of(c1, a2);
        let tail = seq![
            Instr::Load(0, addr as usize),
            Instr::Load(1, a1 as usize),
            Instr::Load(2, a2 as usize),
            Instr::Connect(0, PortNum::P0, 1, out_port(c0), ConnectMode::NoRef),
            Instr::Connect(0, PortNum::P1, 2, out_port(c1), ConnectMode::NoRef),
        ];
        assert(code_of(cs, addr) == seq![mk_instr] + x0 + x1 + tail);
        lemma_place(m1, c0, a1);
        let m2 = run_all(m1, x0)->0;
        lemma_place(m2, c1, a2);
        let m2b = run_all(m2, x1)->0;
        lemma_run_all_append(m, seq![mk_instr] + x0 + x1, tail);
        lemma_run_all_append(m, seq![mk_instr] + x0, x1);
        lemma_run_all_cons(m, mk_instr, x0);
        lemma_run_tail(m2b, addr, a1, a2, tail[3], tail[4]);
        assert(tail =~= seq![
            Instr::Load(0, addr as usize),
            Instr::Load(1, a1 as usize),
            Instr::Load(2, a2 as usize),
            tail[3],
            tail[4],
        ]);
        let m7 = run_all(m2b, tail)->0;
        let k1 = connect_spec(m2b, addr, PortNum::P0, a1, out_port(c0));
        assert(tail_connect(m2b, addr, a1, a2, tail[3]) == k1);
        assert(m7.heap == connect_spec(k1, addr, PortNum::P1, a2, out_port(c1)).heap);
        lemma_port_at_index(out_port(c0));
        lemma_port_at_index(out_port(c1));
        assert(m2.heap[addr] == m1.heap[addr]);
        assert(m2b.heap[addr] == m2.heap[addr]);
        assert(m2b.heap[a1] == m2.heap[a1]);
        assert(m1.heap[addr].ports@[0] == Port::spec_empty());
        assert(m1.heap[addr].ports@[1] == Port::spec_empty());
        assert(forall|x: nat| m2b.heap.contains_key(x) ==> x < HEAP_CAPACITY);
        lemma_two_connects(m2b, addr, PortNum::P0, a1, out_port(c0), addr, PortNum::P1, a2, out_port(c1));
        lemma_connect_links_both_ways(m2b, addr, PortNum::P0, a1, out_port(c0));
        lemma_connect_links_both_ways(k1, addr, PortNum::P1, a2, out_port(c1));
        assert(m7.heap[addr].ports@[4] == m2b.heap[addr].ports@[4]);
        assert(run_all(m, code_of(cs, addr)) == Some(m7));
        assert forall|a: nat| a < addr implies #[trigger] m7.heap[a] == m.heap[a] by {
            assert(m2b.heap[a] == m2.heap[a]);
            assert(m2.heap[a] == m1.heap[a]);
        }
        assert(no_return(code_of(cs, addr))) by {
            assert forall|j: int| 0 <= j < code_of(cs, addr).len() implies code_of(cs, addr)[j]
                != Instr::Return by {
                if 1 <= j < 1 + x0.len() {
                    assert(code_of(cs, addr)[j] == x0[j - 1]);
                } else if 1 + x0.len() <= j < 1 + x0.len() + x1.len() {
                    assert(code_of(cs, addr)[j] == x1[j - 1 - x0.len()]);
                }
            }
        }
    }
}

proof fn lemma_place_app(m: Machine, cs: Seq<Expr>, addr: nat)
    requires
        dense(m.heap, addr),
        m.reg.len() == 12,
        addr + agents(cs) <= HEAP_CAPACITY,
        cs.len() > 2,
    ensures
        no_return(code_of(cs, addr)),
        run_all(m, code_of(cs, addr)) is Some,
        places(m, cs, addr, run_all(m, code_of(cs, addr))->0),
    decreases cs, 0nat,
{
    lemma_code_of_unfold(cs, addr);
    lemma_agents_unfold(cs);
    lemma_dense_lowest_free(m.heap, addr);
    let n = cs.len();
    let mk_instr = Instr::MkAgent(0, AgentType::A);
    let m1 = exec_instr_spec(m, mk_instr)->0;
    assert(m1.heap == m.heap.insert(addr, Agent::spec_new(AgentType::A)));
    assert(dense(m1.heap, addr + 1));
    let rest = cs.subrange(0, n - 1);
    let last = cs[n - 1].children@;
    let a1 = addr + 1;
    let a2 = addr + 1 + agents(rest);
    let x0 = code_of(rest, a1);
    let x1 = code_of(last, a2);
    let head = if rest.len() < 3 {
        Instr::Connect(1, PortNum::Main, 0, PortNum::Main, ConnectMode::NoRef)
    } else {
        Instr::Connect(0, PortNum::Main, 1, PortNum::P1, ConnectMode::NoRef)
    };
    let link = Instr::Connect(0, PortNum::P0, 2, out_port(last), ConnectMode::NoRef);
    let tail = seq![
        Instr::Load(0, addr as usize),
        Instr::Load(1, a1 as usize),
        Instr::Load(2, a2 as usize),
        head,
        link,
    ];
    assert(code_of(cs, addr) == seq![mk_instr] + x0 + x1 + tail);
    lemma_place(m1, rest, a1);
    let m2 = run_all(m1, x0)->0;
    lemma_place(m2, last, a2);
    let m2b = run_all(m2, x1)->0;
    lemma_run_all_append(m, seq![mk_instr] + x0 + x1, tail);
    lemma_run_all_append(m, seq![mk_instr] + x0, x1);
    lemma_run_all_cons(m, mk_instr, x0);
    lemma_run_tail(m2b, addr, a1, a2, head, link);
    let m7 = run_all(m2b, tail)->0;
    lemma_port_at_index(out_port(last));
    assert(m1.heap[addr].ports@[0] == Port::spec_empty());
    assert(m1.heap[addr].ports@[1] == Port::spec_empty());
    assert(m1.heap[addr].ports@[4] == Port::spec_empty());
    if symmetric(m.heap) {
        lemma_insert_fresh_keeps_symmetry(m.heap, addr, AgentType::A);
    }
    if well_typed(m.heap) {
        lemma_insert_well_typed(m.heap, addr, AgentType::A);
    }
    assert(m2.heap[addr] == m1.heap[addr]);
    assert(m2b.heap[addr] == m2.heap[addr]);
    assert(m2b.heap[a1] == m2.heap[a1]);
    assert(forall|x: nat| m2b.heap.contains_key(x) ==> x < HEAP_CAPACITY);
    if rest.len() < 3 {
        let k1 = connect_spec(m2b, a1, PortNum::Main, addr, PortNum::Main);
        assert(tail_connect(m2b, addr, a1, a2, head) == k1);
        assert(m7.heap == connect_spec(k1, addr, PortNum::P0, a2, out_port(last)).heap);
        lemma_two_connects(m2b, a1, PortNum::Main, addr, PortNum::Main, addr, PortNum::P0, a2, out_port(last));
        lemma_connect_links_both_ways(m2b, a1, PortNum::Main, addr, PortNum::Main);
        lemma_connect_links_both_ways(k1, addr, PortNum::P0, a2, out_port(last));
        assert(m7.heap[addr].ports@[1] == m2b.heap[addr].ports@[1]);
    } else {
        let k1 = connect_spec(m2b, addr, PortNum::Main, a1, PortNum::P1);
        assert(tail_connect(m2b, addr, a1, a2, head) == k1);
        assert(m7.heap == connect_spec(k1, addr, PortNum::P0, a2, out_port(last)).heap);
        lemma_two_connects(m2b, addr, PortNum::Main, a1, PortNum::P1, addr, PortNum::P0, a2, out_port(last));
        lemma_connect_links_both_ways(m2b, addr, PortNum::Main, a1, PortNum::P1);
        lemma_connect_links_both_ways(k1, addr, PortNum::P0, a2, out_port(last));
        assert(m7.heap[addr].ports@[1] == m2b.heap[addr].ports@[1]);
    }
    assert(run_all(m, code_of(cs, addr)) == Some(m7));
    assert forall|a: nat| a < addr implies #[trigger] m7.heap[a] == m.heap[a] by {
        assert(m2b.heap[a] == m2.heap[a]);
        assert(m2.heap[a] == m1.heap[a]);
    }
    assert(no_return(code_of(cs, addr))) by {
        assert forall|j: int| 0 <= j < code_of(cs, addr).len() implies code_of(cs, addr)[j]
            != Instr::Return by {
            if 1 <= j < 1 + x0.len() {
                assert(code_of(cs, addr)[j] == x0[j - 1]);
            } else if 1 + x0.len() <= j < 1 + x0.len() + x1.len() {
                assert(code_of(cs, addr)[j] == x1[j - 1 - x0.len()]);
            }
        }
    }
}

/// Loading three addresses into registers 0 to 2 and making two direct
/// connections among them runs to its end when all three agents are live,
/// and changes no agent but those three.
pub open spec fn tail_ep(a0: nat, a1: nat, a2: nat, reg: u8) -> nat {
    if reg == 0 {
        a0
    } else if reg == 1 {
        a1
    } else {
        a2
    }
}

/// The connection `c` when registers 0 to 2 hold `a0`, `a1` and `a2`.
pub open spec fn tail_connect(m: Machine, a0: nat, a1: nat, a2: nat, c: Instr) -> Machine {
    match c {
        Instr::Connect(r1, p1, r2, p2, _) => connect_spec(m, tail_ep(a0, a1, a2, r1), p1, tail_ep(a0, a1, a2, r2), p2),
        _ => m,
    }
}

proof fn lemma_run_tail(m: Machine, a0: nat, a1: nat, a2: nat, c3: Instr, c4: Instr)
    requires
        m.reg.len() == 12,
        m.heap.contains_key(a0),
        m.heap.contains_key(a1),
        m.heap.contains_key(a2),
        a0 < a1 < a2 < HEAP_CAPACITY,
        c3 matches Instr::Connect(r1, _, r2, _, ConnectMode::NoRef) && r1 < 3 && r2 < 3 && r1 != r2,
        c4 matches Instr::Connect(r1, _, r2, _, ConnectMode::NoRef) && r1 < 3 && r2 < 3 && r1 != r2,
    ensures
        ({
            let tail = seq![
                Instr::Load(0, a0 as usize),
                Instr::Load(1, a1 as usize),
                Instr::Load(2, a2 as usize),
                c3,
                c4,
            ];
            &&& run_all(m, tail) is Some
            &&& run_all(m, tail)->0.heap == tail_connect(tail_connect(m, a0, a1, a2, c3), a0, a1, a2, c4).heap
            &&& run_all(m, tail)->0.heap.dom() == m.heap.dom()
            &&& run_all(m, tail)->0.reg.len() == 12
            &&& forall|a: nat| a != a0 && a != a1 && a != a2 ==> #[trigger] run_all(m, tail)->0.heap[a] == m.heap[a]
        }),
{
    let tail = seq![
        Instr::Load(0, a0 as usize),
        Instr::Load(1, a1 as usize),
        Instr::Load(2, a2 as usize),
        c3,
        c4,
    ];
    let m3 = Machine { heap: m.heap, pairs: m.pairs, reg: m.reg.update(0, a0 as usize) };
    let m4 = Machine { heap: m3.heap, pairs: m3.pairs, reg: m3.reg.update(1, a1 as usize) };
    let m5 = Machine { heap: m4.heap, pairs: m4.pairs, reg: m4.reg.update(2, a2 as usize) };
    assert(exec_instr_spec(m, tail[0]) == Some(m3));
    assert(exec_instr_spec(m3, tail[1]) == Some(m4));
    assert(exec_instr_spec(m4, tail[2]) == Some(m5));
    let m6 = exec_instr_spec(m5, c3)->0;
    assert(exec_instr_spec(m5, c3) is Some);
    assert(m6.heap.dom() =~= m5.heap.dom());
    assert(m6.reg == m5.reg);
    let m7 = exec_instr_spec(m6, c4)->0;
    assert(exec_instr_spec(m6, c4) is Some);
    assert(m7.heap.dom() =~= m6.heap.dom());
    lemma_run_all_cons(m, tail[0], tail.drop_first());
    lemma_run_all_cons(m3, tail[1], tail.drop_first().drop_first());
    lemma_run_all_cons(m4, tail[2], tail.drop_first().drop_first().drop_first());
    lemma_run_all_cons(m5, tail[3], seq![tail[4]]);
    lemma_run_all_one(m6, tail[4]);
    assert(tail =~= seq![tail[0]] + tail.drop_first());
    assert(tail.drop_first() =~= seq![tail[1]] + tail.drop_first().drop_first());
    assert(tail.drop_first().drop_first() =~= seq![tail[2]] + tail.drop_first().drop_first().drop_first());
    assert(tail.drop_first().drop_first().drop_first() =~= seq![tail[3]] + seq![tail[4]]);
    assert(run_all(m, tail) == Some(m7));
    assert(m6.heap == tail_connect(m, a0, a1, a2, c3).heap);
    assert(m7.heap == tail_connect(tail_connect(m, a0, a1, a2, c3), a0, a1, a2, c4).heap);
}

proof fn lemma_run_spec_prefix(m: Machine, p: Seq<Instr>, pc: nat)
    requires
        no_return(p),
        pc <= p.len(),
        run_all(m, p.subrange(pc as int, p.len() as int)) is Some,
    ensures
        run_spec(m, p + seq![Instr::Return], pc) == (true, run_all(m, p.subrange(pc as int, p.len() as int))->0),
    decreases p.len() - pc,
{
    let code = p + seq![Instr::Return];
    let sub = p.subrange(pc as int, p.len() as int);
    if pc == p.len() {
        assert(code[pc as int] == Instr::Return);
        assert(sub =~= Seq::<Instr>::empty());
    } else {
        assert(code[pc as int] == p[pc as int]);
        assert(sub[0] == p[pc as int]);
        assert(sub.drop_first() =~= p.subrange(pc + 1 as int, p.len() as int));
        let m2 = exec_instr_spec(m, p[pc as int])->0;
        lemma_run_spec_prefix(m2, p, pc + 1);
    }
}

/// Compiling a value term and running its code gives a graph with no
/// pending pair, whose wires are all symmetric, that reads back from the
/// interface as the term itself; evaluation of that graph stops at its first
/// step without changing it.
pub proof fn lemma_round_trip(e: Expr)
    requires
        is_value_term(e.children@),
        1 + agents(e.children@) <= HEAP_CAPACITY,
    ensures
        ({
            let (ok, m) = run_spec(initial_machine(), program_of(e), 0);
            &&& ok
            &&& m.pairs.len() == 0
            &&& dense(m.heap, 1 + agents(e.children@))
            &&& symmetric(m.heap)
            &&& evaluates_to(m, 1, EvalState::EvalFinished, m)
            &&& forall|f: nat| f > agents(e.children@) ==> #[trigger] readback_tree(m.heap, 0, f) == e@
        }),
{
    let cs = e.children@;
    let m0 = initial_machine();
    let mk = Instr::MkAgent(0, AgentType::I);
    let body = code_of(cs, 1);
    lemma_value_term_narrow(cs);
    let link = Instr::Connect(0, PortNum::P0, 1, PortNum::Main, ConnectMode::NoRef);
    let tail = seq![Instr::Load(0, 0), Instr::Load(1, 1), link];
    let p = seq![mk] + body + tail;
    assert(program_of(e) =~= p + seq![Instr::Return]);
    assert(dense(m0.heap, 0));
    lemma_dense_lowest_free(m0.heap, 0);
    let m1 = exec_instr_spec(m0, mk)->0;
    assert(dense(m1.heap, 1));
    lemma_build(m1, cs, 1);
    let m2 = run_all(m1, body)->0;
    let end = 1 + agents(cs);
    let m3 = Machine { heap: m2.heap, pairs: m2.pairs, reg: m2.reg.update(0, 0) };
    let m4 = Machine { heap: m3.heap, pairs: m3.pairs, reg: m3.reg.update(1, 1) };
    let m5 = connect_spec(m4, 0, PortNum::P0, 1, PortNum::Main);
    assert(m2.heap.contains_key(0));
    assert(m2.heap.contains_key(1));
    assert(exec_instr_spec(m2, tail[0]) == Some(m3));
    assert(exec_instr_spec(m3, tail[1]) == Some(m4));
    assert(exec_instr_spec(m4, tail[2]) == Some(m5));
    lemma_run_all_cons(m2, tail[0], seq![tail[1], tail[2]]);
    lemma_run_all_cons(m3, tail[1], seq![tail[2]]);
    lemma_run_all_one(m4, tail[2]);
    assert(tail =~= seq![tail[0]] + seq![tail[1], tail[2]]);
    assert(seq![tail[1], tail[2]] =~= seq![tail[1]] + seq![tail[2]]);
    lemma_run_all_append(m0, seq![mk] + body, tail);
    lemma_run_all_cons(m0, mk, body);
    assert(run_all(m0, p) == Some(m5));
    assert(no_return(p)) by {
        assert forall|j: int| 0 <= j < p.len() implies p[j] != Instr::Return by {
            if 1 <= j < 1 + body.len() {
                assert(p[j] == body[j - 1]);
            }
        }
    }
    assert(p.subrange(0, p.len() as int) =~= p);
    lemma_run_spec_prefix(m0, p, 0);
    assert(run_spec(m0, program_of(e), 0) == (true, m5));
    lemma_connect_links_both_ways(m4, 0, PortNum::P0, 1, PortNum::Main);
    lemma_connect_agrees(m4, 0, PortNum::P0, 1, PortNum::Main, 1, end);
    assert(m5.heap.dom() =~= m2.heap.dom());
    assert(m2.heap[0] == m1.heap[0]);
    assert forall|f: nat| f > agents(cs) implies #[trigger] readback_tree(m5.heap, 0, f) == e@ by {
        assert(m5.heap[0].agent_type == AgentType::I);
        assert(m5.heap[0].ports@[0].agent_addr == 1);
        assert(readback_tree(m5.heap, 0, f) == readback_tree(m5.heap, 1, (f - 1) as nat));
        assert(readback_tree(m5.heap, 1, (f - 1) as nat) == tree_of(cs));
        lemma_view_is_tree_of(e);
    }
    lemma_program_runs(e);
    assert(steps(m5, 0) == (EvalState::EvalRunning, m5));
    assert(steps(m5, 1) == step_spec(m5));
    assert(evaluates_to(m5, 1, EvalState::EvalFinished, m5));
}

/// The code that the compiler makes for any term that fits in the arena
/// runs to its `Return`.
pub proof fn lemma_program_runs(e: Expr)
    requires
        1 + agents(e.children@) <= HEAP_CAPACITY,
    ensures
        run_spec(initial_machine(), program_of(e), 0).0,
        symmetric(run_spec(initial_machine(), program_of(e), 0).1.heap),
        well_typed(run_spec(initial_machine(), program_of(e), 0).1.heap),
{
    let cs = e.children@;
    let m0 = initial_machine();
    let mk = Instr::MkAgent(0, AgentType::I);
    let body = code_of(cs, 1);
    let link = if cs.len() < 3 {
        Instr::Connect(0, PortNum::P0, 1, PortNum::Main, ConnectMode::NoRef)
    } else {
        Instr::Connect(1, PortNum::P1, 0, PortNum::P0, ConnectMode::NoRef)
    };
    let tail = seq![Instr::Load(0, 0), Instr::Load(1, 1), link];
    let p = seq![mk] + body + tail;
    assert(program_of(e) =~= p + seq![Instr::Return]);
    assert(dense(m0.heap, 0));
    lemma_dense_lowest_free(m0.heap, 0);
    let m1 = exec_instr_spec(m0, mk)->0;
    assert(dense(m1.heap, 1));
    lemma_place(m1, cs, 1);
    let m2 = run_all(m1, body)->0;
    let m3 = Machine { heap: m2.heap, pairs: m2.pairs, reg: m2.reg.update(0, 0) };
    let m4 = Machine { heap: m3.heap, pairs: m3.pairs, reg: m3.reg.update(1, 1) };
    assert(m2.heap.contains_key(0));
    assert(m2.heap.contains_key(1));
    assert(exec_instr_spec(m2, tail[0]) == Some(m3));
    assert(exec_instr_spec(m3, tail[1]) == Some(m4));
    assert(exec_instr_spec(m4, tail[2]) is Some);
    let m5 = exec_instr_spec(m4, tail[2])->0;
    lemma_run_all_cons(m2, tail[0], seq![tail[1], tail[2]]);
    lemma_run_all_cons(m3, tail[1], seq![tail[2]]);
    lemma_run_all_one(m4, tail[2]);
    assert(tail =~= seq![tail[0]] + seq![tail[1], tail[2]]);
    assert(seq![tail[1], tail[2]] =~= seq![tail[1]] + seq![tail[2]]);
    lemma_run_all_append(m0, seq![mk] + body, tail);
    lemma_run_all_cons(m0, mk, body);
    assert(run_all(m0, p) == Some(m5));
    assert(no_return(p)) by {
        assert forall|j: int| 0 <= j < p.len() implies p[j] != Instr::Return by {
            if 1 <= j < 1 + body.len() {
                assert(p[j] == body[j - 1]);
            }
        }
    }
    assert(p.subrange(0, p.len() as int) =~= p);
    lemma_run_spec_prefix(m0, p, 0);
    assert(symmetric(m0.heap)) by {
        reveal(symmetric);
    }
    assert(well_typed(m0.heap)) by {
        reveal(well_typed);
    }
    lemma_insert_fresh_keeps_symmetry(m0.heap, 0, AgentType::I);
    lemma_insert_well_typed(m0.heap, 0, AgentType::I);
    assert(m2.heap[0] == m1.heap[0]);
    assert(m1.heap[0].ports@[0] == Port::spec_empty());
    lemma_port_at_index(out_port(cs));
    assert(forall|x: nat| m4.heap.contains_key(x) ==> x < HEAP_CAPACITY);
    if cs.len() < 3 {
        assert(m5 == connect_spec(m4, 0, PortNum::P0, 1, PortNum::Main));
        lemma_connect_keeps_symmetry(m4, 0, PortNum::P0, 1, PortNum::Main);
        lemma_connect_keeps_well_typed(m4, 0, PortNum::P0, 1, PortNum::Main);
    } else {
        assert(m5 == connect_spec(m4, 1, PortNum::P1, 0, PortNum::P0));
        lemma_connect_keeps_symmetry(m4, 1, PortNum::P1, 0, PortNum::P0);
        lemma_connect_keeps_well_typed(m4, 1, PortNum::P1, 0, PortNum::P0);
    }
}

/// Building a graph from a value term, evaluating it and reading it back
/// gives the term: whatever `VM::eval` returns for the machine that
/// `VM::from_expr` built, its state is that machine's, and `VM::readback`
/// reads the term.
pub proof fn lemma_round_trip_vm(vm: &VM, e: Expr, n: nat, r: EvalState, after: Machine)
    requires
        is_value_term(e.children@),
        1 + agents(e.children@) <= HEAP_CAPACITY,
        vm.wf(),
        vm.state() == run_spec(initial_machine(), program_of(e), 0).1,
        evaluates_to(vm.state(), n, r, after),
    ensures
        run_spec(initial_machine(), program_of(e), 0).0,
        r == EvalState::EvalFinished,
        after == vm.state(),
        readback_tree(after.heap, 0, vm.arena_len() + 1) == e@,
{
    let m = vm.state();
    lemma_round_trip(e);
    lemma_evaluation_deterministic(m, n, r, after, 1, EvalState::EvalFinished, m);
    vm.lemma_live_below_arena_len(agents(e.children@));
}

} // verus!
