use vstd::prelude::*;

use crate::agent::{Agent, AgentType, Port};
use crate::code::{agents, program_of, Code, ConnectMode, Instr, Tape};
use crate::expr::{Expr, Tree};
use crate::global::{HeapAddress, PortNum, UNASSIGNED_PORT};
use crate::heap::{lemma_lowest_free_unique, lowest_free, Heap, HEAP_CAPACITY};
use crate::lemmas::symmetric;
use crate::roundtrip::lemma_program_runs;
use crate::rules::{rule, rule_code, rule_index};
use crate::symmetry::well_typed;

verus! {

/// A pending connection of two principal ports.
#[derive(Clone, Copy, Debug, PartialEq, Eq, Structural)]
pub struct Equation {
    pub left_agent: HeapAddress,
    pub right_agent: HeapAddress,
}

/// The abstract state of the machine: the live agents by address, the stack
/// of active pairs (top last) and the registers.
pub struct Machine {
    pub heap: Map<nat, Agent>,
    pub pairs: Seq<Equation>,
    pub reg: Seq<usize>,
}

/// `ag` with its port `p` pointing at `t`.
pub open spec fn with_port(ag: Agent, p: PortNum, t: Port) -> Agent {
    Agent {
        agent_type: ag.agent_type,
        ports: vstd::array::spec_array_update(ag.ports, p.spec_index() as int, t),
    }
}

/// Wires port `p` of agent `a` to port `q` of agent `b`, both ways, and
/// records the pair when both ports are principal.
pub open spec fn connect_spec(m: Machine, a: nat, p: PortNum, b: nat, q: PortNum) -> Machine {
    let h1 = m.heap.insert(a, with_port(m.heap[a], p, Port { agent_addr: b as usize, port_num: q }));
    let h2 = h1.insert(b, with_port(h1[b], q, Port { agent_addr: a as usize, port_num: p }));
    Machine {
        heap: h2,
        pairs: if p == PortNum::Main && q == PortNum::Main {
            m.pairs.push(Equation { left_agent: a as usize, right_agent: b as usize })
        } else {
            m.pairs
        },
        reg: m.reg,
    }
}

/// The endpoint that a `Connect` names by register `reg` and port `p`: that
/// port itself, or with `follow` the port at the other end of its wire.
pub open spec fn endpoint(m: Machine, reg: u8, p: PortNum, follow: bool) -> Option<(nat, PortNum)> {
    if reg as nat >= m.reg.len() {
        None
    } else {
        let a = m.reg[reg as int] as nat;
        if !follow {
            Some((a, p))
        } else if m.heap.contains_key(a) {
            let t = m.heap[a].port(p);
            Some((t.agent_addr as nat, t.port_num))
        } else {
            None
        }
    }
}

/// The effect of one instruction; `None` where it names a register out of
/// range or a port of an agent that is not live, or the arena is full.
pub open spec fn exec_instr_spec(m: Machine, i: Instr) -> Option<Machine> {
    match i {
        Instr::MkAgent(r, t) => {
            if (r as nat) < m.reg.len() && lowest_free(m.heap) < HEAP_CAPACITY {
                let a = lowest_free(m.heap);
                Some(
                    Machine {
                        heap: m.heap.insert(a, Agent::spec_new(t)),
                        pairs: m.pairs,
                        reg: m.reg.update(r as int, a as usize),
                    },
                )
            } else {
                None
            }
        },
        Instr::Connect(ra, pa, rb, pb, mode) => {
            match (endpoint(m, ra, pa, mode.resolves_left()), endpoint(m, rb, pb, mode.resolves_right())) {
                (Some((a, p)), Some((b, q))) => {
                    if m.heap.contains_key(a) && m.heap.contains_key(b) {
                        Some(connect_spec(m, a, p, b, q))
                    } else {
                        None
                    }
                },
                _ => None,
            }
        },
        Instr::Load(r, addr) => {
            if (r as nat) < m.reg.len() {
                Some(Machine { heap: m.heap, pairs: m.pairs, reg: m.reg.update(r as int, addr) })
            } else {
                None
            }
        },
        Instr::Return => Some(m),
    }
}

/// Runs `code` from position `pc` up to its `Return`: whether it got there,
/// and the state where it stopped (before an instruction that failed, or at
/// the end of code with no `Return`).
pub open spec fn run_spec(m: Machine, code: Seq<Instr>, pc: nat) -> (bool, Machine)
    decreases code.len() - pc,
{
    if pc >= code.len() {
        (false, m)
    } else if code[pc as int] == Instr::Return {
        (true, m)
    } else {
        match exec_instr_spec(m, code[pc as int]) {
            Some(m2) => run_spec(m2, code, pc + 1),
            None => (false, m),
        }
    }
}

/// Outcome of a step of evaluation.
#[derive(Clone, Copy, Debug, PartialEq, Eq, Structural)]
pub enum EvalState {
    /// Pairs remain to be reduced.
    EvalRunning,
    /// No pair is left, or the pair popped last involves the interface.
    EvalFinished,
    /// The graph broke an invariant: a pair of agents that are not live, of
    /// types that no rule covers, or a rule body that failed.
    EvalFault,
}

/// The registers as a rule body finds them: the value agent `l` and its two
/// auxiliary neighbours, then the operator agent `r` and its four.
pub open spec fn pair_regs(reg: Seq<usize>, h: Map<nat, Agent>, l: nat, r: nat) -> Seq<usize> {
    reg.update(0, l as usize).update(1, h[l].ports@[0].agent_addr).update(
        2,
        h[l].ports@[1].agent_addr,
    ).update(3, r as usize).update(4, h[r].ports@[0].agent_addr).update(
        5,
        h[r].ports@[1].agent_addr,
    ).update(6, h[r].ports@[2].agent_addr).update(7, h[r].ports@[3].agent_addr)
}

/// One step of evaluation: pop the top pair; stop at the interface; else run
/// the rule for the pair's types and free both agents.
pub open spec fn step_spec(m: Machine) -> (EvalState, Machine) {
    if m.pairs.len() == 0 {
        (EvalState::EvalFinished, m)
    } else {
        let eq = m.pairs.last();
        let m1 = Machine { heap: m.heap, pairs: m.pairs.drop_last(), reg: m.reg };
        let l = eq.left_agent as nat;
        let r = eq.right_agent as nat;
        if !m.heap.contains_key(l) || !m.heap.contains_key(r) {
            (EvalState::EvalFault, m1)
        } else if m.heap[l].agent_type == AgentType::I || m.heap[r].agent_type == AgentType::I {
            (EvalState::EvalFinished, m1)
        } else if !m.heap[l].agent_type.is_value() || !m.heap[r].agent_type.is_operator() {
            (EvalState::EvalFault, m1)
        } else {
            let m2 = Machine { heap: m1.heap, pairs: m1.pairs, reg: pair_regs(m1.reg, m1.heap, l, r) };
            let code = rule(rule_index(m.heap[l].agent_type, m.heap[r].agent_type));
            let (ok, m3) = run_spec(m2, code, 0);
            if ok && m3.heap.contains_key(l) && m3.heap.contains_key(r) && l != r {
                let m4 = Machine { heap: m3.heap.remove(l).remove(r), pairs: m3.pairs, reg: m3.reg };
                if m4.pairs.len() == 0 {
                    (EvalState::EvalFinished, m4)
                } else {
                    (EvalState::EvalRunning, m4)
                }
            } else {
                (EvalState::EvalFault, m3)
            }
        }
    }
}

/// The outcome after `n` steps from `m`; evaluation stays where it stopped.
pub open spec fn steps(m: Machine, n: nat) -> (EvalState, Machine)
    decreases n,
{
    if n == 0 {
        (EvalState::EvalRunning, m)
    } else {
        let prev = steps(m, (n - 1) as nat);
        if prev.0 == EvalState::EvalRunning {
            step_spec(prev.1)
        } else {
            prev
        }
    }
}

/// Evaluation from `m` stops at the `n`-th step, with outcome `r` and state
/// `m2`; it runs on with `EvalRunning` only where it gave up after
/// `u64::MAX` steps.
pub open spec fn evaluates_to(m: Machine, n: nat, r: EvalState, m2: Machine) -> bool {
    &&& 1 <= n <= u64::MAX
    &&& steps(m, n) == (r, m2)
    &&& forall|k: nat| k < n ==> #[trigger] steps(m, k).0 == EvalState::EvalRunning
    &&& r == EvalState::EvalRunning ==> n == u64::MAX
}

/// The term that the graph holds from the agent at `addr`, looking at most
/// `fuel` agents deep: a leaf, a stem or a fork gives a node with no, one or
/// two children; the interface gives what its port leads to, or a leaf where
/// it is unconnected; any other agent, a missing one or running out gives a
/// leaf.
pub open spec fn readback_tree(h: Map<nat, Agent>, addr: nat, fuel: nat) -> Tree
    decreases fuel,
{
    if fuel == 0 || !h.contains_key(addr) {
        Tree { children: Seq::empty() }
    } else {
        let ag = h[addr];
        let p0 = ag.ports@[0].agent_addr as nat;
        let p1 = ag.ports@[1].agent_addr as nat;
        let f = (fuel - 1) as nat;
        match ag.agent_type {
            AgentType::I => if ag.ports@[0].agent_addr == UNASSIGNED_PORT {
                Tree { children: Seq::empty() }
            } else {
                readback_tree(h, p0, f)
            },
            AgentType::S => Tree { children: seq![readback_tree(h, p0, f)] },
            AgentType::F => Tree { children: seq![readback_tree(h, p0, f), readback_tree(h, p1, f)] },
            _ => Tree { children: Seq::empty() },
        }
    }
}

/// The state before any code has run: no agent, no pair, every register
/// unassigned.
pub open spec fn initial_machine() -> Machine {
    Machine {
        heap: Map::empty(),
        pairs: Seq::empty(),
        reg: Seq::new(12, |i: int| UNASSIGNED_PORT),
    }
}

/// The interaction net evaluator: the arena of agents, the stack of active
/// pairs, the tape that runs construction code and rule bodies, and the
/// register file that those address agents through.
pub struct VM {
    active_pairs: Vec<Equation>,
    heap: Heap,
    tape: Tape,
    reg: [HeapAddress; 12],
}

impl VM {
    pub closed spec fn state(&self) -> Machine {
        Machine { heap: self.heap@, pairs: self.active_pairs@, reg: self.reg@ }
    }

    pub closed spec fn wf(&self) -> bool {
        self.heap.wf()
    }

    /// Every live address lies below the arena's length.
    pub proof fn lemma_live_below_arena_len(&self, a: nat)
        requires
            self.state().heap.contains_key(a),
        ensures
            a < self.arena_len(),
    {
        self.heap.lemma_live_below_full_len(a);
    }

    /// Number of slots in the arena, live or free: a bound on the depth of
    /// any tree of agents that it holds.
    pub closed spec fn arena_len(&self) -> nat {
        self.heap.spec_full_len()
    }

    fn set_port(&mut self, addr: HeapAddress, p: PortNum, t: Port)
        requires
            old(self).wf(),
            old(self).heap@.contains_key(addr as nat),
        ensures
            final(self).wf(),
            final(self).heap@ == old(self).heap@.insert(addr as nat, with_port(old(self).heap@[addr as nat], p, t)),
            final(self).active_pairs == old(self).active_pairs,
            final(self).reg == old(self).reg,
            final(self).tape == old(self).tape,
    {
        let mut ag = self.heap.get(addr);
        ag.ports[p.index()] = t;
        self.heap.set(addr, ag);
    }

    /// Sets up a machine and runs `code` on it to build a graph; `None` where
    /// that code fails.
    pub fn from_code(code: Code) -> (r: Option<Self>)
        ensures
            r is Some <==> run_spec(initial_machine(), code@, 0).0,
            r matches Some(vm) ==> vm.wf() && vm.state() == run_spec(initial_machine(), code@, 0).1,
    {
        let mut vm = Self {
            active_pairs: Vec::new(),
            heap: Heap::new(),
            tape: Tape::from_code(code),
            reg: [UNASSIGNED_PORT; 12],
        };
        assert(vm.state().reg =~= initial_machine().reg);
        assert(vm.state().heap =~= initial_machine().heap);
        assert(vm.state() == initial_machine());
        if vm.exec() {
            Some(vm)
        } else {
            None
        }
    }

    /// Compiles `expr` and builds its graph, with the interface agent at
    /// address 0; `None` where the graph would not fit in the arena.
    pub fn from_expr(expr: Expr) -> (r: Option<Self>)
        ensures
            r is Some <==> 1 + agents(expr.children@) <= HEAP_CAPACITY,
            r matches Some(vm) ==> vm.wf() && vm.state() == run_spec(initial_machine(), program_of(expr), 0).1,
            r matches Some(vm) ==> symmetric(vm.state().heap) && well_typed(vm.state().heap),
    {
        let cs = &expr.children;
        assert(cs@.subrange(0, cs@.len() as int) =~= cs@);
        match Code::count_agents(cs, cs.len()) {
            Some(k) if k < HEAP_CAPACITY => {},
            _ => return None,
        }
        proof {
            lemma_program_runs(expr);
        }
        let code = Code::from_expr(&expr);
        VM::from_code(code)
    }

    /// Whether no agent is live.
    pub fn is_empty(&self) -> (r: bool)
        requires
            self.wf(),
        ensures
            r == (self.state().heap.dom() == Set::<nat>::empty()),
    {
        self.heap.is_empty()
    }

    /// Runs the tape from its counter to the next `Return`; `false` where an
    /// instruction fails or the code ends first.
    fn exec(&mut self) -> (r: bool)
        requires
            old(self).wf(),
        ensures
            final(self).wf(),
            r == run_spec(old(self).state(), old(self).tape.spec_code(), old(self).tape.spec_pc()).0,
            final(self).state() == run_spec(old(self).state(), old(self).tape.spec_code(), old(self).tape.spec_pc()).1,
    {
        let ghost code = old(self).tape.spec_code();
        let ghost goal = run_spec(old(self).state(), code, old(self).tape.spec_pc());
        let mut done = false;
        let mut ok = false;
        while !done
            invariant
                self.wf(),
                self.tape.spec_code() == code,
                !done ==> run_spec(self.state(), code, self.tape.spec_pc()) == goal && !ok,
                done ==> (ok, self.state()) == goal,
            decreases (if done { 0int } else { 1int }) + 2 * (if self.tape.spec_pc() < code.len() {
                code.len() - self.tape.spec_pc()
            } else {
                0
            }),
        {
            let ghost pc = self.tape.spec_pc();
            let ghost before = self.state();
            if self.tape.at_end() {
                assert(run_spec(before, code, pc) == (false, before));
                done = true;
            } else {
                let instr = self.tape.read_instr();
                if let Instr::Return = instr {
                    assert(run_spec(before, code, pc) == (true, before));
                    ok = true;
                    done = true;
                } else if !self.exec_instr(instr) {
                    assert(run_spec(before, code, pc) == (false, before));
                    done = true;
                } else {
                    assert(run_spec(before, code, pc) == run_spec(self.state(), code, pc + 1));
                }
            }
        }
        ok
    }

    /// One step of evaluation: pops the top pair and, unless it involves the
    /// interface, loads the registers, runs the rule for the pair's types and
    /// frees both agents.
    pub fn step(&mut self) -> (r: EvalState)
        requires
            old(self).wf(),
        ensures
            final(self).wf(),
            (r, final(self).state()) == step_spec(old(self).state()),
    {
        let eq = match self.active_pairs.pop() {
            None => return EvalState::EvalFinished,
            Some(x) => x,
        };
        if !self.heap.contains(eq.left_agent) || !self.heap.contains(eq.right_agent) {
            return EvalState::EvalFault;
        }
        let left = self.heap.get(eq.left_agent);
        let right = self.heap.get(eq.right_agent);
        if left.agent_type == AgentType::I || right.agent_type == AgentType::I {
            return EvalState::EvalFinished;
        }
        let v: u8 = match left.agent_type {
            AgentType::L => 0,
            AgentType::S => 1,
            AgentType::F => 2,
            _ => return EvalState::EvalFault,
        };
        let o: u8 = match right.agent_type {
            AgentType::E => 0,
            AgentType::D => 1,
            AgentType::A => 2,
            AgentType::T => 3,
            AgentType::Q => 4,
            _ => return EvalState::EvalFault,
        };

        // Set up registers
        self.reg[0] = eq.left_agent;
        self.reg[1] = left.ports[0].agent_addr;
        self.reg[2] = left.ports[1].agent_addr;
        self.reg[3] = eq.right_agent;
        self.reg[4] = right.ports[0].agent_addr;
        self.reg[5] = right.ports[1].agent_addr;
        self.reg[6] = right.ports[2].agent_addr;
        self.reg[7] = right.ports[3].agent_addr;

        let code_index = v * 5 + o;
        self.tape.set(rule_code(code_index));
        assert(self.state().reg =~= pair_regs(old(self).state().reg, old(self).heap@, eq.left_agent as nat, eq.right_agent as nat));
        let ok = self.exec();
        if !ok || !self.heap.contains(eq.left_agent) || !self.heap.contains(eq.right_agent)
            || eq.left_agent == eq.right_agent {
            return EvalState::EvalFault;
        }
        self.heap.remove(eq.left_agent);
        self.heap.remove(eq.right_agent);

        if self.active_pairs.len() == 0 {
            EvalState::EvalFinished
        } else {
            EvalState::EvalRunning
        }
    }

    /// Steps until evaluation stops: no pair is left, the interface is
    /// reached or the graph is found broken. Returns how it stopped; gives up
    /// as `EvalRunning` only after `u64::MAX` steps.
    pub fn eval(&mut self) -> (r: EvalState)
        requires
            old(self).wf(),
        ensures
            final(self).wf(),
            exists|n: nat| evaluates_to(old(self).state(), n, r, final(self).state()),
    {
        let ghost m0 = self.state();
        let mut state = self.step();
        let mut count: u64 = 1;
        assert(steps(m0, 0) == (EvalState::EvalRunning, m0));
        assert(steps(m0, 1) == (state, self.state()));
        while state == EvalState::EvalRunning && count < u64::MAX
            invariant
                self.wf(),
                1 <= count <= u64::MAX,
                steps(m0, count as nat) == (state, self.state()),
                forall|k: nat| k < count ==> #[trigger] steps(m0, k).0 == EvalState::EvalRunning,
            decreases u64::MAX - count,
        {
            state = self.step();
            count = count + 1;
            assert(steps(m0, count as nat) == (state, self.state()));
        }
        assert(evaluates_to(m0, count as nat, state, self.state()));
        state
    }

    /// Reads the term back from the interface agent at address 0.
    pub fn readback(&mut self) -> (r: Expr)
        requires
            old(self).wf(),
        ensures
            final(self).wf(),
            final(self).state() == old(self).state(),
            r@ == readback_tree(old(self).state().heap, 0, old(self).arena_len() + 1),
    {
        proof {
            self.heap.lemma_full_len_bounded();
        }
        self.readback_agent(0, self.heap.full_len() + 1)
    }

    fn readback_agent(&self, agent_addr: HeapAddress, fuel: usize) -> (r: Expr)
        ensures
            r@ == readback_tree(self.heap@, agent_addr as nat, fuel as nat),
        decreases fuel,
    {
        if fuel == 0 || !self.heap.contains(agent_addr) {
            let r = Expr::new(Vec::new());
            assert(r@.children =~= Seq::<Tree>::empty());
            return r;
        }
        let agent = self.heap.get(agent_addr);
        match agent.agent_type {
            AgentType::I => {
                let new_addr = agent.ports[0].agent_addr;
                if new_addr == UNASSIGNED_PORT {
                    let r = Expr::new(Vec::new());
                    assert(r@.children =~= Seq::<Tree>::empty());
                    r
                } else {
                    self.readback_agent(new_addr, fuel - 1)
                }
            },
            AgentType::S => {
                let c0 = self.readback_agent(agent.ports[0].agent_addr, fuel - 1);
                let mut cs = Vec::new();
                cs.push(c0);
                let r = Expr::new(cs);
                assert(r@.children =~= seq![c0@]);
                r
            },
            AgentType::F => {
                let c0 = self.readback_agent(agent.ports[0].agent_addr, fuel - 1);
                let c1 = self.readback_agent(agent.ports[1].agent_addr, fuel - 1);
                let mut cs = Vec::new();
                cs.push(c0);
                cs.push(c1);
                let r = Expr::new(cs);
                assert(r@.children =~= seq![c0@, c1@]);
                r
            },
            _ => {
                let r = Expr::new(Vec::new());
                assert(r@.children =~= Seq::<Tree>::empty());
                r
            },
        }
    }

    /// Wires port `src_port` of `src_addr` to port `dst_port` of `dst_addr`
    /// on both sides at once, and pushes the pair when both are principal.
    fn connect(&mut self, src_addr: HeapAddress, src_port: PortNum, dst_addr: HeapAddress, dst_port: PortNum)
        requires
            old(self).wf(),
            old(self).heap@.contains_key(src_addr as nat),
            old(self).heap@.contains_key(dst_addr as nat),
        ensures
            final(self).wf(),
            final(self).state() == connect_spec(old(self).state(), src_addr as nat, src_port, dst_addr as nat, dst_port),
            final(self).tape == old(self).tape,
    {
        self.set_port(src_addr, src_port, Port::new(dst_addr, dst_port));
        self.set_port(dst_addr, dst_port, Port::new(src_addr, src_port));
        if src_port == PortNum::Main && dst_port == PortNum::Main {
            self.active_pairs.push(Equation { left_agent: src_addr, right_agent: dst_addr });
        }
        assert(self.state().heap == connect_spec(old(self).state(), src_addr as nat, src_port, dst_addr as nat, dst_port).heap);
    }

    /// Executes one instruction; `false`, with nothing changed, where the
    /// instruction fails or the arena is full.
    fn exec_instr(&mut self, instr: Instr) -> (r: bool)
        requires
            old(self).wf(),
        ensures
            final(self).wf(),
            final(self).tape == old(self).tape,
            r ==> exec_instr_spec(old(self).state(), instr) == Some(final(self).state()),
            !r ==> final(self).state() == old(self).state(),
            !r ==> exec_instr_spec(old(self).state(), instr) is None,
    {
        match instr {
            Instr::MkAgent(reg_addr, agent_type) => {
                if reg_addr as usize >= self.reg.len() {
                    return false;
                }
                let addr = match self.heap.push(Agent::new(agent_type)) {
                    Some(a) => a,
                    None => {
                        proof {
                            lemma_lowest_free_unique(old(self).heap@, HEAP_CAPACITY as nat);
                        }
                        return false;
                    },
                };
                proof {
                    lemma_lowest_free_unique(old(self).heap@, addr as nat);
                }
                self.reg[reg_addr as usize] = addr;
                assert(self.state() == exec_instr_spec(old(self).state(), instr)->0);
                true
            },
            Instr::Connect(src_addr, src_port, dst_addr, dst_port, mode) => {
                if src_addr as usize >= self.reg.len() || dst_addr as usize >= self.reg.len() {
                    return false;
                }
                let mut real_src_addr = self.reg[src_addr as usize];
                let mut real_src_port = src_port;
                let mut real_dst_addr = self.reg[dst_addr as usize];
                let mut real_dst_port = dst_port;
                if mode == ConnectMode::LeftRef || mode == ConnectMode::FullRef {
                    if !self.heap.contains(real_src_addr) {
                        return false;
                    }
                    let port = self.heap.get(real_src_addr).ports[real_src_port.index()];
                    real_src_addr = port.agent_addr;
                    real_src_port = port.port_num;
                }
                if mode == ConnectMode::RightRef || mode == ConnectMode::FullRef {
                    if !self.heap.contains(real_dst_addr) {
                        return false;
                    }
                    let port = self.heap.get(real_dst_addr).ports[real_dst_port.index()];
                    real_dst_addr = port.agent_addr;
                    real_dst_port = port.port_num;
                }
                if !self.heap.contains(real_src_addr) || !self.heap.contains(real_dst_addr) {
                    return false;
                }
                self.connect(real_src_addr, real_src_port, real_dst_addr, real_dst_port);
                true
            },
            Instr::Load(reg_addr, heap_addr) => {
                if reg_addr as usize >= self.reg.len() {
                    return false;
                }
                self.reg[reg_addr as usize] = heap_addr;
                assert(self.state() == exec_instr_spec(old(self).state(), instr)->0);
                true
            },
            Instr::Return => true,
        }
    }
}

} // verus!
