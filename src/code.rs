use vstd::prelude::*;

use crate::agent::AgentType;
use crate::expr::Expr;
use crate::global::{HeapAddress, PortNum, RegAddress};
use crate::heap::HEAP_CAPACITY;

verus! {

/// How a `Connect` finds its two endpoints: literally, or by first following
/// the wire that is attached to the left, the right or both given ports.
#[derive(Clone, Copy, Debug, PartialEq, Eq, Structural)]
pub enum ConnectMode {
    NoRef,
    LeftRef,
    RightRef,
    FullRef,
}

impl ConnectMode {
    pub open spec fn resolves_left(self) -> bool {
        self == ConnectMode::LeftRef || self == ConnectMode::FullRef
    }

    pub open spec fn resolves_right(self) -> bool {
        self == ConnectMode::RightRef || self == ConnectMode::FullRef
    }
}

#[derive(Clone, Copy, Debug, PartialEq, Eq, Structural)]
pub enum Instr {
    /// Creates an agent and stores its address in a register.
    MkAgent(RegAddress, AgentType),
    /// Wires two ports, each given by a register and a port number.
    Connect(RegAddress, PortNum, RegAddress, PortNum, ConnectMode),
    /// Sets a register to a heap address.
    Load(RegAddress, HeapAddress),
    /// Ends a sequence of instructions.
    Return,
}

/// A sequence of instructions.
pub struct Code(Vec<Instr>);

impl View for Code {
    type V = Seq<Instr>;

    closed spec fn view(&self) -> Seq<Instr> {
        self.0@
    }
}

/// Instructions with a program counter.
pub struct Tape {
    pc: usize,
    code: Code,
}

impl Tape {
    pub closed spec fn spec_pc(&self) -> nat {
        self.pc as nat
    }

    pub closed spec fn spec_code(&self) -> Seq<Instr> {
        self.code@
    }

    pub fn from_code(new_code: Code) -> (r: Self)
        ensures
            r.spec_pc() == 0,
            r.spec_code() == new_code@,
    {
        Tape { pc: 0, code: new_code }
    }

    /// Replaces the instructions and rewinds.
    pub fn set(&mut self, code: Code)
        ensures
            final(self).spec_pc() == 0,
            final(self).spec_code() == code@,
    {
        self.code = code;
        self.pc = 0;
    }

    /// Whether the counter has run past the last instruction.
    pub(crate) fn at_end(&self) -> (r: bool)
        ensures
            r == (self.spec_pc() >= self.spec_code().len()),
    {
        self.pc >= self.code.0.len()
    }

    /// The instruction under the counter; the counter moves past it.
    pub fn read_instr(&mut self) -> (r: Instr)
        requires
            old(self).spec_pc() < old(self).spec_code().len(),
        ensures
            r == old(self).spec_code()[old(self).spec_pc() as int],
            final(self).spec_pc() == old(self).spec_pc() + 1,
            final(self).spec_code() == old(self).spec_code(),
    {
        let n = self.code.0.len();
        assert(self.pc < n);
        let result = self.code.0[self.pc];
        self.pc = self.pc + 1;
        result
    }
}

impl Code {
    pub fn from_instrs(instrs: &[Instr]) -> (r: Self)
        ensures
            r@ == instrs@,
    {
        Code(vstd::slice::slice_to_vec(instrs))
    }

    /// Code that builds the term `expr` under an interface agent at address 0,
    /// which is then the handle for reading the result back.
    pub fn from_expr(expr: &Expr) -> (r: Self)
        requires
            1 + agents(expr.children@) <= HEAP_CAPACITY,
        ensures
            r@ == program_of(*expr),
    {
        let mut code = Self::from_instrs(&[Instr::MkAgent(0, AgentType::I)]);
        let cs = &expr.children;
        assert(cs@.subrange(0, cs@.len() as int) =~= cs@);
        code.expr_to_code(cs, cs.len(), 1);
        let link = if cs.len() < 3 {
            Instr::Connect(0, PortNum::P0, 1, PortNum::Main, ConnectMode::NoRef)
        } else {
            Instr::Connect(1, PortNum::P1, 0, PortNum::P0, ConnectMode::NoRef)
        };
        code.record_instrs(&[Instr::Load(0, 0), Instr::Load(1, 1), link, Instr::Return]);
        assert(code@ =~= program_of(*expr));
        code
    }

    /// The number of agents that the code of the term `t cs[0..n]` creates,
    /// or `None` when it exceeds the arena's capacity.
    pub fn count_agents(cs: &Vec<Expr>, n: usize) -> (r: Option<usize>)
        requires
            n <= cs@.len(),
        ensures
            match r {
                Some(k) => k == agents(cs@.subrange(0, n as int)) && k <= HEAP_CAPACITY,
                None => agents(cs@.subrange(0, n as int)) > HEAP_CAPACITY,
            },
        decreases cs@.subrange(0, n as int),
    {
        let ghost sub = cs@.subrange(0, n as int);
        proof {
            lemma_agents_unfold(sub);
        }
        if n == 0 {
            Some(1)
        } else if n == 1 {
            let c0 = &cs[0].children;
            assert(sub[0] == cs@[0]);
            assert(c0@.subrange(0, c0@.len() as int) =~= c0@);
            match Self::count_agents(c0, c0.len()) {
                Some(k) if k < HEAP_CAPACITY => Some(k + 1),
                _ => None,
            }
        } else if n == 2 {
            let c0 = &cs[0].children;
            let c1 = &cs[1].children;
            assert(sub[0] == cs@[0]);
            assert(sub[1] == cs@[1]);
            assert(c0@.subrange(0, c0@.len() as int) =~= c0@);
            assert(c1@.subrange(0, c1@.len() as int) =~= c1@);
            let k0 = match Self::count_agents(c0, c0.len()) {
                Some(k) => k,
                None => return None,
            };
            let k1 = match Self::count_agents(c1, c1.len()) {
                Some(k) => k,
                None => return None,
            };
            if k0 < HEAP_CAPACITY - k1 {
                Some(k0 + k1 + 1)
            } else {
                None
            }
        } else {
            let last = &cs[n - 1].children;
            assert(sub[n - 1] == cs@[n - 1]);
            assert(sub.subrange(0, n - 1) =~= cs@.subrange(0, n - 1));
            assert(last@.subrange(0, last@.len() as int) =~= last@);
            let k0 = match Self::count_agents(cs, n - 1) {
                Some(k) => k,
                None => return None,
            };
            let k1 = match Self::count_agents(last, last.len()) {
                Some(k) => k,
                None => return None,
            };
            if k0 < HEAP_CAPACITY - k1 {
                Some(k0 + k1 + 1)
            } else {
                None
            }
        }
    }

    fn record_instrs(&mut self, instrs: &[Instr])
        ensures
            final(self)@ == old(self)@ + instrs@,
    {
        let mut i: usize = 0;
        while i < instrs.len()
            invariant
                i <= instrs@.len(),
                self@ == old(self)@ + instrs@.subrange(0, i as int),
            decreases instrs@.len() - i,
        {
            self.0.push(instrs[i]);
            i = i + 1;
            assert(self@ =~= old(self)@ + instrs@.subrange(0, i as int));
        }
        assert(instrs@.subrange(0, i as int) =~= instrs@);
    }

    /// Appends the code of the term `t cs[0..n]`, its agents taking the
    /// addresses from `heap_addr` on, and returns the next free address.
    fn expr_to_code(&mut self, cs: &Vec<Expr>, n: usize, heap_addr: HeapAddress) -> (r: HeapAddress)
        requires
            n <= cs@.len(),
            heap_addr + agents(cs@.subrange(0, n as int)) <= HEAP_CAPACITY,
        ensures
            final(self)@ == old(self)@ + code_of(cs@.subrange(0, n as int), heap_addr as nat),
            r == heap_addr + agents(cs@.subrange(0, n as int)),
        decreases cs@.subrange(0, n as int),
    {
        let ghost sub = cs@.subrange(0, n as int);
        proof {
            lemma_agents_positive(sub);
        }
        if n == 0 {
            self.record_instrs(&[Instr::MkAgent(0, AgentType::L)]);
            proof {
                lemma_code_of_unfold(sub, heap_addr as nat);
                assert(self@ =~= old(self)@ + code_of(sub, heap_addr as nat));
            }
            heap_addr + 1
        } else if n == 1 {
            let c0 = &cs[0].children;
            assert(sub[0] == cs@[0]);
            assert(c0@.subrange(0, c0@.len() as int) =~= c0@);
            proof {
                lemma_agents_positive(c0@);
            }
            self.record_instrs(&[Instr::MkAgent(0, AgentType::S)]);
            let heap_addr_1 = heap_addr + 1;
            let heap_addr_2 = self.expr_to_code(c0, c0.len(), heap_addr_1);
            let link = if c0.len() < 3 {
                Instr::Connect(0, PortNum::P0, 1, PortNum::Main, ConnectMode::NoRef)
            } else {
                Instr::Connect(0, PortNum::P0, 1, PortNum::P1, ConnectMode::NoRef)
            };
            self.record_instrs(&[Instr::Load(0, heap_addr), Instr::Load(1, heap_addr_1), link]);
            proof {
                lemma_code_of_unfold(sub, heap_addr as nat);
                assert(self@ =~= old(self)@ + code_of(sub, heap_addr as nat));
            }
            heap_addr_2
        } else if n == 2 {
            let c0 = &cs[0].children;
            let c1 = &cs[1].children;
            assert(sub[0] == cs@[0]);
            assert(sub[1] == cs@[1]);
            assert(c0@.subrange(0, c0@.len() as int) =~= c0@);
            assert(c1@.subrange(0, c1@.len() as int) =~= c1@);
            proof {
                lemma_agents_positive(c0@);
                lemma_agents_positive(c1@);
            }
            self.record_instrs(&[Instr::MkAgent(0, AgentType::F)]);
            let heap_addr_1 = heap_addr + 1;
            let heap_addr_2 = self.expr_to_code(c0, c0.len(), heap_addr_1);
            let heap_addr_3 = self.expr_to_code(c1, c1.len(), heap_addr_2);
            let link0 = if c0.len() < 3 {
                Instr::Connect(0, PortNum::P0, 1, PortNum::Main, ConnectMode::NoRef)
            } else {
                Instr::Connect(0, PortNum::P0, 1, PortNum::P1, ConnectMode::NoRef)
            };
            let link1 = if c1.len() < 3 {
                Instr::Connect(0, PortNum::P1, 2, PortNum::Main, ConnectMode::NoRef)
            } else {
                Instr::Connect(0, PortNum::P1, 2, PortNum::P1, ConnectMode::NoRef)
            };
            self.record_instrs(
                &[
                    Instr::Load(0, heap_addr),
                    Instr::Load(1, heap_addr_1),
                    Instr::Load(2, heap_addr_2),
                    link0,
                    link1,
                ],
            );
            proof {
                lemma_code_of_unfold(sub, heap_addr as nat);
                assert(self@ =~= old(self)@ + code_of(sub, heap_addr as nat));
            }
            heap_addr_3
        } else {
            let last = &cs[n - 1].children;
            assert(sub[n - 1] == cs@[n - 1]);
            assert(sub.subrange(0, n - 1) =~= cs@.subrange(0, n - 1));
            assert(last@.subrange(0, last@.len() as int) =~= last@);
            proof {
                lemma_agents_positive(last@);
                lemma_agents_positive(cs@.subrange(0, n - 1));
            }
            self.record_instrs(&[Instr::MkAgent(0, AgentType::A)]);
            let heap_addr_1 = heap_addr + 1;
            let heap_addr_2 = self.expr_to_code(cs, n - 1, heap_addr_1);
            let heap_addr_3 = self.expr_to_code(last, last.len(), heap_addr_2);
            let head = if n - 1 < 3 {
                Instr::Connect(1, PortNum::Main, 0, PortNum::Main, ConnectMode::NoRef)
            } else {
                Instr::Connect(0, PortNum::Main, 1, PortNum::P1, ConnectMode::NoRef)
            };
            let link = if last.len() < 3 {
                Instr::Connect(0, PortNum::P0, 2, PortNum::Main, ConnectMode::NoRef)
            } else {
                Instr::Connect(0, PortNum::P0, 2, PortNum::P1, ConnectMode::NoRef)
            };
            self.record_instrs(
                &[
                    Instr::Load(0, heap_addr),
                    Instr::Load(1, heap_addr_1),
                    Instr::Load(2, heap_addr_2),
                    head,
                    link,
                ],
            );
            proof {
                lemma_code_of_unfold(sub, heap_addr as nat);
                assert(self@ =~= old(self)@ + code_of(sub, heap_addr as nat));
            }
            heap_addr_3
        }
    }
}

/// One unfolding of `code_of`.
pub proof fn lemma_code_of_unfold(cs: Seq<Expr>, addr: nat)
    ensures
        code_of(cs, addr) == ({
            let n = cs.len();
            if n == 0 {
                seq![Instr::MkAgent(0, AgentType::L)]
            } else if n == 1 {
                let c0 = cs[0].children@;
                seq![Instr::MkAgent(0, AgentType::S)] + code_of(c0, addr + 1) + seq![
                    Instr::Load(0, addr as usize),
                    Instr::Load(1, (addr + 1) as usize),
                    Instr::Connect(0, PortNum::P0, 1, out_port(c0), ConnectMode::NoRef),
                ]
            } else if n == 2 {
                let c0 = cs[0].children@;
                let c1 = cs[1].children@;
                let a2 = addr + 1 + agents(c0);
                seq![Instr::MkAgent(0, AgentType::F)] + code_of(c0, addr + 1) + code_of(c1, a2)
                    + seq![
                    Instr::Load(0, addr as usize),
                    Instr::Load(1, (addr + 1) as usize),
                    Instr::Load(2, a2 as usize),
                    Instr::Connect(0, PortNum::P0, 1, out_port(c0), ConnectMode::NoRef),
                    Instr::Connect(0, PortNum::P1, 2, out_port(c1), ConnectMode::NoRef),
                ]
            } else {
                let rest = cs.subrange(0, n - 1);
                let last = cs[n - 1].children@;
                let a2 = addr + 1 + agents(rest);
                let head = if rest.len() < 3 {
                    Instr::Connect(1, PortNum::Main, 0, PortNum::Main, ConnectMode::NoRef)
                } else {
                    Instr::Connect(0, PortNum::Main, 1, PortNum::P1, ConnectMode::NoRef)
                };
                seq![Instr::MkAgent(0, AgentType::A)] + code_of(rest, addr + 1) + code_of(last, a2)
                    + seq![
                    Instr::Load(0, addr as usize),
                    Instr::Load(1, (addr + 1) as usize),
                    Instr::Load(2, a2 as usize),
                    head,
                    Instr::Connect(0, PortNum::P0, 2, out_port(last), ConnectMode::NoRef),
                ]
            }
        }),
{
    reveal(code_of);
}

/// One unfolding of `agents`.
pub proof fn lemma_agents_unfold(cs: Seq<Expr>)
    ensures
        agents(cs) == ({
            let n = cs.len();
            if n == 0 {
                1
            } else if n == 1 {
                1 + agents(cs[0].children@)
            } else if n == 2 {
                1 + agents(cs[0].children@) + agents(cs[1].children@)
            } else {
                1 + agents(cs.subrange(0, n - 1)) + agents(cs[n - 1].children@)
            }
        }),
{
}

proof fn lemma_agents_positive(cs: Seq<Expr>)
    ensures
        agents(cs) >= 1,
{
}

/// Port through which the term `t cs` is attached to its parent: the
/// principal port of a value, the result port of an application.
pub open spec fn out_port(cs: Seq<Expr>) -> PortNum {
    if cs.len() < 3 {
        PortNum::Main
    } else {
        PortNum::P1
    }
}

/// Number of agents that the code of the term `t cs` creates.
pub open spec fn agents(cs: Seq<Expr>) -> nat
    decreases cs,
{
    let n = cs.len();
    if n == 0 {
        1
    } else if n == 1 {
        1 + agents(cs[0].children@)
    } else if n == 2 {
        1 + agents(cs[0].children@) + agents(cs[1].children@)
    } else {
        1 + agents(cs.subrange(0, n - 1)) + agents(cs[n - 1].children@)
    }
}

/// Code that builds the term `t cs` with its agents at the addresses from
/// `addr` on: a leaf, stem or fork agent for up to two children, and for more
/// an application agent whose function is the term without its last child.
#[verifier::opaque]
pub open spec fn code_of(cs: Seq<Expr>, addr: nat) -> Seq<Instr>
    decreases cs,
{
    let n = cs.len();
    if n == 0 {
        seq![Instr::MkAgent(0, AgentType::L)]
    } else if n == 1 {
        let c0 = cs[0].children@;
        seq![Instr::MkAgent(0, AgentType::S)] + code_of(c0, addr + 1) + seq![
            Instr::Load(0, addr as usize),
            Instr::Load(1, (addr + 1) as usize),
            Instr::Connect(0, PortNum::P0, 1, out_port(c0), ConnectMode::NoRef),
        ]
    } else if n == 2 {
        let c0 = cs[0].children@;
        let c1 = cs[1].children@;
        let a2 = addr + 1 + agents(c0);
        seq![Instr::MkAgent(0, AgentType::F)] + code_of(c0, addr + 1) + code_of(c1, a2) + seq![
            Instr::Load(0, addr as usize),
            Instr::Load(1, (addr + 1) as usize),
            Instr::Load(2, a2 as usize),
            Instr::Connect(0, PortNum::P0, 1, out_port(c0), ConnectMode::NoRef),
            Instr::Connect(0, PortNum::P1, 2, out_port(c1), ConnectMode::NoRef),
        ]
    } else {
        let rest = cs.subrange(0, n - 1);
        let last = cs[n - 1].children@;
        let a2 = addr + 1 + agents(rest);
        let head = if rest.len() < 3 {
            Instr::Connect(1, PortNum::Main, 0, PortNum::Main, ConnectMode::NoRef)
        } else {
            Instr::Connect(0, PortNum::Main, 1, PortNum::P1, ConnectMode::NoRef)
        };
        seq![Instr::MkAgent(0, AgentType::A)] + code_of(rest, addr + 1) + code_of(last, a2) + seq![
            Instr::Load(0, addr as usize),
            Instr::Load(1, (addr + 1) as usize),
            Instr::Load(2, a2 as usize),
            head,
            Instr::Connect(0, PortNum::P0, 2, out_port(last), ConnectMode::NoRef),
        ]
    }
}

/// Code that builds the term `e` under an interface agent at address 0.
pub open spec fn program_of(e: Expr) -> Seq<Instr> {
    let cs = e.children@;
    let link = if cs.len() < 3 {
        Instr::Connect(0, PortNum::P0, 1, PortNum::Main, ConnectMode::NoRef)
    } else {
        Instr::Connect(1, PortNum::P1, 0, PortNum::P0, ConnectMode::NoRef)
    };
    seq![Instr::MkAgent(0, AgentType::I)] + code_of(cs, 1) + seq![
        Instr::Load(0, 0),
        Instr::Load(1, 1),
        link,
        Instr::Return,
    ]
}

} // verus!
