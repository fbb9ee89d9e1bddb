use vstd::prelude::*;

use crate::agent::AgentType;
use crate::code::{Code, ConnectMode, Instr};
use crate::global::PortNum;

verus! {

// The rules compile the interaction rules of tree calculus. In a rule body,
// register 0 holds the value agent of the pair and register 3 the operator
// agent; registers 8 to 11 receive the agents the rule creates. A `Connect`
// that resolves a side reaches through a port of the pair to the agent on
// the other end of its wire.

pub open spec fn spec_left_agent() -> u8 {
    0
}

pub open spec fn spec_right_agent() -> u8 {
    3
}

pub open spec fn spec_var(n: u8) -> u8 {
    (n + 8) as u8
}

/// Register of the value agent of the pair.
#[verifier::when_used_as_spec(spec_left_agent)]
pub fn left_agent() -> (r: u8)
    ensures
        r == spec_left_agent(),
{
    0
}

/// Register of the operator agent of the pair.
#[verifier::when_used_as_spec(spec_right_agent)]
pub fn right_agent() -> (r: u8)
    ensures
        r == spec_right_agent(),
{
    3
}

/// Register of the `n`-th agent that a rule creates.
#[verifier::when_used_as_spec(spec_var)]
pub fn var(n: u8) -> (r: u8)
    requires
        n < 4,
    ensures
        r == spec_var(n),
{
    n + 8
}

/// Position in the table of the rule for a value agent and an operator agent.
pub open spec fn rule_index(left: AgentType, right: AgentType) -> nat {
    let v: nat = match left {
        AgentType::S => 1,
        AgentType::F => 2,
        _ => 0,
    };
    let o: nat = match right {
        AgentType::D => 1,
        AgentType::A => 2,
        AgentType::T => 3,
        AgentType::Q => 4,
        _ => 0,
    };
    v * 5 + o
}

/// The fifteen rule bodies, by `rule_index`.
pub open spec fn rule(index: nat) -> Seq<Instr> {
    if index == 0 {
        // L >< E => ;
        seq![
            Instr::Return,
        ]
    } else if index == 1 {
        // L >< D(x, y) => L~x, L~y;
        seq![
            Instr::MkAgent(var(0), AgentType::L),
            Instr::MkAgent(var(1), AgentType::L),
            Instr::Connect(var(0), PortNum::Main, right_agent(), PortNum::P0, ConnectMode::RightRef),
            Instr::Connect(var(1), PortNum::Main, right_agent(), PortNum::P1, ConnectMode::RightRef),
            Instr::Return,
        ]
    } else if index == 2 {
        // L >< A(x, r) => S(x)~r;
        seq![
            Instr::MkAgent(var(0), AgentType::S),
            Instr::Connect(var(0), PortNum::Main, right_agent(), PortNum::P1, ConnectMode::RightRef),
            Instr::Connect(var(0), PortNum::P0, right_agent(), PortNum::P0, ConnectMode::RightRef),
            Instr::Return,
        ]
    } else if index == 3 {
        // L >< T(x, y, r) => x~r, y~E;
        seq![
            Instr::MkAgent(var(0), AgentType::E),
            Instr::Connect(right_agent(), PortNum::P1, var(0), PortNum::Main, ConnectMode::LeftRef),
            Instr::Connect(right_agent(), PortNum::P0, right_agent(), PortNum::P2, ConnectMode::FullRef),
            Instr::Return,
        ]
    } else if index == 4 {
        // L >< Q(x, y, z, r) => x~r, y~E, z~E;
        seq![
            Instr::MkAgent(var(0), AgentType::E),
            Instr::MkAgent(var(1), AgentType::E),
            Instr::Connect(right_agent(), PortNum::P0, right_agent(), PortNum::P3, ConnectMode::FullRef),
            Instr::Connect(right_agent(), PortNum::P1, var(0), PortNum::Main, ConnectMode::LeftRef),
            Instr::Connect(right_agent(), PortNum::P2, var(1), PortNum::Main, ConnectMode::LeftRef),
            Instr::Return,
        ]
    } else if index == 5 {
        // S(m) >< E => m~E;
        seq![
            Instr::MkAgent(var(0), AgentType::E),
            Instr::Connect(left_agent(), PortNum::P0, var(0), PortNum::Main, ConnectMode::LeftRef),
            Instr::Return,
        ]
    } else if index == 6 {
        // S(m) >< D(x, y) => m~D(a, b), S(a)~x, S(b)~y;
        seq![
            Instr::MkAgent(var(0), AgentType::D),
            Instr::MkAgent(var(1), AgentType::S),
            Instr::MkAgent(var(2), AgentType::S),
            Instr::Connect(var(0), PortNum::P0, var(1), PortNum::P0, ConnectMode::NoRef),
            Instr::Connect(var(0), PortNum::P1, var(2), PortNum::P0, ConnectMode::NoRef),
            Instr::Connect(left_agent(), PortNum::P0, var(0), PortNum::Main, ConnectMode::LeftRef),
            Instr::Connect(var(1), PortNum::Main, right_agent(), PortNum::P0, ConnectMode::RightRef),
            Instr::Connect(var(2), PortNum::Main, right_agent(), PortNum::P1, ConnectMode::RightRef),
            Instr::Return,
        ]
    } else if index == 7 {
        // S(m) >< A(x, r) => F(m, x)~r;
        seq![
            Instr::MkAgent(var(0), AgentType::F),
            Instr::Connect(var(0), PortNum::P0, left_agent(), PortNum::P0, ConnectMode::RightRef),
            Instr::Connect(var(0), PortNum::P1, right_agent(), PortNum::P0, ConnectMode::RightRef),
            Instr::Connect(var(0), PortNum::Main, right_agent(), PortNum::P1, ConnectMode::RightRef),
            Instr::Return,
        ]
    } else if index == 8 {
        // S(m) >< T(x, y, r) => m~A(b, A(c, r)), y~D(a, b), x~A(a, c);
        seq![
            Instr::MkAgent(var(0), AgentType::A),
            Instr::MkAgent(var(1), AgentType::A),
            Instr::MkAgent(var(2), AgentType::D),
            Instr::MkAgent(var(3), AgentType::A),
            Instr::Connect(var(0), PortNum::P0, var(2), PortNum::P0, ConnectMode::NoRef),
            Instr::Connect(var(0), PortNum::P1, var(1), PortNum::P0, ConnectMode::NoRef),
            Instr::Connect(var(1), PortNum::Main, var(3), PortNum::P1, ConnectMode::NoRef),
            Instr::Connect(var(2), PortNum::P1, var(3), PortNum::P0, ConnectMode::NoRef),
            Instr::Connect(right_agent(), PortNum::P0, var(0), PortNum::Main, ConnectMode::LeftRef),
            Instr::Connect(right_agent(), PortNum::P2, var(1), PortNum::P1, ConnectMode::LeftRef),
            Instr::Connect(right_agent(), PortNum::P1, var(2), PortNum::Main, ConnectMode::LeftRef),
            Instr::Connect(left_agent(), PortNum::P0, var(3), PortNum::Main, ConnectMode::LeftRef),
            Instr::Return,
        ]
    } else if index == 9 {
        // S(m) >< Q(x, y, z, r) => y~A(m, r), x~E, z~E;
        seq![
            Instr::MkAgent(var(0), AgentType::A),
            Instr::MkAgent(var(1), AgentType::E),
            Instr::MkAgent(var(2), AgentType::E),
            Instr::Connect(var(0), PortNum::P0, left_agent(), PortNum::P0, ConnectMode::RightRef),
            Instr::Connect(var(0), PortNum::P1, right_agent(), PortNum::P3, ConnectMode::RightRef),
            Instr::Connect(right_agent(), PortNum::P1, var(0), PortNum::Main, ConnectMode::LeftRef),
            Instr::Connect(right_agent(), PortNum::P0, var(1), PortNum::Main, ConnectMode::LeftRef),
            Instr::Connect(right_agent(), PortNum::P2, var(2), PortNum::Main, ConnectMode::LeftRef),
            Instr::Return,
        ]
    } else if index == 10 {
        // F(m, n) >< E => m~E, n~E;
        seq![
            Instr::MkAgent(var(0), AgentType::E),
            Instr::MkAgent(var(1), AgentType::E),
            Instr::Connect(left_agent(), PortNum::P0, var(0), PortNum::Main, ConnectMode::LeftRef),
            Instr::Connect(left_agent(), PortNum::P1, var(1), PortNum::Main, ConnectMode::LeftRef),
            Instr::Return,
        ]
    } else if index == 11 {
        // F(m, n) >< D(x, y) => F(a, b)~x, F(c, d)~y, m~D(a, c), n~D(b, d);
        seq![
            Instr::MkAgent(var(0), AgentType::F),
            Instr::MkAgent(var(1), AgentType::F),
            Instr::MkAgent(var(2), AgentType::D),
            Instr::MkAgent(var(3), AgentType::D),
            Instr::Connect(var(0), PortNum::P0, var(2), PortNum::P0, ConnectMode::NoRef),
            Instr::Connect(var(0), PortNum::P1, var(3), PortNum::P0, ConnectMode::NoRef),
            Instr::Connect(var(1), PortNum::P0, var(2), PortNum::P1, ConnectMode::NoRef),
            Instr::Connect(var(1), PortNum::P1, var(3), PortNum::P1, ConnectMode::NoRef),
            Instr::Connect(var(0), PortNum::Main, right_agent(), PortNum::P0, ConnectMode::RightRef),
            Instr::Connect(var(1), PortNum::Main, right_agent(), PortNum::P1, ConnectMode::RightRef),
            Instr::Connect(left_agent(), PortNum::P0, var(2), PortNum::Main, ConnectMode::LeftRef),
            Instr::Connect(left_agent(), PortNum::P1, var(3), PortNum::Main, ConnectMode::LeftRef),
            Instr::Return,
        ]
    } else if index == 12 {
        // F(m, n) >< A(x, r) => m~T(n, x, r);
        seq![
            Instr::MkAgent(var(0), AgentType::T),
            Instr::Connect(var(0), PortNum::P0, left_agent(), PortNum::P1, ConnectMode::RightRef),
            Instr::Connect(var(0), PortNum::P1, right_agent(), PortNum::P0, ConnectMode::RightRef),
            Instr::Connect(var(0), PortNum::P2, right_agent(), PortNum::P1, ConnectMode::RightRef),
            Instr::Connect(left_agent(), PortNum::P0, var(0), PortNum::Main, ConnectMode::LeftRef),
            Instr::Return,
        ]
    } else if index == 13 {
        // F(m, n) >< T(x, y, r) => y~Q(m, n, x, r);
        seq![
            Instr::MkAgent(var(0), AgentType::Q),
            Instr::Connect(var(0), PortNum::P0, left_agent(), PortNum::P0, ConnectMode::RightRef),
            Instr::Connect(var(0), PortNum::P1, left_agent(), PortNum::P1, ConnectMode::RightRef),
            Instr::Connect(var(0), PortNum::P2, right_agent(), PortNum::P0, ConnectMode::RightRef),
            Instr::Connect(var(0), PortNum::P3, right_agent(), PortNum::P2, ConnectMode::RightRef),
            Instr::Connect(right_agent(), PortNum::P1, var(0), PortNum::Main, ConnectMode::LeftRef),
            Instr::Return,
        ]
    } else {
        // F(m, n) >< Q(x, y, z, r) => z~A(m, A(n, r)), x~E, y~E;
        seq![
            Instr::MkAgent(var(0), AgentType::A),
            Instr::MkAgent(var(1), AgentType::A),
            Instr::MkAgent(var(2), AgentType::E),
            Instr::MkAgent(var(3), AgentType::E),
            Instr::Connect(var(0), PortNum::P1, var(1), PortNum::Main, ConnectMode::NoRef),
            Instr::Connect(var(0), PortNum::P0, left_agent(), PortNum::P0, ConnectMode::RightRef),
            Instr::Connect(var(1), PortNum::P0, left_agent(), PortNum::P1, ConnectMode::RightRef),
            Instr::Connect(var(1), PortNum::P1, right_agent(), PortNum::P3, ConnectMode::RightRef),
            Instr::Connect(right_agent(), PortNum::P2, var(0), PortNum::Main, ConnectMode::LeftRef),
            Instr::Connect(right_agent(), PortNum::P0, var(2), PortNum::Main, ConnectMode::LeftRef),
            Instr::Connect(right_agent(), PortNum::P1, var(3), PortNum::Main, ConnectMode::LeftRef),
            Instr::Return,
        ]
    }
}

/// The body of the rule at `index` in the table.
pub fn rule_code(index: u8) -> (r: Code)
    requires
        index < 15,
    ensures
        r@ == rule(index as nat),
{
    if index == 0 {
        // L >< E => ;
        Code::from_instrs(
            &[
                Instr::Return,
            ],
        )
    } else if index == 1 {
        // L >< D(x, y) => L~x, L~y;
        Code::from_instrs(
            &[
                Instr::MkAgent(var(0), AgentType::L),
                Instr::MkAgent(var(1), AgentType::L),
                Instr::Connect(var(0), PortNum::Main, right_agent(), PortNum::P0, ConnectMode::RightRef),
                Instr::Connect(var(1), PortNum::Main, right_agent(), PortNum::P1, ConnectMode::RightRef),
                Instr::Return,
            ],
        )
    } else if index == 2 {
        // L >< A(x, r) => S(x)~r;
        Code::from_instrs(
            &[
                Instr::MkAgent(var(0), AgentType::S),
                Instr::Connect(var(0), PortNum::Main, right_agent(), PortNum::P1, ConnectMode::RightRef),
                Instr::Connect(var(0), PortNum::P0, right_agent(), PortNum::P0, ConnectMode::RightRef),
                Instr::Return,
            ],
        )
    } else if index == 3 {
        // L >< T(x, y, r) => x~r, y~E;
        Code::from_instrs(
            &[
                Instr::MkAgent(var(0), AgentType::E),
                Instr::Connect(right_agent(), PortNum::P1, var(0), PortNum::Main, ConnectMode::LeftRef),
                Instr::Connect(right_agent(), PortNum::P0, right_agent(), PortNum::P2, ConnectMode::FullRef),
                Instr::Return,
            ],
        )
    } else if index == 4 {
        // L >< Q(x, y, z, r) => x~r, y~E, z~E;
        Code::from_instrs(
            &[
                Instr::MkAgent(var(0), AgentType::E),
                Instr::MkAgent(var(1), AgentType::E),
                Instr::Connect(right_agent(), PortNum::P0, right_agent(), PortNum::P3, ConnectMode::FullRef),
                Instr::Connect(right_agent(), PortNum::P1, var(0), PortNum::Main, ConnectMode::LeftRef),
                Instr::Connect(right_agent(), PortNum::P2, var(1), PortNum::Main, ConnectMode::LeftRef),
                Instr::Return,
            ],
        )
    } else if index == 5 {
        // S(m) >< E => m~E;
        Code::from_instrs(
            &[
                Instr::MkAgent(var(0), AgentType::E),
                Instr::Connect(left_agent(), PortNum::P0, var(0), PortNum::Main, ConnectMode::LeftRef),
                Instr::Return,
            ],
        )
    } else if index == 6 {
        // S(m) >< D(x, y) => m~D(a, b), S(a)~x, S(b)~y;
        Code::from_instrs(
            &[
                Instr::MkAgent(var(0), AgentType::D),
                Instr::MkAgent(var(1), AgentType::S),
                Instr::MkAgent(var(2), AgentType::S),
                Instr::Connect(var(0), PortNum::P0, var(1), PortNum::P0, ConnectMode::NoRef),
                Instr::Connect(var(0), PortNum::P1, var(2), PortNum::P0, ConnectMode::NoRef),
                Instr::Connect(left_agent(), PortNum::P0, var(0), PortNum::Main, ConnectMode::LeftRef),
                Instr::Connect(var(1), PortNum::Main, right_agent(), PortNum::P0, ConnectMode::RightRef),
                Instr::Connect(var(2), PortNum::Main, right_agent(), PortNum::P1, ConnectMode::RightRef),
                Instr::Return,
            ],
        )
    } else if index == 7 {
        // S(m) >< A(x, r) => F(m, x)~r;
        Code::from_instrs(
            &[
                Instr::MkAgent(var(0), AgentType::F),
                Instr::Connect(var(0), PortNum::P0, left_agent(), PortNum::P0, ConnectMode::RightRef),
                Instr::Connect(var(0), PortNum::P1, right_agent(), PortNum::P0, ConnectMode::RightRef),
                Instr::Connect(var(0), PortNum::Main, right_agent(), PortNum::P1, ConnectMode::RightRef),
                Instr::Return,
            ],
        )
    } else if index == 8 {
        // S(m) >< T(x, y, r) => m~A(b, A(c, r)), y~D(a, b), x~A(a, c);
        Code::from_instrs(
            &[
                Instr::MkAgent(var(0), AgentType::A),
                Instr::MkAgent(var(1), AgentType::A),
                Instr::MkAgent(var(2), AgentType::D),
                Instr::MkAgent(var(3), AgentType::A),
                Instr::Connect(var(0), PortNum::P0, var(2), PortNum::P0, ConnectMode::NoRef),
                Instr::Connect(var(0), PortNum::P1, var(1), PortNum::P0, ConnectMode::NoRef),
                Instr::Connect(var(1), PortNum::Main, var(3), PortNum::P1, ConnectMode::NoRef),
                Instr::Connect(var(2), PortNum::P1, var(3), PortNum::P0, ConnectMode::NoRef),
                Instr::Connect(right_agent(), PortNum::P0, var(0), PortNum::Main, ConnectMode::LeftRef),
                Instr::Connect(right_agent(), PortNum::P2, var(1), PortNum::P1, ConnectMode::LeftRef),
                Instr::Connect(right_agent(), PortNum::P1, var(2), PortNum::Main, ConnectMode::LeftRef),
                Instr::Connect(left_agent(), PortNum::P0, var(3), PortNum::Main, ConnectMode::LeftRef),
                Instr::Return,
            ],
        )
    } else if index == 9 {
        // S(m) >< Q(x, y, z, r) => y~A(m, r), x~E, z~E;
        Code::from_instrs(
            &[
                Instr::MkAgent(var(0), AgentType::A),
                Instr::MkAgent(var(1), AgentType::E),
                Instr::MkAgent(var(2), AgentType::E),
                Instr::Connect(var(0), PortNum::P0, left_agent(), PortNum::P0, ConnectMode::RightRef),
                Instr::Connect(var(0), PortNum::P1, right_agent(), PortNum::P3, ConnectMode::RightRef),
                Instr::Connect(right_agent(), PortNum::P1, var(0), PortNum::Main, ConnectMode::LeftRef),
                Instr::Connect(right_agent(), PortNum::P0, var(1), PortNum::Main, ConnectMode::LeftRef),
                Instr::Connect(right_agent(), PortNum::P2, var(2), PortNum::Main, ConnectMode::LeftRef),
                Instr::Return,
            ],
        )
    } else if index == 10 {
        // F(m, n) >< E => m~E, n~E;
        Code::from_instrs(
            &[
                Instr::MkAgent(var(0), AgentType::E),
                Instr::MkAgent(var(1), AgentType::E),
                Instr::Connect(left_agent(), PortNum::P0, var(0), PortNum::Main, ConnectMode::LeftRef),
                Instr::Connect(left_agent(), PortNum::P1, var(1), PortNum::Main, ConnectMode::LeftRef),
                Instr::Return,
            ],
        )
    } else if index == 11 {
        // F(m, n) >< D(x, y) => F(a, b)~x, F(c, d)~y, m~D(a, c), n~D(b, d);
        Code::from_instrs(
            &[
                Instr::MkAgent(var(0), AgentType::F),
                Instr::MkAgent(var(1), AgentType::F),
                Instr::MkAgent(var(2), AgentType::D),
                Instr::MkAgent(var(3), AgentType::D),
                Instr::Connect(var(0), PortNum::P0, var(2), PortNum::P0, ConnectMode::NoRef),
                Instr::Connect(var(0), PortNum::P1, var(3), PortNum::P0, ConnectMode::NoRef),
                Instr::Connect(var(1), PortNum::P0, var(2), PortNum::P1, ConnectMode::NoRef),
                Instr::Connect(var(1), PortNum::P1, var(3), PortNum::P1, ConnectMode::NoRef),
                Instr::Connect(var(0), PortNum::Main, right_agent(), PortNum::P0, ConnectMode::RightRef),
                Instr::Connect(var(1), PortNum::Main, right_agent(), PortNum::P1, ConnectMode::RightRef),
                Instr::Connect(left_agent(), PortNum::P0, var(2), PortNum::Main, ConnectMode::LeftRef),
                Instr::Connect(left_agent(), PortNum::P1, var(3), PortNum::Main, ConnectMode::LeftRef),
                Instr::Return,
            ],
        )
    } else if index == 12 {
        // F(m, n) >< A(x, r) => m~T(n, x, r);
        Code::from_instrs(
            &[
                Instr::MkAgent(var(0), AgentType::T),
                Instr::Connect(var(0), PortNum::P0, left_agent(), PortNum::P1, ConnectMode::RightRef),
                Instr::Connect(var(0), PortNum::P1, right_agent(), PortNum::P0, ConnectMode::RightRef),
                Instr::Connect(var(0), PortNum::P2, right_agent(), PortNum::P1, ConnectMode::RightRef),
                Instr::Connect(left_agent(), PortNum::P0, var(0), PortNum::Main, ConnectMode::LeftRef),
                Instr::Return,
            ],
        )
    } else if index == 13 {
        // F(m, n) >< T(x, y, r) => y~Q(m, n, x, r);
        Code::from_instrs(
            &[
                Instr::MkAgent(var(0), AgentType::Q),
                Instr::Connect(var(0), PortNum::P0, left_agent(), PortNum::P0, ConnectMode::RightRef),
                Instr::Connect(var(0), PortNum::P1, left_agent(), PortNum::P1, ConnectMode::RightRef),
                Instr::Connect(var(0), PortNum::P2, right_agent(), PortNum::P0, ConnectMode::RightRef),
                Instr::Connect(var(0), PortNum::P3, right_agent(), PortNum::P2, ConnectMode::RightRef),
                Instr::Connect(right_agent(), PortNum::P1, var(0), PortNum::Main, ConnectMode::LeftRef),
                Instr::Return,
            ],
        )
    } else {
        // F(m, n) >< Q(x, y, z, r) => z~A(m, A(n, r)), x~E, y~E;
        Code::from_instrs(
            &[
                Instr::MkAgent(var(0), AgentType::A),
                Instr::MkAgent(var(1), AgentType::A),
                Instr::MkAgent(var(2), AgentType::E),
                Instr::MkAgent(var(3), AgentType::E),
                Instr::Connect(var(0), PortNum::P1, var(1), PortNum::Main, ConnectMode::NoRef),
                Instr::Connect(var(0), PortNum::P0, left_agent(), PortNum::P0, ConnectMode::RightRef),
                Instr::Connect(var(1), PortNum::P0, left_agent(), PortNum::P1, ConnectMode::RightRef),
                Instr::Connect(var(1), PortNum::P1, right_agent(), PortNum::P3, ConnectMode::RightRef),
                Instr::Connect(right_agent(), PortNum::P2, var(0), PortNum::Main, ConnectMode::LeftRef),
                Instr::Connect(right_agent(), PortNum::P0, var(2), PortNum::Main, ConnectMode::LeftRef),
                Instr::Connect(right_agent(), PortNum::P1, var(3), PortNum::Main, ConnectMode::LeftRef),
                Instr::Return,
            ],
        )
    }
}

} // verus!
