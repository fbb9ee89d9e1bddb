use treecalc::agent::AgentType;
use treecalc::code::{Code, ConnectMode, Instr};
use treecalc::global::PortNum;
use treecalc::vm::{EvalState, VM};

// Each graph connects one value agent to one operator agent by their
// principal ports and closes every other port with a leaf or an eraser, so a
// correct rule reduces it to an empty heap.
fn run_to_empty(code: Code) {
    let mut vm = VM::from_code(code).expect("construction code runs");
    assert!(!vm.is_empty());
    let state = vm.eval();
    assert_eq!(state, EvalState::EvalFinished);
    assert!(vm.is_empty());
}

#[test]
fn rule_l_e_erases_everything() {
    run_to_empty(Code::from_instrs(&[
        Instr::MkAgent(0, AgentType::L),
        Instr::MkAgent(1, AgentType::E),
        Instr::Connect(0, PortNum::Main, 1, PortNum::Main, ConnectMode::NoRef),
        Instr::Return,
    ]));
}

#[test]
fn rule_s_e_erases_everything() {
    run_to_empty(Code::from_instrs(&[
        Instr::MkAgent(0, AgentType::S),
        Instr::MkAgent(1, AgentType::E),
        Instr::MkAgent(2, AgentType::L),
        Instr::Connect(0, PortNum::Main, 1, PortNum::Main, ConnectMode::NoRef),
        Instr::Connect(2, PortNum::Main, 0, PortNum::P0, ConnectMode::NoRef),
        Instr::Return,
    ]));
}

#[test]
fn rule_f_e_erases_everything() {
    run_to_empty(Code::from_instrs(&[
        Instr::MkAgent(0, AgentType::F),
        Instr::MkAgent(1, AgentType::E),
        Instr::MkAgent(2, AgentType::L),
        Instr::MkAgent(3, AgentType::L),
        Instr::Connect(0, PortNum::Main, 1, PortNum::Main, ConnectMode::NoRef),
        Instr::Connect(2, PortNum::Main, 0, PortNum::P0, ConnectMode::NoRef),
        Instr::Connect(3, PortNum::Main, 0, PortNum::P1, ConnectMode::NoRef),
        Instr::Return,
    ]));
}

#[test]
fn rule_l_d_erases_everything() {
    run_to_empty(Code::from_instrs(&[
        Instr::MkAgent(0, AgentType::L),
        Instr::MkAgent(1, AgentType::D),
        Instr::MkAgent(2, AgentType::E),
        Instr::MkAgent(3, AgentType::E),
        Instr::Connect(0, PortNum::Main, 1, PortNum::Main, ConnectMode::NoRef),
        Instr::Connect(1, PortNum::P0, 2, PortNum::Main, ConnectMode::NoRef),
        Instr::Connect(1, PortNum::P1, 3, PortNum::Main, ConnectMode::NoRef),
        Instr::Return,
    ]));
}

#[test]
fn rule_s_d_erases_everything() {
    run_to_empty(Code::from_instrs(&[
        Instr::MkAgent(0, AgentType::S),
        Instr::MkAgent(1, AgentType::D),
        Instr::MkAgent(2, AgentType::E),
        Instr::MkAgent(3, AgentType::E),
        Instr::MkAgent(4, AgentType::L),
        Instr::Connect(0, PortNum::Main, 1, PortNum::Main, ConnectMode::NoRef),
        Instr::Connect(1, PortNum::P0, 2, PortNum::Main, ConnectMode::NoRef),
        Instr::Connect(1, PortNum::P1, 3, PortNum::Main, ConnectMode::NoRef),
        Instr::Connect(4, PortNum::Main, 0, PortNum::P0, ConnectMode::NoRef),
        Instr::Return,
    ]));
}

#[test]
fn rule_f_d_erases_everything() {
    run_to_empty(Code::from_instrs(&[
        Instr::MkAgent(0, AgentType::F),
        Instr::MkAgent(1, AgentType::D),
        Instr::MkAgent(2, AgentType::E),
        Instr::MkAgent(3, AgentType::E),
        Instr::MkAgent(4, AgentType::L),
        Instr::MkAgent(5, AgentType::L),
        Instr::Connect(0, PortNum::Main, 1, PortNum::Main, ConnectMode::NoRef),
        Instr::Connect(1, PortNum::P0, 2, PortNum::Main, ConnectMode::NoRef),
        Instr::Connect(1, PortNum::P1, 3, PortNum::Main, ConnectMode::NoRef),
        Instr::Connect(4, PortNum::Main, 0, PortNum::P0, ConnectMode::NoRef),
        Instr::Connect(5, PortNum::Main, 0, PortNum::P1, ConnectMode::NoRef),
        Instr::Return,
    ]));
}

#[test]
fn rule_l_a_erases_everything() {
    run_to_empty(Code::from_instrs(&[
        Instr::MkAgent(0, AgentType::L),
        Instr::MkAgent(1, AgentType::A),
        Instr::MkAgent(2, AgentType::L),
        Instr::MkAgent(3, AgentType::E),
        Instr::Connect(0, PortNum::Main, 1, PortNum::Main, ConnectMode::NoRef),
        Instr::Connect(2, PortNum::Main, 1, PortNum::P0, ConnectMode::NoRef),
        Instr::Connect(3, PortNum::Main, 1, PortNum::P1, ConnectMode::NoRef),
        Instr::Return,
    ]));
}

#[test]
fn rule_s_a_erases_everything() {
    run_to_empty(Code::from_instrs(&[
        Instr::MkAgent(0, AgentType::S),
        Instr::MkAgent(1, AgentType::A),
        Instr::MkAgent(2, AgentType::L),
        Instr::MkAgent(3, AgentType::E),
        Instr::MkAgent(4, AgentType::L),
        Instr::Connect(0, PortNum::Main, 1, PortNum::Main, ConnectMode::NoRef),
        Instr::Connect(2, PortNum::Main, 1, PortNum::P0, ConnectMode::NoRef),
        Instr::Connect(3, PortNum::Main, 1, PortNum::P1, ConnectMode::NoRef),
        Instr::Connect(4, PortNum::Main, 0, PortNum::P0, ConnectMode::NoRef),
        Instr::Return,
    ]));
}

#[test]
fn rule_f_a_erases_everything() {
    run_to_empty(Code::from_instrs(&[
        Instr::MkAgent(0, AgentType::F),
        Instr::MkAgent(1, AgentType::A),
        Instr::MkAgent(2, AgentType::L),
        Instr::MkAgent(3, AgentType::E),
        Instr::MkAgent(4, AgentType::L),
        Instr::MkAgent(5, AgentType::L),
        Instr::Connect(0, PortNum::Main, 1, PortNum::Main, ConnectMode::NoRef),
        Instr::Connect(2, PortNum::Main, 1, PortNum::P0, ConnectMode::NoRef),
        Instr::Connect(3, PortNum::Main, 1, PortNum::P1, ConnectMode::NoRef),
        Instr::Connect(4, PortNum::Main, 0, PortNum::P0, ConnectMode::NoRef),
        Instr::Connect(5, PortNum::Main, 0, PortNum::P1, ConnectMode::NoRef),
        Instr::Return,
    ]));
}

#[test]
fn rule_l_t_erases_everything() {
    run_to_empty(Code::from_instrs(&[
        Instr::MkAgent(0, AgentType::L),
        Instr::MkAgent(1, AgentType::T),
        Instr::MkAgent(2, AgentType::L),
        Instr::MkAgent(3, AgentType::L),
        Instr::MkAgent(4, AgentType::E),
        Instr::Connect(0, PortNum::Main, 1, PortNum::Main, ConnectMode::NoRef),
        Instr::Connect(2, PortNum::Main, 1, PortNum::P0, ConnectMode::NoRef),
        Instr::Connect(3, PortNum::Main, 1, PortNum::P1, ConnectMode::NoRef),
        Instr::Connect(4, PortNum::Main, 1, PortNum::P2, ConnectMode::NoRef),
        Instr::Return,
    ]));
}

#[test]
fn rule_s_t_erases_everything() {
    run_to_empty(Code::from_instrs(&[
        Instr::MkAgent(0, AgentType::S),
        Instr::MkAgent(1, AgentType::T),
        Instr::MkAgent(2, AgentType::L),
        Instr::MkAgent(3, AgentType::L),
        Instr::MkAgent(4, AgentType::E),
        Instr::MkAgent(5, AgentType::L),
        Instr::Connect(0, PortNum::Main, 1, PortNum::Main, ConnectMode::NoRef),
        Instr::Connect(2, PortNum::Main, 1, PortNum::P0, ConnectMode::NoRef),
        Instr::Connect(3, PortNum::Main, 1, PortNum::P1, ConnectMode::NoRef),
        Instr::Connect(4, PortNum::Main, 1, PortNum::P2, ConnectMode::NoRef),
        Instr::Connect(5, PortNum::Main, 0, PortNum::P0, ConnectMode::NoRef),
        Instr::Return,
    ]));
}

#[test]
fn rule_f_t_erases_everything() {
    run_to_empty(Code::from_instrs(&[
        Instr::MkAgent(0, AgentType::F),
        Instr::MkAgent(1, AgentType::T),
        Instr::MkAgent(2, AgentType::L),
        Instr::MkAgent(3, AgentType::L),
        Instr::MkAgent(4, AgentType::E),
        Instr::MkAgent(5, AgentType::L),
        Instr::MkAgent(6, AgentType::L),
        Instr::Connect(0, PortNum::Main, 1, PortNum::Main, ConnectMode::NoRef),
        Instr::Connect(2, PortNum::Main, 1, PortNum::P0, ConnectMode::NoRef),
        Instr::Connect(3, PortNum::Main, 1, PortNum::P1, ConnectMode::NoRef),
        Instr::Connect(4, PortNum::Main, 1, PortNum::P2, ConnectMode::NoRef),
        Instr::Connect(5, PortNum::Main, 0, PortNum::P0, ConnectMode::NoRef),
        Instr::Connect(6, PortNum::Main, 0, PortNum::P1, ConnectMode::NoRef),
        Instr::Return,
    ]));
}

#[test]
fn rule_l_q_erases_everything() {
    run_to_empty(Code::from_instrs(&[
        Instr::MkAgent(0, AgentType::L),
        Instr::MkAgent(1, AgentType::Q),
        Instr::MkAgent(2, AgentType::L),
        Instr::MkAgent(3, AgentType::L),
        Instr::MkAgent(4, AgentType::L),
        Instr::MkAgent(5, AgentType::E),
        Instr::Connect(0, PortNum::Main, 1, PortNum::Main, ConnectMode::NoRef),
        Instr::Connect(2, PortNum::Main, 1, PortNum::P0, ConnectMode::NoRef),
        Instr::Connect(3, PortNum::Main, 1, PortNum::P1, ConnectMode::NoRef),
        Instr::Connect(4, PortNum::Main, 1, PortNum::P2, ConnectMode::NoRef),
        Instr::Connect(5, PortNum::Main, 1, PortNum::P3, ConnectMode::NoRef),
        Instr::Return,
    ]));
}

#[test]
fn rule_s_q_erases_everything() {
    run_to_empty(Code::from_instrs(&[
        Instr::MkAgent(0, AgentType::S),
        Instr::MkAgent(1, AgentType::Q),
        Instr::MkAgent(2, AgentType::L),
        Instr::MkAgent(3, AgentType::L),
        Instr::MkAgent(4, AgentType::L),
        Instr::MkAgent(5, AgentType::E),
        Instr::MkAgent(6, AgentType::L),
        Instr::Connect(0, PortNum::Main, 1, PortNum::Main, ConnectMode::NoRef),
        Instr::Connect(2, PortNum::Main, 1, PortNum::P0, ConnectMode::NoRef),
        Instr::Connect(3, PortNum::Main, 1, PortNum::P1, ConnectMode::NoRef),
        Instr::Connect(4, PortNum::Main, 1, PortNum::P2, ConnectMode::NoRef),
        Instr::Connect(5, PortNum::Main, 1, PortNum::P3, ConnectMode::NoRef),
        Instr::Connect(6, PortNum::Main, 0, PortNum::P0, ConnectMode::NoRef),
        Instr::Return,
    ]));
}

#[test]
fn rule_f_q_erases_everything() {
    run_to_empty(Code::from_instrs(&[
        Instr::MkAgent(0, AgentType::F),
        Instr::MkAgent(1, AgentType::Q),
        Instr::MkAgent(2, AgentType::L),
        Instr::MkAgent(3, AgentType::L),
        Instr::MkAgent(4, AgentType::L),
        Instr::MkAgent(5, AgentType::E),
        Instr::MkAgent(6, AgentType::L),
        Instr::MkAgent(7, AgentType::L),
        Instr::Connect(0, PortNum::Main, 1, PortNum::Main, ConnectMode::NoRef),
        Instr::Connect(2, PortNum::Main, 1, PortNum::P0, ConnectMode::NoRef),
        Instr::Connect(3, PortNum::Main, 1, PortNum::P1, ConnectMode::NoRef),
        Instr::Connect(4, PortNum::Main, 1, PortNum::P2, ConnectMode::NoRef),
        Instr::Connect(5, PortNum::Main, 1, PortNum::P3, ConnectMode::NoRef),
        Instr::Connect(6, PortNum::Main, 0, PortNum::P0, ConnectMode::NoRef),
        Instr::Connect(7, PortNum::Main, 0, PortNum::P1, ConnectMode::NoRef),
        Instr::Return,
    ]));
}
