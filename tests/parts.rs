use treecalc::agent::{Agent, AgentType, Port};
use treecalc::code::{Code, ConnectMode, Instr, Tape};
use treecalc::expr::Expr;
use treecalc::global::{PortNum, UNASSIGNED_PORT};
use treecalc::heap::Heap;
use treecalc::parse::parse_tree;
use treecalc::rules::{left_agent, right_agent, rule_code, var};

fn leaf() -> Expr {
    Expr::new(vec![])
}

#[test]
fn empty_port_is_unassigned() {
    let p = Port::empty();
    assert_eq!(p.agent_addr, UNASSIGNED_PORT);
    assert_eq!(p.port_num, PortNum::Main);
    let q = Port::new(7, PortNum::P2);
    assert_eq!(q.agent_addr, 7);
    assert_eq!(q.port_num, PortNum::P2);
}

#[test]
fn new_agent_has_no_connections() {
    let a = Agent::new(AgentType::Q);
    assert_eq!(a.agent_type, AgentType::Q);
    for p in a.ports.iter() {
        assert_eq!(p.agent_addr, UNASSIGNED_PORT);
    }
}

#[test]
fn heap_reuses_lowest_free_address() {
    let mut h = Heap::new();
    assert!(h.is_empty());
    assert_eq!(h.push(Agent::new(AgentType::L)), Some(0));
    assert_eq!(h.push(Agent::new(AgentType::S)), Some(1));
    assert_eq!(h.push(Agent::new(AgentType::F)), Some(2));
    h.remove(1);
    h.remove(0);
    assert!(!h.contains(0));
    assert!(!h.contains(1));
    assert_eq!(h.push(Agent::new(AgentType::E)), Some(0));
    assert_eq!(h.get(0).agent_type, AgentType::E);
    assert_eq!(h.get(2).agent_type, AgentType::F);
    assert_eq!(h.push(Agent::new(AgentType::D)), Some(1));
    assert_eq!(h.full_len(), 3);
}

#[test]
fn heap_trims_free_slots_at_the_end() {
    let mut h = Heap::new();
    h.push(Agent::new(AgentType::L));
    h.push(Agent::new(AgentType::L));
    h.push(Agent::new(AgentType::L));
    h.remove(1);
    assert_eq!(h.full_len(), 3);
    h.remove(2);
    assert_eq!(h.full_len(), 1);
    h.remove(0);
    assert_eq!(h.full_len(), 0);
    assert!(h.is_empty());
}

#[test]
fn tape_reads_in_order_and_rewinds() {
    let mut tape = Tape::from_code(Code::from_instrs(&[Instr::Load(2, 9), Instr::Return]));
    assert_eq!(tape.read_instr(), Instr::Load(2, 9));
    assert_eq!(tape.read_instr(), Instr::Return);
    tape.set(Code::from_instrs(&[Instr::MkAgent(1, AgentType::A)]));
    assert_eq!(tape.read_instr(), Instr::MkAgent(1, AgentType::A));
}

#[test]
fn compiled_leaf() {
    let code = Code::from_expr(&leaf());
    let mut tape = Tape::from_code(code);
    let expected = [
        Instr::MkAgent(0, AgentType::I),
        Instr::MkAgent(0, AgentType::L),
        Instr::Load(0, 0),
        Instr::Load(1, 1),
        Instr::Connect(0, PortNum::P0, 1, PortNum::Main, ConnectMode::NoRef),
        Instr::Return,
    ];
    for i in expected {
        assert_eq!(tape.read_instr(), i);
    }
}

#[test]
fn compiled_application_links_result_port() {
    let e = Expr::new(vec![leaf(), leaf(), leaf()]);
    let mut tape = Tape::from_code(Code::from_expr(&e));
    let expected = [
        Instr::MkAgent(0, AgentType::I),
        Instr::MkAgent(0, AgentType::A),
        Instr::MkAgent(0, AgentType::F),
        Instr::MkAgent(0, AgentType::L),
        Instr::MkAgent(0, AgentType::L),
        Instr::Load(0, 2),
        Instr::Load(1, 3),
        Instr::Load(2, 4),
        Instr::Connect(0, PortNum::P0, 1, PortNum::Main, ConnectMode::NoRef),
        Instr::Connect(0, PortNum::P1, 2, PortNum::Main, ConnectMode::NoRef),
        Instr::MkAgent(0, AgentType::L),
        Instr::Load(0, 1),
        Instr::Load(1, 2),
        Instr::Load(2, 5),
        Instr::Connect(1, PortNum::Main, 0, PortNum::Main, ConnectMode::NoRef),
        Instr::Connect(0, PortNum::P0, 2, PortNum::Main, ConnectMode::NoRef),
        Instr::Load(0, 0),
        Instr::Load(1, 1),
        Instr::Connect(1, PortNum::P1, 0, PortNum::P0, ConnectMode::NoRef),
        Instr::Return,
    ];
    for i in expected {
        assert_eq!(tape.read_instr(), i);
    }
}

#[test]
fn agent_count_of_terms() {
    let e = Expr::new(vec![leaf(), leaf(), leaf()]);
    assert_eq!(Code::count_agents(&e.children, 3), Some(5));
    assert_eq!(Code::count_agents(&e.children, 0), Some(1));
    assert_eq!(Code::count_agents(&e.children, 2), Some(3));
}

#[test]
fn rule_registers() {
    assert_eq!(left_agent(), 0);
    assert_eq!(right_agent(), 3);
    assert_eq!(var(0), 8);
    assert_eq!(var(3), 11);
}

#[test]
fn rule_table_entries() {
    let mut tape = Tape::from_code(rule_code(0));
    assert_eq!(tape.read_instr(), Instr::Return);
    let mut tape = Tape::from_code(rule_code(7));
    assert_eq!(tape.read_instr(), Instr::MkAgent(8, AgentType::F));
    assert_eq!(tape.read_instr(), Instr::Connect(8, PortNum::P0, 0, PortNum::P0, ConnectMode::RightRef));
}

#[test]
fn to_string_brackets_nested_children() {
    assert_eq!(leaf().to_string(), "t");
    let e = Expr::new(vec![Expr::new(vec![leaf()]), leaf()]);
    assert_eq!(e.to_string(), "t(tt)t");
}

#[test]
fn size_counts_nodes() {
    let e = Expr::new(vec![Expr::new(vec![leaf()]), leaf()]);
    assert_eq!(e.get_size(), 4);
    assert_eq!(leaf().get_size(), 1);
}

#[test]
fn parse_reads_nested_terms() {
    let e = parse_tree("t(tt)t".to_string()).expect("a term");
    assert_eq!(e.children.len(), 2);
    assert_eq!(e.children[0].children.len(), 1);
    assert_eq!(e.to_string(), "t(tt)t");
}

#[test]
fn parse_of_nothing_is_none() {
    assert!(parse_tree(String::new()).is_none());
    assert!(parse_tree("t(".to_string()).is_none());
}

#[test]
fn parse_counts_every_other_character_as_t() {
    let e = parse_tree("t t".to_string()).expect("a term");
    assert_eq!(e.to_string(), "ttt");
}
