use treecalc::agent::AgentType;
use treecalc::code::{Code, ConnectMode, Instr};
use treecalc::expr::Expr;
use treecalc::global::PortNum;
use treecalc::parse::parse_tree;
use treecalc::vm::{EvalState, VM};

fn leaf() -> Expr {
    Expr::new(vec![])
}

fn node(children: Vec<Expr>) -> Expr {
    Expr::new(children)
}

fn normal_form(expr: Expr) -> String {
    let mut vm = VM::from_expr(expr).expect("the term fits in the arena");
    let state = vm.eval();
    assert_ne!(state, EvalState::EvalFault);
    vm.readback().to_string()
}

fn eval_text(text: &str) -> String {
    normal_form(parse_tree(text.to_string()).expect("a term"))
}

#[test]
fn leaf_reads_back_as_leaf() {
    assert_eq!(eval_text("t"), "t");
}

#[test]
fn leaf_applied_to_leaf_is_a_stem() {
    // `t t` is the stem constructor applied once: a value.
    assert_eq!(eval_text("tt"), "tt");
}

#[test]
fn values_round_trip() {
    for text in ["t", "tt", "ttt", "t(tt)", "t(tt)t", "t(ttt)(t(tt))", "tt(t(tt)(ttt))"] {
        assert_eq!(eval_text(text), text);
    }
}

#[test]
fn stem_applied_to_leaf_is_a_fork() {
    // t(t t) t: the stem t(tt) given one more argument builds a fork.
    assert_eq!(eval_text("t(tt)t"), "t(tt)t");
}

#[test]
fn leaf_with_two_arguments_gives_first() {
    // t t (t t) (t t): the leaf rule yields the first argument, `t t`.
    assert_eq!(eval_text("t t (t t) (t t)".replace(' ', "").as_str()), "tt");
    assert_eq!(eval_text("tt(tt)(tt)"), "tt");
}

#[test]
fn leaf_with_three_leaves_gives_leaf() {
    assert_eq!(eval_text("tttt"), "t");
}

#[test]
fn stem_rule_duplicates_its_argument() {
    // t(t m) n z with m = n = t and z = t t t: m z (n z), where z is shared
    // by both applications and comes out as two separate copies.
    assert_eq!(eval_text("t(tt)t(ttt)"), "t(ttt)(t(ttt))");
}

#[test]
fn stem_rule_with_leaf_argument() {
    assert_eq!(eval_text("t(tt)tt"), "tt(tt)");
}

#[test]
fn fork_rule_on_leaf_argument() {
    assert_eq!(eval_text("t(ttt)tt"), "t");
}

#[test]
fn fork_rule_on_stem_argument() {
    assert_eq!(eval_text("t(ttt)t(tt)"), "tt");
}

#[test]
fn fork_rule_on_fork_argument() {
    assert_eq!(eval_text("t(ttt)t(ttt)"), "ttt");
}

#[test]
fn evaluation_is_repeatable() {
    let first = eval_text("t(tt)t(ttt)");
    let second = eval_text("t(tt)t(ttt)");
    assert_eq!(first, second);
    let a = node(vec![node(vec![leaf()]), leaf(), node(vec![leaf(), leaf()])]);
    let b = node(vec![node(vec![leaf()]), leaf(), node(vec![leaf(), leaf()])]);
    assert_eq!(normal_form(a), normal_form(b));
}

#[test]
fn large_value_is_erased_completely() {
    // A fork whose children are forks of leaves, connected to an eraser.
    let mut instrs = vec![
        Instr::MkAgent(0, AgentType::F),
        Instr::MkAgent(1, AgentType::E),
        Instr::Connect(0, PortNum::Main, 1, PortNum::Main, ConnectMode::NoRef),
        Instr::MkAgent(2, AgentType::F),
        Instr::MkAgent(3, AgentType::F),
        Instr::Connect(2, PortNum::Main, 0, PortNum::P0, ConnectMode::NoRef),
        Instr::Connect(3, PortNum::Main, 0, PortNum::P1, ConnectMode::NoRef),
    ];
    for parent in [2u8, 3u8] {
        instrs.push(Instr::MkAgent(4, AgentType::S));
        instrs.push(Instr::MkAgent(5, AgentType::L));
        instrs.push(Instr::MkAgent(6, AgentType::L));
        instrs.push(Instr::Connect(4, PortNum::Main, parent, PortNum::P0, ConnectMode::NoRef));
        instrs.push(Instr::Connect(5, PortNum::Main, 4, PortNum::P0, ConnectMode::NoRef));
        instrs.push(Instr::Connect(6, PortNum::Main, parent, PortNum::P1, ConnectMode::NoRef));
    }
    instrs.push(Instr::Return);
    let mut vm = VM::from_code(Code::from_instrs(&instrs)).expect("construction code runs");
    assert_eq!(vm.eval(), EvalState::EvalFinished);
    assert!(vm.is_empty());
}

#[test]
fn shared_value_is_copied_for_two_consumers() {
    // A fork of leaves duplicated, each copy then erased.
    let code = Code::from_instrs(&[
        Instr::MkAgent(0, AgentType::F),
        Instr::MkAgent(1, AgentType::D),
        Instr::MkAgent(2, AgentType::L),
        Instr::MkAgent(3, AgentType::L),
        Instr::MkAgent(4, AgentType::E),
        Instr::MkAgent(5, AgentType::E),
        Instr::Connect(2, PortNum::Main, 0, PortNum::P0, ConnectMode::NoRef),
        Instr::Connect(3, PortNum::Main, 0, PortNum::P1, ConnectMode::NoRef),
        Instr::Connect(1, PortNum::P0, 4, PortNum::Main, ConnectMode::NoRef),
        Instr::Connect(1, PortNum::P1, 5, PortNum::Main, ConnectMode::NoRef),
        Instr::Connect(0, PortNum::Main, 1, PortNum::Main, ConnectMode::NoRef),
        Instr::Return,
    ]);
    let mut vm = VM::from_code(code).expect("construction code runs");
    // The duplication first builds two forks; the erasers then consume them.
    assert_eq!(vm.step(), EvalState::EvalRunning);
    assert_eq!(vm.eval(), EvalState::EvalFinished);
    assert!(vm.is_empty());
}

#[test]
fn empty_stack_finishes_at_once() {
    let mut vm = VM::from_expr(leaf()).expect("fits");
    assert_eq!(vm.step(), EvalState::EvalFinished);
    assert_eq!(vm.readback().to_string(), "t");
}

#[test]
fn code_without_return_is_refused() {
    let code = Code::from_instrs(&[Instr::MkAgent(0, AgentType::L)]);
    assert!(VM::from_code(code).is_none());
}

#[test]
fn connect_through_unassigned_register_is_refused() {
    let code = Code::from_instrs(&[
        Instr::MkAgent(0, AgentType::L),
        Instr::Connect(0, PortNum::Main, 5, PortNum::Main, ConnectMode::NoRef),
        Instr::Return,
    ]);
    assert!(VM::from_code(code).is_none());
}

#[test]
fn register_out_of_range_is_refused() {
    let code = Code::from_instrs(&[Instr::MkAgent(12, AgentType::L), Instr::Return]);
    assert!(VM::from_code(code).is_none());
}

#[test]
fn operator_pair_without_rule_faults() {
    let code = Code::from_instrs(&[
        Instr::MkAgent(0, AgentType::E),
        Instr::MkAgent(1, AgentType::E),
        Instr::Connect(0, PortNum::Main, 1, PortNum::Main, ConnectMode::NoRef),
        Instr::Return,
    ]);
    let mut vm = VM::from_code(code).expect("construction code runs");
    assert_eq!(vm.step(), EvalState::EvalFault);
}

#[test]
fn interface_pair_stops_evaluation() {
    let code = Code::from_instrs(&[
        Instr::MkAgent(0, AgentType::I),
        Instr::MkAgent(1, AgentType::L),
        Instr::Connect(1, PortNum::Main, 0, PortNum::Main, ConnectMode::NoRef),
        Instr::Return,
    ]);
    let mut vm = VM::from_code(code).expect("construction code runs");
    assert_eq!(vm.eval(), EvalState::EvalFinished);
    assert!(!vm.is_empty());
}
