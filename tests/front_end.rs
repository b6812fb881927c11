use bf::lexer::{lex, OpCode};
use bf::optimizer::{emit, maybe_emit, raise_abstraction, BigInsn};
use bf::parser::{parse, Instruction, ParseError};

fn tree(src: &str) -> Vec<Instruction> {
    parse(lex(src.to_string())).unwrap()
}

fn optimize(src: &str) -> Vec<BigInsn> {
    raise_abstraction(tree(src).as_slice())
}

#[test]
fn lex_keeps_only_symbols_in_order() {
    let ops = lex("a>b<c+d-e.f,g[h]i".to_string());
    assert_eq!(
        ops,
        vec![
            OpCode::IncrementPointer,
            OpCode::DecrementPointer,
            OpCode::Increment,
            OpCode::Decrement,
            OpCode::Write,
            OpCode::Read,
            OpCode::LoopBegin,
            OpCode::LoopEnd,
        ]
    );
}

#[test]
fn lex_of_plain_text_is_empty() {
    assert!(lex("hello world\n".to_string()).is_empty());
    assert!(lex(String::new()).is_empty());
}

#[test]
fn comments_do_not_change_symbols() {
    let with = lex("add three: +++ then print: . (done) \u{e9}".to_string());
    let without = lex("+++.".to_string());
    assert_eq!(with, without);
}

#[test]
fn lone_loop_end_is_unmatched_at_zero() {
    assert_eq!(parse(lex("]".to_string())), Err(ParseError::UnmatchedLoopEnd(0)));
}

#[test]
fn lone_loop_begin_is_unmatched_at_zero() {
    assert_eq!(parse(lex("[".to_string())), Err(ParseError::UnmatchedLoopBegin(0)));
}

#[test]
fn unmatched_end_reports_its_symbol_position() {
    assert_eq!(parse(lex("+[-]]".to_string())), Err(ParseError::UnmatchedLoopEnd(4)));
    // positions count symbols, not characters
    assert_eq!(parse(lex("x + y ]".to_string())), Err(ParseError::UnmatchedLoopEnd(1)));
}

#[test]
fn unmatched_begin_reports_outermost_open_loop() {
    assert_eq!(parse(lex("[[]".to_string())), Err(ParseError::UnmatchedLoopBegin(0)));
    assert_eq!(parse(lex("[]+[[-]".to_string())), Err(ParseError::UnmatchedLoopBegin(3)));
}

#[test]
fn end_before_begin_wins() {
    assert_eq!(parse(lex("][".to_string())), Err(ParseError::UnmatchedLoopEnd(0)));
}

#[test]
fn parse_builds_nested_tree() {
    assert_eq!(
        tree("+[>[-]<]."),
        vec![
            Instruction::Increment,
            Instruction::Loop(vec![
                Instruction::IncrementPointer,
                Instruction::Loop(vec![Instruction::Decrement]),
                Instruction::DecrementPointer,
            ]),
            Instruction::Write,
        ]
    );
    assert_eq!(tree(""), vec![]);
    assert_eq!(tree("[]"), vec![Instruction::Loop(vec![])]);
}

#[test]
fn moves_and_adjustments_are_folded() {
    assert_eq!(
        optimize(">>>+++<<"),
        vec![BigInsn::Move(3), BigInsn::Adj(3), BigInsn::Move(-2)]
    );
}

#[test]
fn cancelling_runs_vanish() {
    assert_eq!(optimize("+-"), vec![]);
    assert_eq!(optimize("<>><"), vec![]);
    assert_eq!(optimize("+-."), vec![BigInsn::Write]);
}

#[test]
fn move_after_adjust_flushes_in_order() {
    assert_eq!(optimize("+>"), vec![BigInsn::Adj(1), BigInsn::Move(1)]);
    assert_eq!(
        optimize(">+<"),
        vec![BigInsn::Move(1), BigInsn::Adj(1), BigInsn::Move(-1)]
    );
    assert_eq!(optimize(">+-<"), vec![]);
}

#[test]
fn io_and_loops_flush_pending_deltas() {
    assert_eq!(
        optimize(">-,"),
        vec![BigInsn::Move(1), BigInsn::Adj(-1), BigInsn::Read]
    );
    assert_eq!(
        optimize("++[>++<-]>."),
        vec![
            BigInsn::Adj(2),
            BigInsn::Loop(vec![
                BigInsn::Move(1),
                BigInsn::Adj(2),
                BigInsn::Move(-1),
                BigInsn::Adj(-1),
            ]),
            BigInsn::Move(1),
            BigInsn::Write,
        ]
    );
}

#[test]
fn emit_flushes_move_then_adjust() {
    let mut code = vec![BigInsn::Write];
    let mut dp: i128 = -4;
    let mut d: i128 = 7;
    emit(&mut code, &mut dp, &mut d);
    assert_eq!(code, vec![BigInsn::Write, BigInsn::Move(-4), BigInsn::Adj(7)]);
    assert_eq!((dp, d), (0, 0));
    let mut dp: i128 = 0;
    let mut d: i128 = 0;
    emit(&mut code, &mut dp, &mut d);
    assert_eq!(code.len(), 3);
}

#[test]
fn maybe_emit_waits_for_a_cell_delta() {
    let mut code = vec![];
    let mut dp: i128 = 5;
    let mut d: i128 = 0;
    maybe_emit(&mut code, &mut dp, &mut d);
    assert_eq!(code, vec![]);
    assert_eq!(dp, 5);
    let mut d: i128 = -2;
    maybe_emit(&mut code, &mut dp, &mut d);
    assert_eq!(code, vec![BigInsn::Move(5), BigInsn::Adj(-2)]);
    assert_eq!((dp, d), (0, 0));
}
