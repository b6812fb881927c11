use bf::codegen::{compile, Step};
use bf::executor::{run, Completion, Machine};
use bf::lexer::lex;
use bf::optimizer::{raise_abstraction, BigInsn};
use bf::parser::{parse, Instruction};
use bf::pipeline::{execute, START, TAPE_LEN};
use bf::semantics::RunError;

fn compiled(src: &str) -> Vec<Step> {
    let tree = parse(lex(src.to_string())).unwrap();
    compile(raise_abstraction(tree.as_slice()).as_slice(), 0)
}

fn output_of(src: &str, input: Vec<u8>) -> (Completion, Vec<u8>) {
    let (c, m) = execute(src.to_string(), input, 1_000_000).unwrap();
    (c, m.output)
}

fn run_tree(src: &str, input: Vec<u8>) -> (Completion, Machine) {
    let tree: Vec<Instruction> = parse(lex(src.to_string())).unwrap();
    let mut m = Machine::new(TAPE_LEN, START, input);
    let c = run(&tree, &mut m, 1_000_000);
    (c, m)
}

#[test]
fn three_increments_print_three() {
    assert_eq!(output_of("+++.", vec![]), (Completion::Finished, vec![3]));
}

#[test]
fn clearing_loop_prints_zero() {
    assert_eq!(output_of("+++++[-].", vec![]), (Completion::Finished, vec![0]));
}

#[test]
fn read_then_write_echoes() {
    assert_eq!(output_of(",.", vec![0x41]), (Completion::Finished, vec![0x41]));
}

#[test]
fn nested_loop_doubles() {
    assert_eq!(output_of("++[>++<-]>.", vec![]), (Completion::Finished, vec![4]));
}

#[test]
fn comments_do_not_change_output() {
    assert_eq!(
        output_of("plus + plus + plus + then show it .", vec![]),
        output_of("+++.", vec![])
    );
}

#[test]
fn moving_before_first_cell_is_out_of_bounds() {
    let ok = "<".repeat(START) + "+.";
    assert_eq!(output_of(&ok, vec![]), (Completion::Finished, vec![1]));
    let bad = "<".repeat(START + 1) + "+.";
    let (c, m) = execute(bad, vec![], 1000).unwrap();
    assert_eq!(c, Completion::Failed(RunError::OutOfBounds));
    assert_eq!(m.cursor, START);
    assert!(m.tape.iter().all(|v| *v == 0));
}

#[test]
fn moving_past_last_cell_is_out_of_bounds() {
    let ok = ">".repeat(TAPE_LEN - 1 - START) + "+.";
    assert_eq!(output_of(&ok, vec![]), (Completion::Finished, vec![1]));
    let bad = ">".repeat(TAPE_LEN - START);
    let (c, _) = execute(bad, vec![], 1000).unwrap();
    assert_eq!(c, Completion::Failed(RunError::OutOfBounds));
}

#[test]
fn tree_interpreter_stops_at_the_tape_edge() {
    let (c, m) = run_tree(&("+".to_string() + &"<".repeat(START + 1)), vec![]);
    assert_eq!(c, Completion::Failed(RunError::OutOfBounds));
    assert_eq!(m.cursor, 0);
    assert_eq!(m.tape[START], 1);
}

#[test]
fn reading_past_input_fails() {
    let (c, m) = execute(",.,.".to_string(), vec![7], 1000).unwrap();
    assert_eq!(c, Completion::Failed(RunError::InputExhausted));
    assert_eq!(m.output, vec![7]);
}

#[test]
fn endless_loop_runs_out_of_fuel() {
    let (c, _) = execute("+[]".to_string(), vec![], 50).unwrap();
    assert_eq!(c, Completion::OutOfFuel);
}

#[test]
fn skipped_loop_needs_no_fuel() {
    let (c, m) = execute("[+].".to_string(), vec![], 0).unwrap();
    assert_eq!(c, Completion::Finished);
    assert_eq!(m.output, vec![0]);
}

#[test]
fn cell_arithmetic_wraps() {
    assert_eq!(output_of("-.", vec![]), (Completion::Finished, vec![255]));
    let src = "+".repeat(256) + ".";
    assert_eq!(output_of(&src, vec![]), (Completion::Finished, vec![0]));
    let src = "-".repeat(257) + ".";
    assert_eq!(output_of(&src, vec![]), (Completion::Finished, vec![255]));
}

#[test]
fn parse_errors_stop_execution() {
    assert!(execute("+[".to_string(), vec![], 10).is_err());
    assert!(execute("+]".to_string(), vec![], 10).is_err());
}

#[test]
fn moves_fold_into_the_next_step() {
    assert_eq!(compiled(">>+"), vec![Step::Adjust(2, 1)]);
    assert_eq!(compiled("<."), vec![Step::Write(-1)]);
    assert_eq!(compiled(">,"), vec![Step::Read(1)]);
    assert_eq!(compiled(">>"), vec![Step::Shift(2)]);
    assert_eq!(compiled(""), vec![]);
}

#[test]
fn adjust_amount_is_taken_modulo_256() {
    assert_eq!(compiled("-"), vec![Step::Adjust(0, 255)]);
    assert_eq!(compile(&[BigInsn::Adj(-257)], 0), vec![Step::Adjust(0, 255)]);
    assert_eq!(compile(&[BigInsn::Adj(300)], 0), vec![Step::Adjust(0, 44)]);
}

#[test]
fn clearing_loop_becomes_zero_step() {
    assert_eq!(compiled(">[-]"), vec![Step::Zero(1)]);
    assert_eq!(compiled("[--]"), vec![Step::Loop(0, vec![Step::Adjust(0, 254)])]);
    assert_eq!(compiled("[-+-]"), vec![Step::Zero(0)]);
}

#[test]
fn general_loop_compiles_its_body() {
    assert_eq!(
        compiled("[>+<-]"),
        vec![Step::Loop(0, vec![Step::Adjust(1, 1), Step::Adjust(-1, 255)])]
    );
}

#[test]
fn pending_displacement_is_kept_apart_from_a_following_move() {
    let code = compile(&[BigInsn::Move(3), BigInsn::Move(-1), BigInsn::Write], 2);
    assert_eq!(code, vec![Step::Shift(2), Step::Shift(3), Step::Write(-1)]);
}

#[test]
fn optimized_run_matches_tree_run() {
    let programs = [
        "++[>++<-]>.",
        "+++++[-].",
        ",[.-]",
        ">+>++>+++<<[->[->+<]<]>>>.<.",
        "+[>,.<-]",
        "++++++++[>++++[>++>+++<<-]>-]>.>.",
    ];
    for src in programs.iter() {
        let input = vec![3, 9, 1];
        let (c1, m1) = run_tree(src, input.clone());
        let (c2, m2) = execute(src.to_string(), input, 1_000_000).unwrap();
        assert_eq!(c1, c2, "{}", src);
        assert_eq!(m1.output, m2.output, "{}", src);
        assert_eq!(m1.tape, m2.tape, "{}", src);
        assert_eq!(m1.cursor, m2.cursor, "{}", src);
        assert_eq!(m1.consumed, m2.consumed, "{}", src);
    }
}

#[test]
fn new_machine_is_zeroed() {
    let m = Machine::new(8, 3, vec![1, 2]);
    assert_eq!(m.tape, vec![0; 8]);
    assert_eq!(m.cursor, 3);
    assert_eq!(m.consumed, 0);
    assert!(m.output.is_empty());
}
