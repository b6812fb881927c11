use vstd::prelude::*;
use crate::codegen::{compile, compiled, lemma_compile_preserves_behaviour, run_chain};
use crate::equivalence::lemma_optimizer_preserves_behaviour;
use crate::executor::{ends_as, Completion, Machine};
use crate::lexer::{lex, lex_spec};
use crate::optimizer::{raise_abstraction, optimized, BigInsn};
use crate::parser::{
    balanced, first_unmatched_end, outermost_unclosed, parse, unparse, Instruction, ParseError,
};
use crate::semantics::{is_out_of_bounds, run_raw, valid, Outcome, State};

verus! {

broadcast use vstd::std_specs::vec::group_vec_axioms, vstd::seq::group_seq_axioms;

/// Number of cells on the tape.
pub const TAPE_LEN: usize = 1024;

/// Where the cursor starts.
pub const START: usize = 512;

/// The state a program starts from: a zeroed tape, the cursor at `START`, all
/// of `input` unread, no output.
pub open spec fn initial_state(input: Seq<u8>) -> State {
    State {
        tape: Seq::new(TAPE_LEN as nat, |i: int| 0u8),
        cursor: START as int,
        input,
        output: Seq::empty(),
    }
}

/// A run ended as the semantics of program `p` says, wherever that run stays on
/// the tape and ends within its fuel.
pub open spec fn agrees(c: Completion, m: Machine, p: Seq<Instruction>, s: State, fuel: nat) -> bool {
    let o = run_raw(p, s, fuel);
    (!is_out_of_bounds(o) && !(o is OutOfFuel)) ==> ends_as(c, m, o)
}

/// Optimizing a program tree and compiling the result gives code that runs
/// exactly as the tree does, from any state whose cursor is on the tape,
/// wherever the tree's run stays on the tape and ends within its fuel.
pub proof fn lemma_pipeline_preserves_behaviour(
    p: Seq<Instruction>,
    big: Seq<BigInsn>,
    code: Seq<crate::codegen::Step>,
    s: State,
    fuel: nat,
)
    requires
        optimized(p, big),
        compiled(big, code),
        p.len() <= usize::MAX,
        valid(s),
        !is_out_of_bounds(run_raw(p, s, fuel)),
        !(run_raw(p, s, fuel) is OutOfFuel),
    ensures
        run_chain(code, s, fuel) == run_raw(p, s, fuel),
{
    lemma_optimizer_preserves_behaviour(p, big, s, fuel);
    lemma_compile_preserves_behaviour(big, code, s, fuel);
}

/// Lexes, parses, optimizes and compiles `source`, then runs it on a fresh
/// machine with `input`; each loop may iterate at most `fuel` times.
pub fn execute(source: String, input: Vec<u8>, fuel: u64) -> (r: Result<
    (Completion, Machine),
    ParseError,
>)
    ensures
        r is Ok <==> balanced(lex_spec(source@)),
        match r {
            Ok((c, m)) => {
                &&& balanced(lex_spec(source@))
                &&& m.wf()
                &&& exists|p: Seq<Instruction>|
                    #![trigger unparse(p)]
                    unparse(p) == lex_spec(source@) && p.len() <= usize::MAX && agrees(
                        c,
                        m,
                        p,
                        initial_state(input@),
                        fuel as nat,
                    )
            },
            Err(ParseError::UnmatchedLoopEnd(i)) => first_unmatched_end(lex_spec(source@), i as int),
            Err(ParseError::UnmatchedLoopBegin(i)) => outermost_unclosed(
                lex_spec(source@),
                i as int,
            ),
        },
{
    let ops = lex(source);
    let program = parse(ops)?;
    let big = raise_abstraction(program.as_slice());
    let code = compile(big.as_slice(), 0);
    let ghost s0 = initial_state(input@);
    let ghost inp = input@;
    let mut m = Machine::new(TAPE_LEN, START, input);
    proof {
        assert(m.input@.skip(0) =~= inp);
        assert(m.output@ =~= Seq::<u8>::empty());
        assert(m.state() == s0);
    }
    let c = m.run(&code, fuel);
    proof {
        let p = program@;
        assert(program.len() == p.len());
        let o = run_raw(p, s0, fuel as nat);
        if !is_out_of_bounds(o) && !(o is OutOfFuel) {
            lemma_pipeline_preserves_behaviour(p, big@, code@, s0, fuel as nat);
        }
        assert(agrees(c, m, p, s0, fuel as nat));
    }
    Ok((c, m))
}

} // verus!
