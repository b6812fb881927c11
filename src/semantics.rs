use vstd::prelude::*;
use crate::optimizer::BigInsn;
use crate::parser::Instruction;

verus! {

broadcast use vstd::std_specs::vec::group_vec_axioms, vstd::seq::group_seq_axioms;

/// Why a run stopped early.
#[derive(Debug, Clone, Copy, PartialEq, Eq, Structural)]
pub enum RunError {
    /// The cursor was moved before the first cell or past the last one, or a
    /// cell was used while the cursor was outside the tape.
    OutOfBounds,
    /// A read found no more input.
    InputExhausted,
}

/// The machine as the semantics sees it: the tape, the cursor, the input not
/// yet read and the output written so far.
pub struct State {
    pub tape: Seq<u8>,
    pub cursor: int,
    pub input: Seq<u8>,
    pub output: Seq<u8>,
}

/// How a run ends: normally, on an error (with the state reached), or by
/// running out of loop iterations.
pub enum Outcome {
    Done(State),
    Fault(RunError, State),
    OutOfFuel,
}

pub open spec fn valid(s: State) -> bool {
    0 <= s.cursor < s.tape.len()
}

/// Cell arithmetic wraps modulo 256.
pub open spec fn wrap(v: int) -> u8 {
    (v % 256) as u8
}

/// Moves the cursor by `d`; leaving the tape is an error.
pub open spec fn shift(s: State, d: int) -> Outcome {
    let c = s.cursor + d;
    if 0 <= c < s.tape.len() {
        Outcome::Done(State { cursor: c, ..s })
    } else {
        Outcome::Fault(RunError::OutOfBounds, s)
    }
}

/// Adds `d` to the current cell, modulo 256.
pub open spec fn adjust(s: State, d: int) -> Outcome {
    if valid(s) {
        Outcome::Done(State { tape: s.tape.update(s.cursor, wrap(s.tape[s.cursor] + d)), ..s })
    } else {
        Outcome::Fault(RunError::OutOfBounds, s)
    }
}

/// Appends the current cell to the output.
pub open spec fn write_cell(s: State) -> Outcome {
    if valid(s) {
        Outcome::Done(State { output: s.output.push(s.tape[s.cursor]), ..s })
    } else {
        Outcome::Fault(RunError::OutOfBounds, s)
    }
}

/// Stores the next input byte in the current cell.
pub open spec fn read_cell(s: State) -> Outcome {
    if !valid(s) {
        Outcome::Fault(RunError::OutOfBounds, s)
    } else if s.input.len() == 0 {
        Outcome::Fault(RunError::InputExhausted, s)
    } else {
        Outcome::Done(
            State { tape: s.tape.update(s.cursor, s.input[0]), input: s.input.drop_first(), ..s },
        )
    }
}

/// Runs a program tree; each loop may iterate at most `fuel` times, and each
/// iteration gives its body one less.
pub open spec fn run_raw(p: Seq<Instruction>, s: State, fuel: nat) -> Outcome
    decreases fuel, p,
{
    if p.len() == 0 {
        Outcome::Done(s)
    } else {
        let first = match p[0] {
            Instruction::IncrementPointer => shift(s, 1),
            Instruction::DecrementPointer => shift(s, -1),
            Instruction::Increment => adjust(s, 1),
            Instruction::Decrement => adjust(s, -1),
            Instruction::Write => write_cell(s),
            Instruction::Read => read_cell(s),
            Instruction::Loop(body) => run_raw_loop(body@, s, fuel),
        };
        match first {
            Outcome::Done(s2) => run_raw(p.subrange(1, p.len() as int), s2, fuel),
            other => other,
        }
    }
}

/// Runs a loop of the program tree from its test.
pub open spec fn run_raw_loop(body: Seq<Instruction>, s: State, fuel: nat) -> Outcome
    decreases fuel, body,
{
    if !valid(s) {
        Outcome::Fault(RunError::OutOfBounds, s)
    } else if s.tape[s.cursor] == 0 {
        Outcome::Done(s)
    } else if fuel == 0 {
        Outcome::OutOfFuel
    } else {
        match run_raw(body, s, (fuel - 1) as nat) {
            Outcome::Done(s2) => run_raw_loop(body, s2, (fuel - 1) as nat),
            other => other,
        }
    }
}

/// Runs an optimized program, with the same fuel convention as `run_raw`.
pub open spec fn run_big(p: Seq<BigInsn>, s: State, fuel: nat) -> Outcome
    decreases fuel, p,
{
    if p.len() == 0 {
        Outcome::Done(s)
    } else {
        let first = match p[0] {
            BigInsn::Move(d) => shift(s, d as int),
            BigInsn::Adj(d) => adjust(s, d as int),
            BigInsn::Write => write_cell(s),
            BigInsn::Read => read_cell(s),
            BigInsn::Loop(body) => run_big_loop(body@, s, fuel),
        };
        match first {
            Outcome::Done(s2) => run_big(p.subrange(1, p.len() as int), s2, fuel),
            other => other,
        }
    }
}

/// Runs a loop of an optimized program from its test.
pub open spec fn run_big_loop(body: Seq<BigInsn>, s: State, fuel: nat) -> Outcome
    decreases fuel, body,
{
    if !valid(s) {
        Outcome::Fault(RunError::OutOfBounds, s)
    } else if s.tape[s.cursor] == 0 {
        Outcome::Done(s)
    } else if fuel == 0 {
        Outcome::OutOfFuel
    } else {
        match run_big(body, s, (fuel - 1) as nat) {
            Outcome::Done(s2) => run_big_loop(body, s2, (fuel - 1) as nat),
            other => other,
        }
    }
}

/// The outcome is an out-of-bounds error.
pub open spec fn is_out_of_bounds(o: Outcome) -> bool {
    o matches Outcome::Fault(RunError::OutOfBounds, _)
}

/// Driving the cursor before the first cell or past the last one is an
/// out-of-bounds error that leaves the machine as it was, whatever the
/// program would have done next.
pub proof fn lemma_leaving_tape_fails(rest: Seq<Instruction>, s: State, fuel: nat)
    requires
        valid(s),
    ensures
        s.cursor == 0 ==> run_raw(seq![Instruction::DecrementPointer] + rest, s, fuel)
            == Outcome::Fault(RunError::OutOfBounds, s),
        s.cursor == s.tape.len() - 1 ==> run_raw(seq![Instruction::IncrementPointer] + rest, s, fuel)
            == Outcome::Fault(RunError::OutOfBounds, s),
{
    assert((seq![Instruction::DecrementPointer] + rest)[0] == Instruction::DecrementPointer);
    assert((seq![Instruction::IncrementPointer] + rest)[0] == Instruction::IncrementPointer);
}

} // verus!
