use vstd::prelude::*;
use crate::codegen::{act, displace, displacement, run_chain, run_chain_loop, Step};
use crate::parser::Instruction;
use crate::semantics::{
    adjust, read_cell, run_raw, run_raw_loop, shift, valid, wrap, write_cell, Outcome, RunError, State,
};

verus! {

broadcast use vstd::std_specs::vec::group_vec_axioms, vstd::seq::group_seq_axioms;

/// How a run ended.
#[derive(Debug, Clone, Copy, PartialEq, Eq, Structural)]
pub enum Completion {
    Finished,
    Failed(RunError),
    /// Some loop iterated more often than the fuel allowed.
    OutOfFuel,
}

/// The tape, the cursor, the input with how much of it was read, and the
/// output written so far.
#[derive(Debug)]
pub struct Machine {
    pub tape: Vec<u8>,
    pub cursor: usize,
    pub input: Vec<u8>,
    pub consumed: usize,
    pub output: Vec<u8>,
}

impl Machine {
    /// The machine as the semantics sees it.
    pub open spec fn state(&self) -> State {
        State {
            tape: self.tape@,
            cursor: self.cursor as int,
            input: self.input@.skip(self.consumed as int),
            output: self.output@,
        }
    }

    /// The cursor is on the tape and the read position within the input.
    pub open spec fn wf(&self) -> bool {
        self.cursor < self.tape@.len() && self.consumed <= self.input@.len()
    }

    /// A zeroed tape of `tape_len` cells, the cursor at `cursor`, no output
    /// yet.
    pub fn new(tape_len: usize, cursor: usize, input: Vec<u8>) -> (m: Machine)
        requires
            cursor < tape_len,
        ensures
            m.wf(),
            m.tape@ == Seq::new(tape_len as nat, |i: int| 0u8),
            m.cursor == cursor,
            m.input@ == input@,
            m.consumed == 0,
            m.output@.len() == 0,
    {
        let mut tape: Vec<u8> = Vec::new();
        let mut i: usize = 0;
        while i < tape_len
            invariant
                i <= tape_len,
                tape@ == Seq::new(i as nat, |j: int| 0u8),
            decreases tape_len - i,
        {
            tape.push(0);
            i = i + 1;
            proof {
                assert(tape@ =~= Seq::new(i as nat, |j: int| 0u8));
            }
        }
        Machine { tape, cursor, input, consumed: 0, output: Vec::new() }
    }

    /// Runs compiled code; each loop may iterate at most `fuel` times, each
    /// iteration giving its body one less.
    pub fn run(&mut self, code: &Vec<Step>, fuel: u64) -> (c: Completion)
        requires
            old(self).wf(),
        ensures
            final(self).wf(),
            ends_as(c, *final(self), run_chain(code@, old(self).state(), fuel as nat)),
    {
        run_steps(code, self, fuel)
    }
}

/// A completion and the machine it left agree with an outcome of the
/// semantics.
pub open spec fn ends_as(c: Completion, m: Machine, o: Outcome) -> bool {
    match o {
        Outcome::Done(s) => c == Completion::Finished && m.state() == s,
        Outcome::Fault(e, s) => c == Completion::Failed(e) && m.state() == s,
        Outcome::OutOfFuel => c == Completion::OutOfFuel,
    }
}

/// Moves the cursor by `k`; reports false, moving nothing, when that would
/// leave the tape.
fn displace_cursor(m: &mut Machine, k: i128) -> (ok: bool)
    requires
        old(m).wf(),
    ensures
        final(m).wf(),
        match displace(old(m).state(), k as int) {
            Outcome::Done(s1) => ok && final(m).state() == s1,
            _ => !ok && displace(old(m).state(), k as int) == Outcome::Fault(
                RunError::OutOfBounds,
                old(m).state(),
            ) && *final(m) == *old(m),
        },
{
    if k == 0 {
        return true;
    }
    let len = m.tape.len();
    if k > 0 {
        if k >= (len - m.cursor) as i128 {
            return false;
        }
        m.cursor = m.cursor + k as usize;
    } else {
        if k < -(m.cursor as i128) {
            return false;
        }
        m.cursor = m.cursor - (-k) as usize;
    }
    true
}

fn run_steps(code: &Vec<Step>, m: &mut Machine, fuel: u64) -> (c: Completion)
    requires
        old(m).wf(),
    ensures
        final(m).wf(),
        ends_as(c, *final(m), run_chain(code@, old(m).state(), fuel as nat)),
    decreases fuel, code@,
{
    let ghost whole = run_chain(code@, m.state(), fuel as nat);
    let ghost n = code@.len();
    let mut i: usize = 0;
    proof {
        assert(code@.subrange(0, n as int) == code@);
    }
    while i < code.len()
        invariant
            m.wf(),
            n == code@.len(),
            i <= n,
            whole == run_chain(code@, old(m).state(), fuel as nat),
            whole == run_chain(code@.subrange(i as int, n as int), m.state(), fuel as nat),
        decreases n - i,
    {
        let ghost c = code@.subrange(i as int, n as int);
        proof {
            assert(c[0] == code@[i as int]);
            assert(c.subrange(1, c.len() as int) == code@.subrange(i + 1, n as int));
        }
        let ghost s0 = m.state();
        let step = &code[i];
        let k = match step {
            Step::Shift(k) => *k,
            Step::Adjust(k, _) => *k,
            Step::Write(k) => *k,
            Step::Read(k) => *k,
            Step::Zero(k) => *k,
            Step::Loop(k, _) => *k,
        };
        proof {
            assert(displacement(c[0]) == k as int);
        }
        if !displace_cursor(m, k) {
            return Completion::Failed(RunError::OutOfBounds);
        }
        let ghost s1 = m.state();
        let p = m.cursor;
        match step {
            Step::Shift(_) => {},
            Step::Adjust(_, a) => {
                let sum: u16 = m.tape[p] as u16 + *a as u16;
                m.tape.set(p, (sum % 256) as u8);
                proof {
                    assert(m.state().tape == s1.tape.update(p as int, wrap(s1.tape[p as int] + *a)));
                }
            },
            Step::Write(_) => {
                let v = m.tape[p];
                m.output.push(v);
            },
            Step::Read(_) => {
                if m.consumed >= m.input.len() {
                    proof {
                        assert(act(c[0], s1, fuel as nat) == Outcome::Fault(RunError::InputExhausted, s1));
                    }
                    return Completion::Failed(RunError::InputExhausted);
                }
                let v = m.input[m.consumed];
                m.tape.set(p, v);
                m.consumed = m.consumed + 1;
                proof {
                    assert(m.state().input == s1.input.drop_first());
                }
            },
            Step::Zero(_) => {
                m.tape.set(p, 0);
            },
            Step::Loop(_, body) => {
                let r = run_loop(body, m, fuel);
                match r {
                    Completion::Finished => {},
                    _ => {
                        proof {
                            assert(ends_as(r, *m, act(c[0], s1, fuel as nat)));
                        }
                        return r;
                    },
                }
            },
        }
        proof {
            assert(act(c[0], s1, fuel as nat) == Outcome::Done(m.state()));
        }
        i = i + 1;
    }
    Completion::Finished
}

fn run_loop(body: &Vec<Step>, m: &mut Machine, fuel: u64) -> (c: Completion)
    requires
        old(m).wf(),
    ensures
        final(m).wf(),
        ends_as(c, *final(m), run_chain_loop(body@, old(m).state(), fuel as nat)),
    decreases fuel, body@,
{
    let ghost whole = run_chain_loop(body@, m.state(), fuel as nat);
    let mut f: u64 = fuel;
    loop
        invariant
            m.wf(),
            f <= fuel,
            whole == run_chain_loop(body@, old(m).state(), fuel as nat),
            whole == run_chain_loop(body@, m.state(), f as nat),
        decreases f,
    {
        if m.tape[m.cursor] == 0 {
            proof {
                assert(valid(m.state()));
                assert(whole == Outcome::Done(m.state()));
            }
            return Completion::Finished;
        }
        if f == 0 {
            return Completion::OutOfFuel;
        }
        f = f - 1;
        let ghost before = m.state();
        proof {
            assert(valid(before));
        }
        let r = run_steps(body, m, f);
        match r {
            Completion::Finished => {},
            _ => {
                return r;
            },
        }
    }
}

/// Moves the cursor one cell; reports false, moving nothing, at the end of
/// the tape.
fn step_cursor(m: &mut Machine, right: bool) -> (ok: bool)
    requires
        old(m).wf(),
    ensures
        final(m).wf(),
        match shift(old(m).state(), if right { 1 } else { -1 }) {
            Outcome::Done(s1) => ok && final(m).state() == s1,
            o => !ok && o == Outcome::Fault(RunError::OutOfBounds, old(m).state()) && *final(m)
                == *old(m),
        },
{
    if right {
        if m.cursor >= m.tape.len() - 1 {
            return false;
        }
        m.cursor = m.cursor + 1;
    } else {
        if m.cursor == 0 {
            return false;
        }
        m.cursor = m.cursor - 1;
    }
    true
}

/// Runs a program tree directly, one instruction at a time; each loop may
/// iterate at most `fuel` times, each iteration giving its body one less.
pub fn run(instructions: &Vec<Instruction>, m: &mut Machine, fuel: u64) -> (c: Completion)
    requires
        old(m).wf(),
    ensures
        final(m).wf(),
        ends_as(c, *final(m), run_raw(instructions@, old(m).state(), fuel as nat)),
    decreases fuel, instructions@,
{
    let ghost whole = run_raw(instructions@, m.state(), fuel as nat);
    let ghost n = instructions@.len();
    let mut i: usize = 0;
    proof {
        assert(instructions@.subrange(0, n as int) == instructions@);
    }
    while i < instructions.len()
        invariant
            m.wf(),
            n == instructions@.len(),
            i <= n,
            whole == run_raw(instructions@, old(m).state(), fuel as nat),
            whole == run_raw(instructions@.subrange(i as int, n as int), m.state(), fuel as nat),
        decreases n - i,
    {
        let ghost c = instructions@.subrange(i as int, n as int);
        proof {
            assert(c[0] == instructions@[i as int]);
            assert(c.subrange(1, c.len() as int) == instructions@.subrange(i + 1, n as int));
        }
        let ghost s0 = m.state();
        let p = m.cursor;
        match &instructions[i] {
            Instruction::IncrementPointer => {
                if !step_cursor(m, true) {
                    return Completion::Failed(RunError::OutOfBounds);
                }
            },
            Instruction::DecrementPointer => {
                if !step_cursor(m, false) {
                    return Completion::Failed(RunError::OutOfBounds);
                }
            },
            Instruction::Increment => {
                let v = m.tape[p];
                m.tape.set(p, if v == 255 { 0 } else { v + 1 });
                proof {
                    assert(m.state().tape == s0.tape.update(p as int, wrap(v + 1)));
                }
            },
            Instruction::Decrement => {
                let v = m.tape[p];
                m.tape.set(p, if v == 0 { 255 } else { v - 1 });
                proof {
                    assert(m.state().tape == s0.tape.update(p as int, wrap(v - 1)));
                }
            },
            Instruction::Write => {
                let v = m.tape[p];
                m.output.push(v);
            },
            Instruction::Read => {
                if m.consumed >= m.input.len() {
                    return Completion::Failed(RunError::InputExhausted);
                }
                let v = m.input[m.consumed];
                m.tape.set(p, v);
                m.consumed = m.consumed + 1;
                proof {
                    assert(m.state().input == s0.input.drop_first());
                }
            },
            Instruction::Loop(body) => {
                let r = run_tree_loop(body, m, fuel);
                match r {
                    Completion::Finished => {},
                    _ => {
                        return r;
                    },
                }
            },
        }
        i = i + 1;
    }
    Completion::Finished
}

fn run_tree_loop(body: &Vec<Instruction>, m: &mut Machine, fuel: u64) -> (c: Completion)
    requires
        old(m).wf(),
    ensures
        final(m).wf(),
        ends_as(c, *final(m), run_raw_loop(body@, old(m).state(), fuel as nat)),
    decreases fuel, body@,
{
    let ghost whole = run_raw_loop(body@, m.state(), fuel as nat);
    let mut f: u64 = fuel;
    loop
        invariant
            m.wf(),
            f <= fuel,
            whole == run_raw_loop(body@, old(m).state(), fuel as nat),
            whole == run_raw_loop(body@, m.state(), f as nat),
        decreases f,
    {
        if m.tape[m.cursor] == 0 {
            proof {
                assert(valid(m.state()));
            }
            return Completion::Finished;
        }
        if f == 0 {
            return Completion::OutOfFuel;
        }
        f = f - 1;
        proof {
            assert(valid(m.state()));
        }
        let r = run(body, m, f);
        match r {
            Completion::Finished => {},
            _ => {
                return r;
            },
        }
    }
}

} // verus!
