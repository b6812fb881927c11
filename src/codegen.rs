use vstd::prelude::*;
use crate::optimizer::BigInsn;
use vstd::arithmetic::div_mod::{lemma_add_mod_noop_right, lemma_small_mod};
use crate::semantics::{
    adjust, read_cell, run_big, run_big_loop, shift, valid, wrap, write_cell, Outcome, State,
};

verus! {

broadcast use vstd::std_specs::vec::group_vec_axioms, vstd::seq::group_seq_axioms;

/// One unit of compiled code. Each first moves the cursor by the displacement
/// it carries (the folded moves that came before it), then acts.
#[derive(Debug, PartialEq, Eq)]
pub enum Step {
    /// Only moves the cursor.
    Shift(i128),
    /// Adds the amount to the cell, modulo 256.
    Adjust(i128, u8),
    Write(i128),
    Read(i128),
    /// Sets the cell to zero: the compiled form of a loop whose body is a
    /// single decrement.
    Zero(i128),
    /// Runs the body while the cell is non-zero.
    Loop(i128, Vec<Step>),
}

/// Moves the cursor by `k`; no displacement is no move at all.
pub open spec fn displace(s: State, k: int) -> Outcome {
    if k == 0 {
        Outcome::Done(s)
    } else {
        shift(s, k)
    }
}

/// Sets the current cell to zero.
pub open spec fn clear(s: State) -> Outcome {
    if valid(s) {
        Outcome::Done(State { tape: s.tape.update(s.cursor, 0), ..s })
    } else {
        Outcome::Fault(crate::semantics::RunError::OutOfBounds, s)
    }
}

/// What a step does after its displacement.
pub open spec fn act(st: Step, s: State, fuel: nat) -> Outcome
    decreases fuel, st,
{
    match st {
        Step::Shift(_) => Outcome::Done(s),
        Step::Adjust(_, a) => adjust(s, a as int),
        Step::Write(_) => write_cell(s),
        Step::Read(_) => read_cell(s),
        Step::Zero(_) => clear(s),
        Step::Loop(_, body) => run_chain_loop(body@, s, fuel),
    }
}

/// The displacement a step carries.
pub open spec fn displacement(st: Step) -> int {
    match st {
        Step::Shift(k) => k as int,
        Step::Adjust(k, _) => k as int,
        Step::Write(k) => k as int,
        Step::Read(k) => k as int,
        Step::Zero(k) => k as int,
        Step::Loop(k, _) => k as int,
    }
}

/// Runs compiled code, with the same fuel convention as the program trees.
pub open spec fn run_chain(c: Seq<Step>, s: State, fuel: nat) -> Outcome
    decreases fuel, c,
{
    if c.len() == 0 {
        Outcome::Done(s)
    } else {
        match displace(s, displacement(c[0])) {
            Outcome::Done(s1) => match act(c[0], s1, fuel) {
                Outcome::Done(s2) => run_chain(c.subrange(1, c.len() as int), s2, fuel),
                other => other,
            },
            other => other,
        }
    }
}

/// Runs a compiled loop from its test.
pub open spec fn run_chain_loop(body: Seq<Step>, s: State, fuel: nat) -> Outcome
    decreases fuel, body,
{
    if !valid(s) {
        Outcome::Fault(crate::semantics::RunError::OutOfBounds, s)
    } else if s.tape[s.cursor] == 0 {
        Outcome::Done(s)
    } else if fuel == 0 {
        Outcome::OutOfFuel
    } else {
        match run_chain(body, s, (fuel - 1) as nat) {
            Outcome::Done(s2) => run_chain_loop(body, s2, (fuel - 1) as nat),
            other => other,
        }
    }
}

/// A loop body that is exactly one decrement of the cell.
pub open spec fn is_clear_loop(body: Seq<BigInsn>) -> bool {
    body.len() == 1 && (body[0] matches BigInsn::Adj(d) && d == -1)
}

/// `out` is the code generated for `p` when a displacement `k` is pending.
pub open spec fn comp_rel(p: Seq<BigInsn>, k: int, out: Seq<Step>) -> bool
    decreases p,
{
    if p.len() == 0 {
        out == if k != 0 {
            seq![Step::Shift(k as i128)]
        } else {
            Seq::empty()
        }
    } else {
        let rest = p.subrange(1, p.len() as int);
        match p[0] {
            BigInsn::Move(d) => if k != 0 {
                out.len() > 0 && out[0] == Step::Shift(k as i128) && comp_rel(
                    rest,
                    d as int,
                    out.skip(1),
                )
            } else {
                comp_rel(rest, d as int, out)
            },
            BigInsn::Adj(d) => out.len() > 0 && out[0] == Step::Adjust(k as i128, wrap(d as int))
                && comp_rel(rest, 0, out.skip(1)),
            BigInsn::Write => out.len() > 0 && out[0] == Step::Write(k as i128) && comp_rel(
                rest,
                0,
                out.skip(1),
            ),
            BigInsn::Read => out.len() > 0 && out[0] == Step::Read(k as i128) && comp_rel(
                rest,
                0,
                out.skip(1),
            ),
            BigInsn::Loop(body) => {
                &&& out.len() > 0
                &&& if is_clear_loop(body@) {
                    out[0] == Step::Zero(k as i128)
                } else {
                    &&& out[0] is Loop
                    &&& out[0]->Loop_0 == k as i128
                    &&& comp_rel(body@, 0, out[0]->Loop_1@)
                }
                &&& comp_rel(rest, 0, out.skip(1))
            },
        }
    }
}

/// `code` is the compiled form of `p`.
pub open spec fn compiled(p: Seq<BigInsn>, code: Seq<Step>) -> bool {
    comp_rel(p, 0, code)
}

/// The amount that adding `d` modulo 256 adds to a byte.
fn byte_amount(d: i128) -> (r: u8)
    ensures
        r == wrap(d as int),
{
    let m: i128 = d % 256;
    if m < 0 {
        (m + 256) as u8
    } else {
        m as u8
    }
}

/// Compiles an optimized program into steps, starting with a pending cursor
/// displacement `delta_p`. Moves are folded into the displacement of the next
/// step; a loop whose body is a single decrement becomes one `Zero` step.
pub fn compile(instructions: &[BigInsn], delta_p: i128) -> (code: Vec<Step>)
    ensures
        comp_rel(instructions@, delta_p as int, code@),
    decreases instructions@,
{
    let ghost p = instructions@;
    let mut pending: i128 = delta_p;
    let mut code: Vec<Step> = Vec::new();
    let mut i: usize = 0;
    proof {
        assert(p.subrange(0, p.len() as int) == p);
        assert forall|out: Seq<Step>| #[trigger]
            comp_rel(p.subrange(0, p.len() as int), delta_p as int, out) implies comp_rel(
            p,
            delta_p as int,
            code@ + out,
        ) by {
            assert(code@ + out == out);
        }
    }
    while i < instructions.len()
        invariant
            p == instructions@,
            i <= p.len(),
            forall|out: Seq<Step>| #[trigger]
                comp_rel(p.subrange(i as int, p.len() as int), pending as int, out) ==> comp_rel(
                    p,
                    delta_p as int,
                    code@ + out,
                ),
        decreases p.len() - i,
    {
        let ghost k0 = pending as int;
        let ghost code0 = code@;
        let ghost here = p.subrange(i as int, p.len() as int);
        let ghost next = p.subrange(i + 1, p.len() as int);
        proof {
            assert(here.subrange(1, here.len() as int) == next);
            assert(here[0] == p[i as int]);
        }
        match &instructions[i] {
            BigInsn::Move(d) => {
                if pending != 0 {
                    code.push(Step::Shift(pending));
                }
                pending = *d;
            },
            BigInsn::Adj(d) => {
                code.push(Step::Adjust(pending, byte_amount(*d)));
                pending = 0;
            },
            BigInsn::Write => {
                code.push(Step::Write(pending));
                pending = 0;
            },
            BigInsn::Read => {
                code.push(Step::Read(pending));
                pending = 0;
            },
            BigInsn::Loop(body) => {
                let clear_idiom = body.len() == 1 && match &body[0] {
                    BigInsn::Adj(d) => *d == -1,
                    _ => false,
                };
                if clear_idiom {
                    code.push(Step::Zero(pending));
                } else {
                    let inner = compile(body.as_slice(), 0);
                    code.push(Step::Loop(pending, inner));
                }
                pending = 0;
            },
        }
        proof {
            assert forall|out: Seq<Step>| #[trigger]
                comp_rel(next, pending as int, out) implies comp_rel(
                p,
                delta_p as int,
                code@ + out,
            ) by {
                let emitted = code@.skip(code0.len() as int);
                assert(code@ == code0 + emitted);
                let whole = emitted + out;
                assert(code0 + whole == code@ + out);
                if emitted.len() == 1 {
                    assert(whole[0] == code@[code0.len() as int]);
                    assert(whole.skip(1) == out);
                } else {
                    assert(whole == out);
                }
                assert(comp_rel(here, k0, whole));
            }
        }
        i = i + 1;
    }
    let ghost code0 = code@;
    if pending != 0 {
        code.push(Step::Shift(pending));
    }
    proof {
        let rest = p.subrange(i as int, p.len() as int);
        assert(rest.len() == 0);
        let tail = code@.skip(code0.len() as int);
        assert(code@ == code0 + tail);
        if pending != 0 {
            assert(tail =~= seq![Step::Shift(pending)]);
        } else {
            assert(tail =~= Seq::<Step>::empty());
        }
        assert(comp_rel(rest, pending as int, tail));
    }
    code
}

/// Running `p` after a pending displacement `k`.
pub open spec fn run_big_after(p: Seq<BigInsn>, s: State, k: int, fuel: nat) -> Outcome {
    match displace(s, k) {
        Outcome::Done(s1) => run_big(p, s1, fuel),
        other => other,
    }
}

proof fn lemma_adjust_wrapped(s: State, d: int)
    requires
        valid(s),
    ensures
        adjust(s, wrap(d) as int) == adjust(s, d),
{
    let v = s.tape[s.cursor];
    lemma_add_mod_noop_right(v as int, d, 256);
    assert(wrap(d) as int == d % 256);
}

/// A loop that only decrements its cell by one ends with the cell at zero,
/// whenever it ends within its fuel.
pub proof fn lemma_clear_loop(body: Seq<BigInsn>, s: State, fuel: nat)
    requires
        is_clear_loop(body),
        valid(s),
        !(run_big_loop(body, s, fuel) is OutOfFuel),
    ensures
        run_big_loop(body, s, fuel) == clear(s),
    decreases fuel,
{
    let v = s.tape[s.cursor];
    if v == 0 {
        assert(s.tape.update(s.cursor, 0) =~= s.tape);
    } else {
        let f1 = (fuel - 1) as nat;
        let s2 = State { tape: s.tape.update(s.cursor, wrap(v - 1)), ..s };
        assert(body.subrange(1, 1) =~= Seq::<BigInsn>::empty());
        reveal_with_fuel(run_big, 2);
        assert(run_big(body, s, f1) == Outcome::Done(s2));
        lemma_clear_loop(body, s2, f1);
        assert(s2.tape.update(s.cursor, 0) =~= s.tape.update(s.cursor, 0));
    }
}

proof fn lemma_big_done_valid(p: Seq<BigInsn>, s: State, fuel: nat)
    requires
        valid(s),
    ensures
        run_big(p, s, fuel) matches Outcome::Done(s2) ==> valid(s2),
    decreases fuel, p,
{
    if p.len() > 0 {
        let first = match p[0] {
            BigInsn::Move(d) => shift(s, d as int),
            BigInsn::Adj(d) => adjust(s, d as int),
            BigInsn::Write => write_cell(s),
            BigInsn::Read => read_cell(s),
            BigInsn::Loop(body) => run_big_loop(body@, s, fuel),
        };
        if let BigInsn::Loop(body) = p[0] {
            lemma_loop_done_valid(body@, s, fuel);
        }
        if let Outcome::Done(s2) = first {
            lemma_big_done_valid(p.subrange(1, p.len() as int), s2, fuel);
        }
    }
}

proof fn lemma_loop_done_valid(body: Seq<BigInsn>, s: State, fuel: nat)
    ensures
        run_big_loop(body, s, fuel) matches Outcome::Done(s2) ==> valid(s2),
    decreases fuel, body,
{
    if valid(s) && s.tape[s.cursor] != 0 && fuel > 0 {
        let f1 = (fuel - 1) as nat;
        if let Outcome::Done(s2) = run_big(body, s, f1) {
            lemma_loop_done_valid(body, s2, f1);
        }
    }
}

proof fn lemma_chain_seq(p: Seq<BigInsn>, k: int, out: Seq<Step>, s: State, fuel: nat)
    requires
        comp_rel(p, k, out),
        i128::MIN <= k <= i128::MAX,
        valid(s),
        !(run_big_after(p, s, k, fuel) is OutOfFuel),
    ensures
        run_chain(out, s, fuel) == run_big_after(p, s, k, fuel),
    decreases fuel, p,
{
    if p.len() == 0 {
        if k != 0 {
            assert(out.subrange(1, 1) =~= Seq::<Step>::empty());
            reveal_with_fuel(run_chain, 2);
        }
        return;
    }
    let rest = p.subrange(1, p.len() as int);
    let out2 = out.skip(1);
    if out.len() > 0 {
        assert(out.subrange(1, out.len() as int) == out2);
    }
    match displace(s, k) {
        Outcome::Done(s1) => {
            match p[0] {
                BigInsn::Move(d) => {
                    assert(State { cursor: s1.cursor + 0, ..s1 } == s1);
                    if k != 0 {
                        lemma_chain_seq(rest, d as int, out2, s1, fuel);
                        assert(displacement(out[0]) == k);
                        assert(act(out[0], s1, fuel) == Outcome::Done(s1));
                        assert(out.subrange(1, out.len() as int) == out2);
                    } else {
                        lemma_chain_seq(rest, d as int, out, s, fuel);
                    }
                },
                BigInsn::Adj(d) => {
                    lemma_adjust_wrapped(s1, d as int);
                    match adjust(s1, d as int) {
                        Outcome::Done(s2) => {
                            lemma_chain_seq(rest, 0, out2, s2, fuel);
                        },
                        _ => {},
                    }
                },
                BigInsn::Write => {
                    match write_cell(s1) {
                        Outcome::Done(s2) => {
                            lemma_chain_seq(rest, 0, out2, s2, fuel);
                        },
                        _ => {},
                    }
                },
                BigInsn::Read => {
                    match read_cell(s1) {
                        Outcome::Done(s2) => {
                            lemma_chain_seq(rest, 0, out2, s2, fuel);
                        },
                        _ => {},
                    }
                },
                BigInsn::Loop(body) => {
                    if is_clear_loop(body@) {
                        lemma_clear_loop(body@, s1, fuel);
                    } else {
                        lemma_chain_loop(body@, out[0]->Loop_1@, s1, fuel);
                    }
                    match run_big_loop(body@, s1, fuel) {
                        Outcome::Done(s2) => {
                            lemma_loop_done_valid(body@, s1, fuel);
                            lemma_chain_seq(rest, 0, out2, s2, fuel);
                        },
                        _ => {},
                    }
                },
            }
        },
        _ => {},
    }
}

proof fn lemma_chain_loop(body: Seq<BigInsn>, c: Seq<Step>, s: State, fuel: nat)
    requires
        comp_rel(body, 0, c),
        valid(s),
        !(run_big_loop(body, s, fuel) is OutOfFuel),
    ensures
        run_chain_loop(c, s, fuel) == run_big_loop(body, s, fuel),
    decreases fuel, body,
{
    if s.tape[s.cursor] != 0 && fuel > 0 {
        let f1 = (fuel - 1) as nat;
        lemma_chain_seq(body, 0, c, s, f1);
        match run_big(body, s, f1) {
            Outcome::Done(s2) => {
                lemma_big_done_valid(body, s, f1);
                lemma_chain_loop(body, c, s2, f1);
            },
            _ => {},
        }
    }
}

/// Compiled code runs exactly as the optimized program it was generated
/// from, from any state whose cursor is on the tape, whenever the optimized
/// program ends within its fuel. (The compiled form of a clearing loop needs
/// no fuel at all.)
pub proof fn lemma_compile_preserves_behaviour(p: Seq<BigInsn>, code: Seq<Step>, s: State, fuel: nat)
    requires
        compiled(p, code),
        valid(s),
        !(run_big(p, s, fuel) is OutOfFuel),
    ensures
        run_chain(code, s, fuel) == run_big(p, s, fuel),
{
    lemma_chain_seq(p, 0, code, s, fuel);
}

/// In compiled code too, a step whose displacement takes the cursor off the
/// tape is an out-of-bounds error that leaves the machine as it was.
pub proof fn lemma_compiled_leaving_tape_fails(st: Step, rest: Seq<Step>, s: State, fuel: nat)
    requires
        displacement(st) != 0,
        !(0 <= s.cursor + displacement(st) < s.tape.len()),
    ensures
        run_chain(seq![st] + rest, s, fuel) == Outcome::Fault(
            crate::semantics::RunError::OutOfBounds,
            s,
        ),
{
    assert((seq![st] + rest)[0] == st);
}

} // verus!
