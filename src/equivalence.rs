use vstd::prelude::*;
use vstd::arithmetic::div_mod::{lemma_add_mod_noop_right, lemma_small_mod};
use crate::optimizer::{BigInsn, flush, opt_rel, optimized};
use crate::parser::Instruction;
use crate::semantics::{
    adjust, is_out_of_bounds, read_cell, run_big, run_big_loop, run_raw, run_raw_loop, shift, valid, wrap,
    write_cell, Outcome, State,
};

verus! {

broadcast use vstd::std_specs::vec::group_vec_axioms, vstd::seq::group_seq_axioms;

/// The effect of a pending cursor delta followed by a pending cell delta.
pub open spec fn pending(s: State, dp: int, d: int) -> Outcome {
    let moved = if dp != 0 {
        shift(s, dp)
    } else {
        Outcome::Done(s)
    };
    match moved {
        Outcome::Done(s1) => if d != 0 {
            adjust(s1, d)
        } else {
            Outcome::Done(s1)
        },
        other => other,
    }
}

/// A delta stays within `i128` however the `n` instructions left change it.
pub open spec fn fits(n: nat, delta: int) -> bool {
    i128::MIN + n < delta < i128::MAX - n
}

/// Running `a + b` runs `a`, then `b` from where `a` stopped normally.
pub proof fn lemma_run_big_concat(a: Seq<BigInsn>, b: Seq<BigInsn>, s: State, fuel: nat)
    ensures
        run_big(a + b, s, fuel) == match run_big(a, s, fuel) {
            Outcome::Done(s2) => run_big(b, s2, fuel),
            other => other,
        },
    decreases a.len(),
{
    if a.len() == 0 {
        assert(a + b == b);
    } else {
        assert((a + b)[0] == a[0]);
        assert((a + b).subrange(1, (a + b).len() as int) == a.subrange(1, a.len() as int) + b);
        let first = match a[0] {
            BigInsn::Move(d) => shift(s, d as int),
            BigInsn::Adj(d) => adjust(s, d as int),
            BigInsn::Write => write_cell(s),
            BigInsn::Read => read_cell(s),
            BigInsn::Loop(body) => run_big_loop(body@, s, fuel),
        };
        match first {
            Outcome::Done(s2) => {
                lemma_run_big_concat(a.subrange(1, a.len() as int), b, s2, fuel);
            },
            _ => {},
        }
    }
}

proof fn lemma_run_flush(dp: int, d: int, s: State, fuel: nat)
    requires
        i128::MIN <= dp <= i128::MAX,
        i128::MIN <= d <= i128::MAX,
    ensures
        run_big(flush(dp, d), s, fuel) == pending(s, dp, d),
{
    let f = flush(dp, d);
    reveal_with_fuel(run_big, 3);
    if dp != 0 {
        assert(f[0] == BigInsn::Move(dp as i128));
        let r = f.subrange(1, f.len() as int);
        if d != 0 {
            assert(r == seq![BigInsn::Adj(d as i128)]);
            assert(r.subrange(1, 1) =~= Seq::<BigInsn>::empty());
        } else {
            assert(r =~= Seq::<BigInsn>::empty());
        }
    } else if d != 0 {
        assert(f[0] == BigInsn::Adj(d as i128));
        assert(f.subrange(1, f.len() as int) =~= Seq::<BigInsn>::empty());
    }
}

proof fn lemma_wrap_compose(v: u8, d: int, e: int)
    ensures
        wrap(wrap(v + d) + e) == wrap(v + d + e),
        wrap(v as int) == v,
{
    lemma_add_mod_noop_right(e, v + d, 256);
    lemma_small_mod(v as nat, 256);
}

/// Two cell changes in a row are one change by their sum.
proof fn lemma_adjust_compose(s: State, d: int, e: int)
    requires
        valid(s),
    ensures
        adjust(s, d) matches Outcome::Done(s1) && adjust(s1, e) == adjust(s, d + e),
        adjust(s, 0) == Outcome::Done(s),
{
    let v = s.tape[s.cursor];
    lemma_wrap_compose(v, d, e);
    lemma_wrap_compose(v, 0, 0);
    let t1 = s.tape.update(s.cursor, wrap(v + d));
    assert(t1.update(s.cursor, wrap(t1[s.cursor] + e)) =~= s.tape.update(
        s.cursor,
        wrap(v + d + e),
    ));
    assert(s.tape.update(s.cursor, wrap(v + 0)) =~= s.tape);
}

proof fn lemma_opt_seq(
    p: Seq<Instruction>,
    dp: int,
    d: int,
    out: Seq<BigInsn>,
    s: State,
    s1: State,
    fuel: nat,
)
    requires
        opt_rel(p, dp, d, out),
        fits(p.len(), dp),
        fits(p.len(), d),
        pending(s, dp, d) == Outcome::Done(s1),
        !is_out_of_bounds(run_raw(p, s1, fuel)),
    ensures
        run_big(out, s, fuel) == run_raw(p, s1, fuel),
    decreases fuel, p,
{
    lemma_run_flush(dp, d, s, fuel);
    if p.len() == 0 {
        return;
    }
    let rest = p.subrange(1, p.len() as int);
    let f = flush(dp, d);
    let n = f.len() as int;
    match p[0] {
        Instruction::IncrementPointer => {
            lemma_opt_move(p, dp, d, out, s, s1, fuel, 1);
        },
        Instruction::DecrementPointer => {
            lemma_opt_move(p, dp, d, out, s, s1, fuel, -1);
        },
        Instruction::Increment => {
            lemma_opt_adjust(p, dp, d, out, s, s1, fuel, 1);
        },
        Instruction::Decrement => {
            lemma_opt_adjust(p, dp, d, out, s, s1, fuel, -1);
        },
        Instruction::Write => {
            let x = out.skip(n);
            let out2 = out.skip(n + 1);
            assert(out.take(n + 1) == f.push(BigInsn::Write));
            assert(out.take(n) =~= f);
            assert(out =~= f + x);
            lemma_run_big_concat(f, x, s, fuel);
            assert(out[n] == out.take(n + 1)[n]);
            assert(x[0] == BigInsn::Write);
            assert(x.subrange(1, x.len() as int) == out2);
            match write_cell(s1) {
                Outcome::Done(s2) => {
                    lemma_opt_seq(rest, 0, 0, out2, s2, s2, fuel);
                },
                _ => {},
            }
        },
        Instruction::Read => {
            let x = out.skip(n);
            let out2 = out.skip(n + 1);
            assert(out.take(n + 1) == f.push(BigInsn::Read));
            assert(out.take(n) =~= f);
            assert(out =~= f + x);
            lemma_run_big_concat(f, x, s, fuel);
            assert(out[n] == out.take(n + 1)[n]);
            assert(x[0] == BigInsn::Read);
            assert(x.subrange(1, x.len() as int) == out2);
            match read_cell(s1) {
                Outcome::Done(s2) => {
                    lemma_opt_seq(rest, 0, 0, out2, s2, s2, fuel);
                },
                _ => {},
            }
        },
        Instruction::Loop(body) => {
            let v = out[n]->Loop_0;
            let out2 = out.skip(n + 1);
            let x = out.skip(n);
            assert(out == f + x);
            lemma_run_big_concat(f, x, s, fuel);
            assert(x[0] == out[n]);
            assert(x.subrange(1, x.len() as int) == out2);
            let r = run_raw_loop(body@, s1, fuel);
            assert(body.len() == body@.len());
            lemma_opt_loop(body@, v@, s1, fuel);
            match r {
                Outcome::Done(s2) => {
                    lemma_opt_seq(rest, 0, 0, out2, s2, s2, fuel);
                },
                _ => {},
            }
        },
    }
}

proof fn lemma_opt_move(
    p: Seq<Instruction>,
    dp: int,
    d: int,
    out: Seq<BigInsn>,
    s: State,
    s1: State,
    fuel: nat,
    step: int,
)
    requires
        p.len() > 0,
        step == 1 || step == -1,
        step == 1 ==> p[0] is IncrementPointer,
        step == -1 ==> p[0] is DecrementPointer,
        opt_rel(p, dp, d, out),
        fits(p.len(), dp),
        fits(p.len(), d),
        pending(s, dp, d) == Outcome::Done(s1),
        !is_out_of_bounds(run_raw(p, s1, fuel)),
    ensures
        run_big(out, s, fuel) == run_raw(p, s1, fuel),
    decreases fuel, p, 0int,
{
    let rest = p.subrange(1, p.len() as int);
    let f = flush(dp, d);
    let n = f.len() as int;
    lemma_run_flush(dp, d, s, fuel);
    let s2 = shift(s1, step)->Done_0;
    if d != 0 {
        let out2 = out.skip(n);
        assert(out == f + out2);
        lemma_run_big_concat(f, out2, s, fuel);
        lemma_opt_seq(rest, step, 0, out2, s1, s2, fuel);
    } else {
        lemma_opt_seq(rest, dp + step, 0, out, s, s2, fuel);
    }
}

proof fn lemma_opt_adjust(
    p: Seq<Instruction>,
    dp: int,
    d: int,
    out: Seq<BigInsn>,
    s: State,
    s1: State,
    fuel: nat,
    step: int,
)
    requires
        p.len() > 0,
        step == 1 || step == -1,
        step == 1 ==> p[0] is Increment,
        step == -1 ==> p[0] is Decrement,
        opt_rel(p, dp, d, out),
        fits(p.len(), dp),
        fits(p.len(), d),
        pending(s, dp, d) == Outcome::Done(s1),
        !is_out_of_bounds(run_raw(p, s1, fuel)),
    ensures
        run_big(out, s, fuel) == run_raw(p, s1, fuel),
    decreases fuel, p, 0int,
{
    let rest = p.subrange(1, p.len() as int);
    let s2 = adjust(s1, step)->Done_0;
    let sm = if dp != 0 {
        shift(s, dp)->Done_0
    } else {
        s
    };
    assert(valid(sm));
    lemma_adjust_compose(sm, d, step);
    lemma_adjust_compose(sm, 0, step);
    lemma_opt_seq(rest, dp, d + step, out, s, s2, fuel);
}

proof fn lemma_opt_loop(body: Seq<Instruction>, v: Seq<BigInsn>, s: State, fuel: nat)
    requires
        opt_rel(body, 0, 0, v),
        body.len() <= usize::MAX,
        !is_out_of_bounds(run_raw_loop(body, s, fuel)),
    ensures
        run_big_loop(v, s, fuel) == run_raw_loop(body, s, fuel),
    decreases fuel, body,
{
    if valid(s) && s.tape[s.cursor] != 0 && fuel > 0 {
        let f1 = (fuel - 1) as nat;
        lemma_opt_seq(body, 0, 0, v, s, s, f1);
        match run_raw(body, s, f1) {
            Outcome::Done(s2) => {
                lemma_opt_loop(body, v, s2, f1);
            },
            _ => {},
        }
    }
}

/// The optimizer does not change what a program does: from any state and with
/// any fuel, the optimized program ends exactly as the unoptimized one does
/// (the same output, tape, cursor and remaining input, or the same error at
/// the same state, or both run out of fuel), provided the unoptimized run
/// never leaves the tape. A program that leaves the tape may fail later or not at all once
/// optimized, since folded moves and cancelled cell changes are not checked
/// one by one.
pub proof fn lemma_optimizer_preserves_behaviour(
    p: Seq<Instruction>,
    out: Seq<BigInsn>,
    s: State,
    fuel: nat,
)
    requires
        optimized(p, out),
        p.len() <= usize::MAX,
        !is_out_of_bounds(run_raw(p, s, fuel)),
    ensures
        run_big(out, s, fuel) == run_raw(p, s, fuel),
{
    lemma_opt_seq(p, 0, 0, out, s, s, fuel);
}

} // verus!
