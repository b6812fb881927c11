use vstd::prelude::*;
use crate::parser::Instruction;

verus! {

broadcast use vstd::std_specs::vec::group_vec_axioms, vstd::seq::group_seq_axioms;

/// A coarser instruction: runs of cursor moves and of cell changes are each
/// folded into one signed delta.
#[derive(Debug, PartialEq, Eq)]
pub enum BigInsn {
    Move(i128),
    Adj(i128),
    Write,
    Read,
    Loop(Vec<BigInsn>),
}

/// The nodes that flush a pending cursor delta and a pending cell delta:
/// the move first, then the adjustment, each only when non-zero.
pub open spec fn flush(dp: int, d: int) -> Seq<BigInsn> {
    let m = if dp != 0 {
        seq![BigInsn::Move(dp as i128)]
    } else {
        Seq::empty()
    };
    if d != 0 {
        m.push(BigInsn::Adj(d as i128))
    } else {
        m
    }
}

/// `out` begins with `f`.
pub open spec fn starts_with(out: Seq<BigInsn>, f: Seq<BigInsn>) -> bool {
    out.len() >= f.len() && out.take(f.len() as int) == f
}

/// `out` is what the optimizer emits for `p` when it starts with a pending
/// cursor delta `dp` and a pending cell delta `d`.
pub open spec fn opt_rel(p: Seq<Instruction>, dp: int, d: int, out: Seq<BigInsn>) -> bool
    decreases p,
{
    if p.len() == 0 {
        out == flush(dp, d)
    } else {
        let rest = p.subrange(1, p.len() as int);
        match p[0] {
            Instruction::IncrementPointer => if d != 0 {
                let f = flush(dp, d);
                starts_with(out, f) && opt_rel(rest, 1, 0, out.skip(f.len() as int))
            } else {
                opt_rel(rest, dp + 1, 0, out)
            },
            Instruction::DecrementPointer => if d != 0 {
                let f = flush(dp, d);
                starts_with(out, f) && opt_rel(rest, -1, 0, out.skip(f.len() as int))
            } else {
                opt_rel(rest, dp - 1, 0, out)
            },
            Instruction::Increment => opt_rel(rest, dp, d + 1, out),
            Instruction::Decrement => opt_rel(rest, dp, d - 1, out),
            Instruction::Write => {
                let f = flush(dp, d).push(BigInsn::Write);
                starts_with(out, f) && opt_rel(rest, 0, 0, out.skip(f.len() as int))
            },
            Instruction::Read => {
                let f = flush(dp, d).push(BigInsn::Read);
                starts_with(out, f) && opt_rel(rest, 0, 0, out.skip(f.len() as int))
            },
            Instruction::Loop(body) => {
                let f = flush(dp, d);
                let n = f.len() as int;
                &&& out.len() > n
                &&& out.take(n) == f
                &&& out[n] is Loop
                &&& opt_rel(body@, 0, 0, out[n]->Loop_0@)
                &&& opt_rel(rest, 0, 0, out.skip(n + 1))
            },
        }
    }
}

/// `out` is the optimized form of program `p`.
pub open spec fn optimized(p: Seq<Instruction>, out: Seq<BigInsn>) -> bool {
    opt_rel(p, 0, 0, out)
}

/// Appends the pending cursor delta, then the pending cell delta (each only
/// when non-zero), and clears both.
pub fn emit(bigcode: &mut Vec<BigInsn>, deltap: &mut i128, delta: &mut i128)
    ensures
        final(bigcode)@ == old(bigcode)@ + flush(*old(deltap) as int, *old(delta) as int),
        *final(deltap) == 0,
        *final(delta) == 0,
{
    if *deltap != 0 {
        bigcode.push(BigInsn::Move(*deltap));
        *deltap = 0;
    }
    if *delta != 0 {
        bigcode.push(BigInsn::Adj(*delta));
        *delta = 0;
    }
}

/// Flushes both pending deltas, but only when a cell delta is pending.
pub fn maybe_emit(bigcode: &mut Vec<BigInsn>, deltap: &mut i128, delta: &mut i128)
    ensures
        *old(delta) != 0 ==> {
            &&& final(bigcode)@ == old(bigcode)@ + flush(*old(deltap) as int, *old(delta) as int)
            &&& *final(deltap) == 0
            &&& *final(delta) == 0
        },
        *old(delta) == 0 ==> {
            &&& final(bigcode)@ == old(bigcode)@
            &&& *final(deltap) == *old(deltap)
            &&& *final(delta) == 0
        },
{
    if *delta != 0 {
        emit(bigcode, deltap, delta);
    }
}

/// Rewrites a program into coarser instructions, folding runs of moves and
/// runs of cell changes into single signed deltas.
pub fn raise_abstraction(instructions: &[Instruction]) -> (r: Vec<BigInsn>)
    ensures
        optimized(instructions@, r@),
    decreases instructions@,
{
    let ghost p = instructions@;
    let mut deltap: i128 = 0;
    let mut delta: i128 = 0;
    let mut bigcode: Vec<BigInsn> = Vec::new();
    let mut i: usize = 0;
    proof {
        assert(p.subrange(0, p.len() as int) == p);
        assert forall|out: Seq<BigInsn>| #[trigger]
            opt_rel(p.subrange(0, p.len() as int), 0, 0, out) implies opt_rel(
            p,
            0,
            0,
            bigcode@ + out,
        ) by {
            assert(bigcode@ + out == out);
        }
    }
    while i < instructions.len()
        invariant
            p == instructions@,
            i <= p.len(),
            -(i as int) <= deltap <= i,
            -(i as int) <= delta <= i,
            forall|out: Seq<BigInsn>| #[trigger]
                opt_rel(p.subrange(i as int, p.len() as int), deltap as int, delta as int, out)
                    ==> opt_rel(p, 0, 0, bigcode@ + out),
        decreases p.len() - i,
    {
        let ghost dp0 = deltap as int;
        let ghost d0 = delta as int;
        let ghost code0 = bigcode@;
        let ghost here = p.subrange(i as int, p.len() as int);
        let ghost next = p.subrange(i + 1, p.len() as int);
        proof {
            assert(here.subrange(1, here.len() as int) == next);
            assert(here[0] == p[i as int]);
        }
        let insn = &instructions[i];
        match insn {
            Instruction::IncrementPointer => {
                maybe_emit(&mut bigcode, &mut deltap, &mut delta);
                deltap = deltap + 1;
            },
            Instruction::DecrementPointer => {
                maybe_emit(&mut bigcode, &mut deltap, &mut delta);
                deltap = deltap - 1;
            },
            Instruction::Increment => {
                delta = delta + 1;
            },
            Instruction::Decrement => {
                delta = delta - 1;
            },
            Instruction::Write => {
                emit(&mut bigcode, &mut deltap, &mut delta);
                bigcode.push(BigInsn::Write);
            },
            Instruction::Read => {
                emit(&mut bigcode, &mut deltap, &mut delta);
                bigcode.push(BigInsn::Read);
            },
            Instruction::Loop(body) => {
                emit(&mut bigcode, &mut deltap, &mut delta);
                let inner = raise_abstraction(body.as_slice());
                bigcode.push(BigInsn::Loop(inner));
            },
        }
        proof {
            assert forall|out: Seq<BigInsn>| #[trigger]
                opt_rel(next, deltap as int, delta as int, out) implies opt_rel(
                p,
                0,
                0,
                bigcode@ + out,
            ) by {
                let emitted = bigcode@.skip(code0.len() as int);
                assert(bigcode@ == code0 + emitted);
                let whole = emitted + out;
                assert((emitted + out).take(emitted.len() as int) == emitted);
                assert((emitted + out).skip(emitted.len() as int) == out);
                assert(code0 + whole == bigcode@ + out);
                match p[i as int] {
                    Instruction::Loop(body) => {
                        let n = flush(dp0, d0).len() as int;
                        assert(whole.take(n) == flush(dp0, d0));
                        assert(whole.skip(n + 1) == out);
                    },
                    Instruction::IncrementPointer => {
                        if d0 != 0 {
                            assert(emitted == flush(dp0, d0));
                        } else {
                            assert(emitted.len() == 0);
                            assert(whole == out);
                        }
                    },
                    Instruction::DecrementPointer => {
                        if d0 != 0 {
                            assert(emitted == flush(dp0, d0));
                        } else {
                            assert(emitted.len() == 0);
                            assert(whole == out);
                        }
                    },
                    Instruction::Increment => {
                        assert(whole == out);
                    },
                    Instruction::Decrement => {
                        assert(whole == out);
                    },
                    Instruction::Write => {
                        assert(emitted == flush(dp0, d0).push(BigInsn::Write));
                    },
                    Instruction::Read => {
                        assert(emitted == flush(dp0, d0).push(BigInsn::Read));
                    },
                }
                assert(opt_rel(here, dp0, d0, whole));
            }
        }
        i = i + 1;
    }
    let ghost code0 = bigcode@;
    proof {
        let rest = p.subrange(i as int, p.len() as int);
        assert(rest.len() == 0);
        assert(opt_rel(rest, deltap as int, delta as int, flush(deltap as int, delta as int)));
    }
    emit(&mut bigcode, &mut deltap, &mut delta);
    bigcode
}

} // verus!
