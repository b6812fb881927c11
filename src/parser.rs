use vstd::prelude::*;
use vstd::slice::{slice_subrange, slice_to_vec};
use crate::lexer::OpCode;

verus! {

broadcast use vstd::std_specs::vec::group_vec_axioms, vstd::seq::group_seq_axioms;

/// A node of the program tree; a loop owns its body.
#[derive(Debug, PartialEq, Eq)]
pub enum Instruction {
    IncrementPointer,
    DecrementPointer,
    Increment,
    Decrement,
    Write,
    Read,
    Loop(Vec<Instruction>),
}

/// Why a symbol sequence is not a well-nested program.
#[derive(Debug, Clone, Copy, PartialEq, Eq, Structural)]
pub enum ParseError {
    /// A loop end with no open loop; the position of that symbol.
    UnmatchedLoopEnd(usize),
    /// A loop never closed; the position where the outermost such loop begins.
    UnmatchedLoopBegin(usize),
}

/// The symbols an instruction is written with.
pub open spec fn unparse_insn(i: Instruction) -> Seq<OpCode>
    decreases i,
{
    match i {
        Instruction::IncrementPointer => seq![OpCode::IncrementPointer],
        Instruction::DecrementPointer => seq![OpCode::DecrementPointer],
        Instruction::Increment => seq![OpCode::Increment],
        Instruction::Decrement => seq![OpCode::Decrement],
        Instruction::Write => seq![OpCode::Write],
        Instruction::Read => seq![OpCode::Read],
        Instruction::Loop(body) => seq![OpCode::LoopBegin] + unparse(body@) + seq![
            OpCode::LoopEnd,
        ],
    }
}

/// The symbols a program is written with.
pub open spec fn unparse(p: Seq<Instruction>) -> Seq<OpCode>
    decreases p,
{
    if p.len() == 0 {
        Seq::empty()
    } else {
        unparse(p.subrange(0, p.len() - 1)) + unparse_insn(p[p.len() - 1])
    }
}

/// How a symbol changes the loop nesting depth.
pub open spec fn nesting(op: OpCode) -> int {
    match op {
        OpCode::LoopBegin => 1,
        OpCode::LoopEnd => -1,
        _ => 0,
    }
}

/// Loop nesting depth after a sequence of symbols.
pub open spec fn depth(s: Seq<OpCode>) -> int
    decreases s.len(),
{
    if s.len() == 0 {
        0
    } else {
        depth(s.drop_last()) + nesting(s.last())
    }
}

/// No prefix closes more loops than it opens.
pub open spec fn never_negative(s: Seq<OpCode>) -> bool {
    forall|k: int| 0 <= k <= s.len() ==> depth(#[trigger] s.take(k)) >= 0
}

/// Every loop is closed, and none is closed before it is opened.
pub open spec fn balanced(s: Seq<OpCode>) -> bool {
    never_negative(s) && depth(s) == 0
}

/// Position `i` holds the first loop end that has no open loop.
pub open spec fn first_unmatched_end(s: Seq<OpCode>, i: int) -> bool {
    &&& 0 <= i < s.len()
    &&& s[i] == OpCode::LoopEnd
    &&& depth(s.take(i)) == 0
    &&& never_negative(s.take(i))
}

/// Every loop end is matched but some loop stays open, and the outermost open
/// loop begins at position `i`.
pub open spec fn outermost_unclosed(s: Seq<OpCode>, i: int) -> bool {
    &&& never_negative(s)
    &&& 0 <= i < s.len()
    &&& s[i] == OpCode::LoopBegin
    &&& depth(s.take(i)) == 0
    &&& forall|k: int| i < k <= s.len() ==> depth(#[trigger] s.take(k)) > 0
}

pub proof fn lemma_depth_concat(a: Seq<OpCode>, b: Seq<OpCode>)
    ensures
        depth(a + b) == depth(a) + depth(b),
    decreases b.len(),
{
    if b.len() > 0 {
        assert((a + b).drop_last() == a + b.drop_last());
        lemma_depth_concat(a, b.drop_last());
    } else {
        assert(a + b == a);
    }
}

proof fn lemma_depth_step(s: Seq<OpCode>, k: int)
    requires
        0 <= k < s.len(),
    ensures
        depth(s.take(k + 1)) == depth(s.take(k)) + nesting(s[k]),
{
    assert(s.take(k + 1).drop_last() == s.take(k));
}

proof fn lemma_inner_balanced(s: Seq<OpCode>, start: int, end: int)
    requires
        0 <= start < end < s.len(),
        s[start] == OpCode::LoopBegin,
        depth(s.take(start)) == 0,
        depth(s.take(end)) == 1,
        forall|k: int| start < k <= end ==> depth(#[trigger] s.take(k)) > 0,
    ensures
        balanced(s.subrange(start + 1, end)),
{
    let sub = s.subrange(start + 1, end);
    lemma_depth_step(s, start);
    assert forall|k: int| 0 <= k <= sub.len() implies depth(#[trigger] sub.take(k)) == depth(
        s.take(start + 1 + k),
    ) - 1 by {
        assert(s.take(start + 1 + k) == s.take(start + 1) + sub.take(k));
        lemma_depth_concat(s.take(start + 1), sub.take(k));
    }
    assert forall|k: int| 0 <= k <= sub.len() implies depth(#[trigger] sub.take(k)) >= 0 by {
        assert(depth(s.take(start + 1 + k)) > 0);
    }
    assert(sub.take(sub.len() as int) == sub);
}

proof fn lemma_error_unbalanced(s: Seq<OpCode>, e: ParseError)
    requires
        match e {
            ParseError::UnmatchedLoopEnd(i) => first_unmatched_end(s, i as int),
            ParseError::UnmatchedLoopBegin(i) => outermost_unclosed(s, i as int),
        },
    ensures
        !balanced(s),
{
    match e {
        ParseError::UnmatchedLoopEnd(i) => {
            lemma_depth_step(s, i as int);
            assert(depth(s.take(i + 1)) < 0);
        },
        ParseError::UnmatchedLoopBegin(i) => {
            assert(s.take(s.len() as int) == s);
            assert(depth(s.take(s.len() as int)) > 0);
        },
    }
}

/// Parses a symbol sequence into a program tree, checking that loops nest.
pub fn parse(opcodes: Vec<OpCode>) -> (r: Result<Vec<Instruction>, ParseError>)
    ensures
        r is Ok <==> balanced(opcodes@),
        match r {
            Ok(p) => balanced(opcodes@) && unparse(p@) == opcodes@,
            Err(ParseError::UnmatchedLoopEnd(i)) => first_unmatched_end(opcodes@, i as int),
            Err(ParseError::UnmatchedLoopBegin(i)) => outermost_unclosed(opcodes@, i as int),
        },
    decreases opcodes@.len(),
{
    let ghost s = opcodes@;
    let mut program: Vec<Instruction> = Vec::new();
    let mut loop_stack: usize = 0;
    let mut loop_start: usize = 0;
    let mut i: usize = 0;
    while i < opcodes.len()
        invariant
            s == opcodes@,
            i <= s.len(),
            loop_stack == depth(s.take(i as int)),
            never_negative(s.take(i as int)),
            loop_stack <= i,
            loop_stack == 0 ==> unparse(program@) == s.take(i as int),
            loop_stack > 0 ==> {
                &&& loop_start < i
                &&& s[loop_start as int] == OpCode::LoopBegin
                &&& depth(s.take(loop_start as int)) == 0
                &&& unparse(program@) == s.take(loop_start as int)
                &&& forall|k: int| loop_start < k <= i ==> depth(#[trigger] s.take(k)) > 0
            },
        decreases s.len() - i,
    {
        let op = opcodes[i];
        proof {
            lemma_depth_step(s, i as int);
        }
        let ghost before = program@;
        if loop_stack == 0 {
            match op {
                OpCode::IncrementPointer => program.push(Instruction::IncrementPointer),
                OpCode::DecrementPointer => program.push(Instruction::DecrementPointer),
                OpCode::Increment => program.push(Instruction::Increment),
                OpCode::Decrement => program.push(Instruction::Decrement),
                OpCode::Write => program.push(Instruction::Write),
                OpCode::Read => program.push(Instruction::Read),
                OpCode::LoopBegin => {
                    loop_start = i;
                    loop_stack = 1;
                },
                OpCode::LoopEnd => {
                    proof {
                        lemma_error_unbalanced(s, ParseError::UnmatchedLoopEnd(i));
                    }
                    return Err(ParseError::UnmatchedLoopEnd(i));
                },
            }
            proof {
                if op != OpCode::LoopBegin {
                    let last = program@[program@.len() - 1];
                    assert(program@.subrange(0, program@.len() - 1) == before);
                    assert(unparse_insn(last) == seq![op]);
                    assert(s.take(i + 1) == s.take(i as int) + seq![op]);
                }
            }
        } else {
            match op {
                OpCode::LoopBegin => {
                    loop_stack = loop_stack + 1;
                },
                OpCode::LoopEnd => {
                    loop_stack = loop_stack - 1;
                    if loop_stack == 0 {
                        let sub = slice_to_vec(
                            slice_subrange(opcodes.as_slice(), loop_start + 1, i),
                        );
                        proof {
                            lemma_inner_balanced(s, loop_start as int, i as int);
                            assert(sub@ == s.subrange(loop_start + 1, i as int));
                        }
                        let body = match parse(sub) {
                            Ok(body) => body,
                            Err(e) => {
                                proof {
                                    lemma_error_unbalanced(sub@, e);
                                    assert(false);
                                }
                                return Err(ParseError::UnmatchedLoopEnd(i));
                            },
                        };
                        program.push(Instruction::Loop(body));
                        proof {
                            assert(program@.subrange(0, program@.len() - 1) == before);
                            assert(unparse(program@) == unparse(before) + unparse_insn(
                                program@[program@.len() - 1],
                            ));
                            assert(unparse_insn(program@[program@.len() - 1]) == seq![
                                OpCode::LoopBegin,
                            ] + s.subrange(loop_start + 1, i as int) + seq![OpCode::LoopEnd]);
                            assert(s.take(i + 1) == s.take(loop_start as int) + (seq![
                                OpCode::LoopBegin,
                            ] + s.subrange(loop_start + 1, i as int) + seq![OpCode::LoopEnd]));
                        }
                    }
                },
                _ => {},
            }
        }
        proof {
            assert forall|k: int| 0 <= k <= i + 1 implies depth(#[trigger] s.take(i + 1).take(k))
                >= 0 by {
                if k <= i {
                    assert(s.take(i + 1).take(k) == s.take(i as int).take(k));
                } else {
                    assert(s.take(i + 1).take(k) == s.take(i + 1));
                }
            }
        }
        i = i + 1;
    }
    if loop_stack != 0 {
        proof {
            assert(s.take(s.len() as int) == s);
            lemma_error_unbalanced(s, ParseError::UnmatchedLoopBegin(loop_start));
        }
        return Err(ParseError::UnmatchedLoopBegin(loop_start));
    }
    proof {
        assert(s.take(s.len() as int) == s);
    }
    Ok(program)
}

} // verus!
