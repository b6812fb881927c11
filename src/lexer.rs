use vstd::prelude::*;

verus! {

/// One recognized source symbol.
#[derive(Debug, Clone, Copy, PartialEq, Eq, Structural)]
pub enum OpCode {
    IncrementPointer,
    DecrementPointer,
    Increment,
    Decrement,
    Write,
    Read,
    LoopBegin,
    LoopEnd,
}

/// The symbol a character stands for, if it is one of the eight.
pub open spec fn symbol_of(c: char) -> Option<OpCode> {
    if c == '>' {
        Some(OpCode::IncrementPointer)
    } else if c == '<' {
        Some(OpCode::DecrementPointer)
    } else if c == '+' {
        Some(OpCode::Increment)
    } else if c == '-' {
        Some(OpCode::Decrement)
    } else if c == '.' {
        Some(OpCode::Write)
    } else if c == ',' {
        Some(OpCode::Read)
    } else if c == '[' {
        Some(OpCode::LoopBegin)
    } else if c == ']' {
        Some(OpCode::LoopEnd)
    } else {
        None
    }
}

/// Whether a character is one of the eight symbols.
pub open spec fn is_symbol(c: char) -> bool {
    symbol_of(c) is Some
}

/// The symbols of a text, in order, every other character dropped.
pub open spec fn lex_spec(s: Seq<char>) -> Seq<OpCode>
    decreases s.len(),
{
    if s.len() == 0 {
        Seq::empty()
    } else {
        let rest = lex_spec(s.drop_last());
        match symbol_of(s.last()) {
            Some(op) => rest.push(op),
            None => rest,
        }
    }
}

fn symbol(c: char) -> (r: Option<OpCode>)
    ensures
        r == symbol_of(c),
{
    match c {
        '>' => Some(OpCode::IncrementPointer),
        '<' => Some(OpCode::DecrementPointer),
        '+' => Some(OpCode::Increment),
        '-' => Some(OpCode::Decrement),
        '.' => Some(OpCode::Write),
        ',' => Some(OpCode::Read),
        '[' => Some(OpCode::LoopBegin),
        ']' => Some(OpCode::LoopEnd),
        _ => None,
    }
}

/// Turns source text into its sequence of symbols; every other character is
/// a comment.
pub fn lex(source: String) -> (ops: Vec<OpCode>)
    ensures
        ops@ == lex_spec(source@),
{
    let mut operations: Vec<OpCode> = Vec::new();
    for c in it: source.chars()
        invariant
            it.seq() == source@,
            operations@ == lex_spec(source@.take(it.index() as int)),
    {
        proof {
            assert(source@.take(it.index() + 1).drop_last() == source@.take(it.index() as int));
        }
        if let Some(op) = symbol(c) {
            operations.push(op);
        }
    }
    proof {
        assert(source@.take(source@.len() as int) == source@);
    }
    operations
}

/// Characters other than the eight symbols never matter: a text lexes exactly
/// as the same text with all of them removed.
pub proof fn lemma_comments_ignored(s: Seq<char>)
    ensures
        lex_spec(s) == lex_spec(s.filter(|c: char| is_symbol(c))),
    decreases s.len(),
{
    let keep = |c: char| is_symbol(c);
    if s.len() > 0 {
        let init = s.drop_last();
        lemma_comments_ignored(init);
        assert(s == init.push(s.last()));
        init.lemma_filter_push(s.last(), keep);
        let f = init.filter(keep);
        if is_symbol(s.last()) {
            assert(f.push(s.last()).drop_last() == f);
        }
    }
}

} // verus!
