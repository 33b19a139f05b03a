use vstd::prelude::*;

verus! {

/// One token of the source language: each operator is a single character,
/// and every other character is skipped. `Error` is the variant such a
/// skipped stretch would carry; the tokenizer never yields it.
#[derive(Clone, Copy, PartialEq, Eq, Structural, Debug)]
pub enum Token {
    Left,
    Right,
    Increment,
    Decrement,
    Output,
    Input,
    LoopStart,
    LoopEnd,
    Error,
}

/// The token a byte stands for, if it is an operator character.
pub open spec fn spec_token_of(b: u8) -> Option<Token> {
    if b == 60 {
        Some(Token::Left)
    } else if b == 62 {
        Some(Token::Right)
    } else if b == 43 {
        Some(Token::Increment)
    } else if b == 45 {
        Some(Token::Decrement)
    } else if b == 46 {
        Some(Token::Output)
    } else if b == 44 {
        Some(Token::Input)
    } else if b == 91 {
        Some(Token::LoopStart)
    } else if b == 93 {
        Some(Token::LoopEnd)
    } else {
        None
    }
}

/// The token stream of a source text: its operator characters in order,
/// everything else skipped.
pub open spec fn spec_tokens(s: Seq<u8>) -> Seq<Token>
    decreases s.len(),
{
    if s.len() == 0 {
        Seq::empty()
    } else {
        match spec_token_of(s.last()) {
            Some(t) => spec_tokens(s.drop_last()).push(t),
            None => spec_tokens(s.drop_last()),
        }
    }
}

/// The tokenizer never yields the `Error` variant: every non-operator
/// character is skipped instead.
pub proof fn lemma_tokens_no_error(s: Seq<u8>)
    ensures
        forall|k: int| 0 <= k < spec_tokens(s).len() ==> !(#[trigger] spec_tokens(s)[k] is Error),
    decreases s.len(),
{
    if s.len() > 0 {
        lemma_tokens_no_error(s.drop_last());
    }
}

/// The token a byte stands for, if it is an operator character.
pub fn token_of(b: u8) -> (r: Option<Token>)
    ensures
        r == spec_token_of(b),
{
    match b {
        60 => Some(Token::Left),
        62 => Some(Token::Right),
        43 => Some(Token::Increment),
        45 => Some(Token::Decrement),
        46 => Some(Token::Output),
        44 => Some(Token::Input),
        91 => Some(Token::LoopStart),
        93 => Some(Token::LoopEnd),
        _ => None,
    }
}

/// Tokenize a source text: one forward scan that keeps the operator
/// characters, in order, and skips the rest.
pub fn tokenize(src: &Vec<u8>) -> (r: Vec<Token>)
    ensures
        r@ == spec_tokens(src@),
{
    let mut toks: Vec<Token> = Vec::new();
    let mut i: usize = 0;
    while i < src.len()
        invariant
            i <= src@.len(),
            toks@ == spec_tokens(src@.take(i as int)),
        decreases src@.len() - i,
    {
        assert(src@.take(i + 1).drop_last() =~= src@.take(i as int));
        assert(src@.take(i + 1).last() == src@[i as int]);
        match token_of(src[i]) {
            Some(t) => {
                toks.push(t);
            },
            None => {},
        }
        i = i + 1;
    }
    assert(src@.take(i as int) =~= src@);
    toks
}

} // verus!
