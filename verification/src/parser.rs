use vstd::prelude::*;
use crate::ast::{Exp, SeqExp};
use crate::lexer::{Token, spec_tokens, tokenize, lemma_tokens_no_error};

verus! {

/// Recursive-descent bookkeeping: how many loops are open around the
/// current parse position.
pub struct State {
    pub loop_depth: usize,
}

impl Default for State {
    fn default() -> (r: State)
        ensures
            r.loop_depth == 0,
    {
        State { loop_depth: 0 }
    }
}

/// Why a program is rejected: a loop terminator with no loop open, or a
/// loop that the text ends before closing.
#[derive(Clone, Copy, PartialEq, Eq, Structural, Debug)]
pub enum ParseError {
    UnmatchedLoopEnd,
    UnclosedLoop,
}

/// The token stream an instruction renders back to.
pub open spec fn tokens_of_exp(e: Exp) -> Seq<Token>
    decreases e,
{
    match e {
        Exp::Left => seq![Token::Left],
        Exp::Right => seq![Token::Right],
        Exp::Increment => seq![Token::Increment],
        Exp::Decrement => seq![Token::Decrement],
        Exp::Output => seq![Token::Output],
        Exp::Input => seq![Token::Input],
        Exp::Loop { body } => seq![Token::LoopStart] + tokens_of_exps(body.exps@)
            + seq![Token::LoopEnd],
    }
}

/// The token stream a sequence renders back to.
pub open spec fn tokens_of_exps(es: Seq<Exp>) -> Seq<Token>
    decreases es,
{
    if es.len() == 0 {
        Seq::empty()
    } else {
        tokens_of_exp(es[0]) + tokens_of_exps(es.drop_first())
    }
}

proof fn lemma_tokens_push(es: Seq<Exp>, e: Exp)
    ensures
        tokens_of_exps(es.push(e)) == tokens_of_exps(es) + tokens_of_exp(e),
    decreases es.len(),
{
    assert(tokens_of_exps(Seq::<Exp>::empty()) == Seq::<Token>::empty());
    if es.len() == 0 {
        assert(es.push(e)[0] == e);
        assert(es.push(e).drop_first() =~= Seq::<Exp>::empty());
        assert(tokens_of_exps(es.push(e))
            == tokens_of_exp(e) + tokens_of_exps(es.push(e).drop_first()));
        assert(tokens_of_exps(es.push(e)) =~= tokens_of_exps(es) + tokens_of_exp(e));
    } else {
        assert(es.push(e)[0] == es[0]);
        assert(es.push(e).drop_first() =~= es.drop_first().push(e));
        lemma_tokens_push(es.drop_first(), e);
        assert(tokens_of_exps(es.push(e))
            == tokens_of_exp(es[0]) + tokens_of_exps(es.push(e).drop_first()));
        assert(tokens_of_exps(es.push(e)) =~= tokens_of_exps(es) + tokens_of_exp(e));
    }
}

/// Where a parse that begins at `i` stops: the position of the first loop
/// terminator that closes no loop opened at or after `i`, or the end of the
/// stream when there is none.
pub open spec fn close_pos(toks: Seq<Token>, i: int) -> int
    decreases toks.len() - i,
    via close_pos_dec
{
    if i < 0 || i >= toks.len() {
        toks.len() as int
    } else if toks[i] is LoopEnd {
        i
    } else if toks[i] is LoopStart {
        let c = close_pos(toks, i + 1);
        if c >= toks.len() {
            toks.len() as int
        } else {
            close_pos(toks, if c + 1 > i + 1 { c + 1 } else { i + 1 })
        }
    } else {
        close_pos(toks, i + 1)
    }
}

#[via_fn]
proof fn close_pos_dec(toks: Seq<Token>, i: int) {
}

/// Whether a parse that begins at `i` runs into no loop that the stream
/// ends before closing, up to where it stops.
pub open spec fn seg_ok(toks: Seq<Token>, i: int) -> bool
    decreases toks.len() - i,
    via seg_ok_dec
{
    if i < 0 || i >= toks.len() {
        true
    } else if toks[i] is LoopEnd {
        true
    } else if toks[i] is LoopStart {
        let c = close_pos(toks, i + 1);
        &&& c < toks.len()
        &&& seg_ok(toks, i + 1)
        &&& seg_ok(toks, if c + 1 > i + 1 { c + 1 } else { i + 1 })
    } else {
        seg_ok(toks, i + 1)
    }
}

#[via_fn]
proof fn seg_ok_dec(toks: Seq<Token>, i: int) {
}

/// A token stream is well nested when no loop is left unclosed and no loop
/// terminator stands with no loop open: exactly the streams `parse`
/// accepts.
pub open spec fn well_nested(toks: Seq<Token>) -> bool {
    seg_ok(toks, 0) && close_pos(toks, 0) == toks.len()
}

/// The stop position lies between `i` and the end; when it lies before the
/// end it carries a loop terminator.
pub proof fn lemma_close_pos(toks: Seq<Token>, i: int)
    requires
        0 <= i <= toks.len(),
    ensures
        i <= close_pos(toks, i) <= toks.len(),
        close_pos(toks, i) < toks.len() ==> toks[close_pos(toks, i)] is LoopEnd,
    decreases toks.len() - i,
{
    if i < toks.len() {
        if toks[i] is LoopEnd {
        } else if toks[i] is LoopStart {
            lemma_close_pos(toks, i + 1);
            let c = close_pos(toks, i + 1);
            if c < toks.len() {
                lemma_close_pos(toks, if c + 1 > i + 1 { c + 1 } else { i + 1 });
            }
        } else {
            lemma_close_pos(toks, i + 1);
        }
    }
}

/// Parse one sequence, from `start` up to the loop terminator that closes
/// the enclosing loop, or to the end of the stream; parsed instructions are
/// appended to `node`, and the result is where parsing stopped.
pub fn parse_seq_exp(toks: &Vec<Token>, start: usize, node: &mut SeqExp, state: &mut State) -> (r:
    Result<usize, ParseError>)
    requires
        start <= toks@.len(),
        old(state).loop_depth <= start,
        forall|k: int| 0 <= k < toks@.len() ==> !(#[trigger] toks@[k] is Error),
    ensures
        final(state).loop_depth == old(state).loop_depth,
        match r {
            Ok(j) => {
                &&& start <= j <= toks@.len()
                &&& j == close_pos(toks@, start as int)
                &&& seg_ok(toks@, start as int)
                &&& final(node).exps@.len() >= old(node).exps@.len()
                &&& final(node).exps@.subrange(0, old(node).exps@.len() as int)
                    == old(node).exps@
                &&& tokens_of_exps(final(node).exps@.skip(old(node).exps@.len() as int))
                    == toks@.subrange(start as int, j as int)
            },
            Err(e) => !seg_ok(toks@, start as int) && e == ParseError::UnclosedLoop,
        },
    decreases toks@.len() - start,
{
    let ghost onl = node.exps@.len() as int;
    let ghost ts = toks@;
    let mut i = start;
    while i < toks.len()
        invariant
            ts == toks@,
            onl == old(node).exps@.len(),
            start <= i <= ts.len(),
            state.loop_depth == old(state).loop_depth,
            state.loop_depth <= start,
            node.exps@.len() >= onl,
            node.exps@.subrange(0, onl) == old(node).exps@,
            tokens_of_exps(node.exps@.skip(onl)) == ts.subrange(start as int, i as int),
            close_pos(ts, start as int) == close_pos(ts, i as int),
            seg_ok(ts, start as int) <==> seg_ok(ts, i as int),
            forall|k: int| 0 <= k < ts.len() ==> !(#[trigger] ts[k] is Error),
        decreases ts.len() - i,
    {
        let ghost pre = node.exps@;
        let t = toks[i];
        match t {
            Token::Left => {
                node.exps.push(Exp::Left);
                proof {
                    lemma_tokens_push(pre.skip(onl), Exp::Left);
                    assert(node.exps@.skip(onl) =~= pre.skip(onl).push(Exp::Left));
                    assert(tokens_of_exps(node.exps@.skip(onl))
                        =~= ts.subrange(start as int, i + 1));
                    assert(node.exps@.subrange(0, onl) =~= pre.subrange(0, onl));
                }
                i = i + 1;
            },
            Token::Right => {
                node.exps.push(Exp::Right);
                proof {
                    lemma_tokens_push(pre.skip(onl), Exp::Right);
                    assert(node.exps@.skip(onl) =~= pre.skip(onl).push(Exp::Right));
                    assert(tokens_of_exps(node.exps@.skip(onl))
                        =~= ts.subrange(start as int, i + 1));
                    assert(node.exps@.subrange(0, onl) =~= pre.subrange(0, onl));
                }
                i = i + 1;
            },
            Token::Increment => {
                node.exps.push(Exp::Increment);
                proof {
                    lemma_tokens_push(pre.skip(onl), Exp::Increment);
                    assert(node.exps@.skip(onl) =~= pre.skip(onl).push(Exp::Increment));
                    assert(tokens_of_exps(node.exps@.skip(onl))
                        =~= ts.subrange(start as int, i + 1));
                    assert(node.exps@.subrange(0, onl) =~= pre.subrange(0, onl));
                }
                i = i + 1;
            },
            Token::Decrement => {
                node.exps.push(Exp::Decrement);
                proof {
                    lemma_tokens_push(pre.skip(onl), Exp::Decrement);
                    assert(node.exps@.skip(onl) =~= pre.skip(onl).push(Exp::Decrement));
                    assert(tokens_of_exps(node.exps@.skip(onl))
                        =~= ts.subrange(start as int, i + 1));
                    assert(node.exps@.subrange(0, onl) =~= pre.subrange(0, onl));
                }
                i = i + 1;
            },
            Token::Output => {
                node.exps.push(Exp::Output);
                proof {
                    lemma_tokens_push(pre.skip(onl), Exp::Output);
                    assert(node.exps@.skip(onl) =~= pre.skip(onl).push(Exp::Output));
                    assert(tokens_of_exps(node.exps@.skip(onl))
                        =~= ts.subrange(start as int, i + 1));
                    assert(node.exps@.subrange(0, onl) =~= pre.subrange(0, onl));
                }
                i = i + 1;
            },
            Token::Input => {
                node.exps.push(Exp::Input);
                proof {
                    lemma_tokens_push(pre.skip(onl), Exp::Input);
                    assert(node.exps@.skip(onl) =~= pre.skip(onl).push(Exp::Input));
                    assert(tokens_of_exps(node.exps@.skip(onl))
                        =~= ts.subrange(start as int, i + 1));
                    assert(node.exps@.subrange(0, onl) =~= pre.subrange(0, onl));
                }
                i = i + 1;
            },
            Token::Error => {
                proof {
                    assert(!(ts[i as int] is Error));
                    assert(false);
                }
                i = i + 1;
            },
            Token::LoopEnd => {
                return Ok(i);
            },
            Token::LoopStart => {
                state.loop_depth = state.loop_depth + 1;
                let mut body = SeqExp::new();
                let rec = parse_seq_exp(toks, i + 1, &mut body, state);
                state.loop_depth = state.loop_depth - 1;
                match rec {
                    Err(e) => {
                        proof {
                            assert(!seg_ok(ts, i as int));
                            assert(!seg_ok(ts, start as int));
                        }
                        return Err(e);
                    },
                    Ok(j) => {
                        proof {
                            lemma_close_pos(ts, i + 1);
                        }
                        if j >= toks.len() {
                            proof {
                                assert(close_pos(ts, i + 1) >= ts.len());
                                assert(!seg_ok(ts, i as int));
                                assert(!seg_ok(ts, start as int));
                            }
                            return Err(ParseError::UnclosedLoop);
                        }
                        assert(ts[j as int] is LoopEnd);
                        proof {
                            assert(close_pos(ts, i as int) == close_pos(ts, j + 1));
                            assert(seg_ok(ts, i as int) <==> seg_ok(ts, j + 1));
                        }
                        node.exps.push(Exp::Loop { body });
                        proof {
                            let e = Exp::Loop { body };
                            lemma_tokens_push(pre.skip(onl), e);
                            assert(node.exps@.skip(onl) =~= pre.skip(onl).push(e));
                            assert(body.exps@.skip(0) =~= body.exps@);
                            assert(tokens_of_exp(e)
                                =~= ts.subrange(i as int, j + 1));
                            assert(tokens_of_exps(node.exps@.skip(onl))
                                =~= ts.subrange(start as int, j + 1));
                            assert(node.exps@.subrange(0, onl) =~= pre.subrange(0, onl));
                        }
                        i = j + 1;
                    },
                }
            },
        }
    }
    Ok(i)
}

/// Parse a source text into its instruction tree. Every loop must be
/// closed, and every loop terminator must close a loop: exactly the well
/// nested token streams are accepted, and the accepted tree renders back to
/// the text's token stream, token for token.
pub fn parse(src: &Vec<u8>) -> (r: Result<SeqExp, ParseError>)
    ensures
        r is Ok <==> well_nested(spec_tokens(src@)),
        ({
            let toks = spec_tokens(src@);
            match r {
                Ok(ast) => tokens_of_exps(ast.exps@) == toks && well_nested(toks),
                Err(e) => match e {
                    ParseError::UnmatchedLoopEnd => seg_ok(toks, 0) && close_pos(toks, 0)
                        < toks.len(),
                    ParseError::UnclosedLoop => !seg_ok(toks, 0),
                },
            }
        }),
{
    let toks = tokenize(src);
    let mut tree = SeqExp::new();
    let mut state = State::default();
    proof {
        lemma_tokens_no_error(src@);
    }
    let r = parse_seq_exp(&toks, 0, &mut tree, &mut state);
    match r {
        Err(e) => Err(e),
        Ok(j) => {
            if j < toks.len() {
                Err(ParseError::UnmatchedLoopEnd)
            } else {
                assert(tree.exps@.skip(0) =~= tree.exps@);
                assert(toks@.subrange(0, j as int) =~= toks@);
                Ok(tree)
            }
        },
    }
}

} // verus!
