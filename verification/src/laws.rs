use vstd::prelude::*;
use crate::ast::{Exp, loop_free, loop_count, seq_size, lemma_seq_size_ge_len};
use crate::compiler::{Op, TermV, BlockV, GenV, Pend, RunOp, run_kind, run_delta_op, flush,
    emit_spec, init_gen, spec_compile, MAX_PROGRAM_SIZE};
use crate::semantics::{Mach, run_seq_spec, run_exp_spec, run_ops, run_blocks, op_step,
    put_byte, get_byte_keep, get_byte_store, run_effect, lemma_run_ops_append,
    lemma_run_ops_single, lemma_move_compose, lemma_add_compose, lemma_delta_op_effect};

verus! {

/// How often `t` occurs among some operations.
pub open spec fn count_in(ops: Seq<Op>, t: Op) -> nat
    decreases ops.len(),
{
    if ops.len() == 0 {
        0
    } else {
        count_in(ops.drop_last(), t) + if ops.last() == t { 1nat } else { 0nat }
    }
}

/// How often `t` occurs in the whole module.
pub open spec fn count_op(bs: Seq<BlockV>, t: Op) -> nat
    decreases bs.len(),
{
    if bs.len() == 0 {
        0
    } else {
        count_in(bs[0].ops, t) + count_op(bs.drop_first(), t)
    }
}

proof fn lemma_count_in_push(ops: Seq<Op>, x: Op, t: Op)
    ensures
        count_in(ops.push(x), t) == count_in(ops, t) + if x == t { 1nat } else { 0nat },
{
    assert(ops.push(x).drop_last() =~= ops);
}

proof fn lemma_count_op_push(bs: Seq<BlockV>, b: BlockV, t: Op)
    ensures
        count_op(bs.push(b), t) == count_op(bs, t) + count_in(b.ops, t),
    decreases bs.len(),
{
    if bs.len() == 0 {
        assert(bs.push(b)[0] == b);
        assert(bs.push(b).drop_first() =~= Seq::<BlockV>::empty());
        assert(count_op(bs.push(b), t)
            == count_in(b.ops, t) + count_op(bs.push(b).drop_first(), t));
        assert(count_op(bs.push(b).drop_first(), t) == 0);
        assert(count_op(bs, t) == 0);
    } else {
        assert(bs.push(b)[0] == bs[0]);
        assert(bs.push(b).drop_first() =~= bs.drop_first().push(b));
        lemma_count_op_push(bs.drop_first(), b, t);
        assert(count_op(bs.push(b), t)
            == count_in(bs[0].ops, t) + count_op(bs.drop_first().push(b), t));
    }
}

proof fn lemma_count_op_update(bs: Seq<BlockV>, j: int, b: BlockV, t: Op)
    requires
        0 <= j < bs.len(),
    ensures
        count_op(bs.update(j, b), t) + count_in(bs[j].ops, t)
            == count_op(bs, t) + count_in(b.ops, t),
    decreases bs.len(),
{
    if j == 0 {
        assert(bs.update(0, b).drop_first() =~= bs.drop_first());
    } else {
        assert(bs.update(j, b).drop_first() =~= bs.drop_first().update(j - 1, b));
        lemma_count_op_update(bs.drop_first(), j - 1, b, t);
    }
}

/// Appending one operation to the cursor's block adds one occurrence of it
/// and nothing else.
proof fn lemma_push_op_count(g: GenV, op: Op, t: Op)
    requires
        0 <= g.cur < g.blocks.len(),
    ensures
        count_op(g.push_op(op).blocks, t)
            == count_op(g.blocks, t) + if op == t { 1nat } else { 0nat },
{
    lemma_count_in_push(g.blocks[g.cur].ops, op, t);
    lemma_count_op_update(
        g.blocks,
        g.cur,
        BlockV { ops: g.blocks[g.cur].ops.push(op), term: g.blocks[g.cur].term },
        t,
    );
}

proof fn lemma_seal_count(g: GenV, term: TermV, t: Op)
    requires
        0 <= g.cur < g.blocks.len(),
    ensures
        count_op(g.seal(term).blocks, t) == count_op(g.blocks, t),
{
    lemma_count_op_update(
        g.blocks,
        g.cur,
        BlockV { ops: g.blocks[g.cur].ops, term },
        t,
    );
}

/// The forward scan emits only folded runs and stream operations: it never
/// adds an allocate or free operation.
proof fn lemma_emit_alloc_free(es: Seq<Exp>, p: Pend, g: GenV)
    requires
        g.wf(),
    ensures
        count_op(emit_spec(es, p, g).blocks, Op::Alloc) == count_op(g.blocks, Op::Alloc),
        count_op(emit_spec(es, p, g).blocks, Op::Free) == count_op(g.blocks, Op::Free),
    decreases seq_size(es),
{
    assert(count_op(flush(p, g).blocks, Op::Alloc) == count_op(g.blocks, Op::Alloc)
        && count_op(flush(p, g).blocks, Op::Free) == count_op(g.blocks, Op::Free)) by {
        match p {
            Pend::NoRun => {},
            Pend::Run { op, n } => {
                lemma_push_op_count(g, run_delta_op(op, n), Op::Alloc);
                lemma_push_op_count(g, run_delta_op(op, n), Op::Free);
            },
        }
    }
    if es.len() == 0 {
    } else {
        let e = es[0];
        let rest = es.drop_first();
        assert(seq_size(es) == es[0].size() + seq_size(rest));
        assert(es[0].size() >= 1);
        match e {
            Exp::Output => {
                let g1 = flush(p, g).push_op(Op::Put);
                lemma_push_op_count(flush(p, g), Op::Put, Op::Alloc);
                lemma_push_op_count(flush(p, g), Op::Put, Op::Free);
                crate::compiler::lemma_emit_frame(es, p, g);
                lemma_emit_alloc_free(rest, Pend::NoRun, g1);
            },
            Exp::Input => {
                let g1 = flush(p, g).push_op(Op::Get);
                lemma_push_op_count(flush(p, g), Op::Get, Op::Alloc);
                lemma_push_op_count(flush(p, g), Op::Get, Op::Free);
                lemma_emit_alloc_free(rest, Pend::NoRun, g1);
            },
            Exp::Loop { body } => {
                let g1 = flush(p, g);
                let s = g1.blocks.len() as int;
                let sealed = g1.seal(TermV::Jump { target: s });
                lemma_seal_count(g1, TermV::Jump { target: s }, Op::Alloc);
                lemma_seal_count(g1, TermV::Jump { target: s }, Op::Free);
                let b0 = BlockV { ops: Seq::empty(), term: TermV::Branch { body: s + 1, end: s + 2 } };
                let b1 = BlockV { ops: Seq::empty(), term: TermV::Open };
                let blocks2 = sealed.blocks.push(b0).push(b1).push(b1);
                lemma_count_op_push(sealed.blocks, b0, Op::Alloc);
                lemma_count_op_push(sealed.blocks.push(b0), b1, Op::Alloc);
                lemma_count_op_push(sealed.blocks.push(b0).push(b1), b1, Op::Alloc);
                lemma_count_op_push(sealed.blocks, b0, Op::Free);
                lemma_count_op_push(sealed.blocks.push(b0), b1, Op::Free);
                lemma_count_op_push(sealed.blocks.push(b0).push(b1), b1, Op::Free);
                let gb = GenV { blocks: blocks2, cur: s + 1 };
                crate::compiler::lemma_emit_frame(body.exps@, Pend::NoRun, gb);
                lemma_emit_alloc_free(body.exps@, Pend::NoRun, gb);
                let g3 = emit_spec(body.exps@, Pend::NoRun, gb);
                lemma_seal_count(g3, TermV::Jump { target: s }, Op::Alloc);
                lemma_seal_count(g3, TermV::Jump { target: s }, Op::Free);
                let g4 = GenV { blocks: g3.seal(TermV::Jump { target: s }).blocks, cur: s + 2 };
                assert(g4.wf()) by {
                    assert(g3.cur != s + 2);
                    assert(g4.blocks[s + 2] == blocks2[s + 2]);
                }
                lemma_emit_alloc_free(rest, Pend::NoRun, g4);
            },
            _ => {
                let r = run_kind(e);
                match p {
                    Pend::Run { op, n } => if op == r {
                        lemma_emit_alloc_free(rest, Pend::Run { op, n: n + 1 }, g);
                    } else {
                        lemma_emit_alloc_free(rest, Pend::Run { op: r, n: 1 }, flush(p, g));
                    },
                    Pend::NoRun => {
                        lemma_emit_alloc_free(rest, Pend::Run { op: r, n: 1 }, g);
                    },
                }
            },
        }
    }
}

/// LAW — exactly one allocate and one free operation stand in every
/// generated module, whatever the program: the entry block allocates the
/// tape once, the epilogue frees it once, and emission adds neither.
pub proof fn theorem_one_alloc_one_free(es: Seq<Exp>)
    ensures
        count_op(spec_compile(es), Op::Alloc) == 1,
        count_op(spec_compile(es), Op::Free) == 1,
{
    let g0 = init_gen();
    assert(count_op(g0.blocks, Op::Alloc) == 1 && count_op(g0.blocks, Op::Free) == 0) by {
        let entry = g0.blocks[0].ops;
        assert(entry.len() == 1);
        assert(entry.last() == Op::Alloc);
        assert(entry.drop_last() =~= Seq::<Op>::empty());
        assert(count_in(entry.drop_last(), Op::Alloc) == 0);
        assert(count_in(entry.drop_last(), Op::Free) == 0);
        assert(count_in(entry, Op::Alloc) == 1);
        assert(count_in(entry, Op::Free) == 0);
        assert(g0.blocks.drop_first() =~= Seq::<BlockV>::empty());
        assert(count_op(g0.blocks.drop_first(), Op::Alloc) == 0);
        assert(count_op(g0.blocks.drop_first(), Op::Free) == 0);
    }
    lemma_emit_alloc_free(es, Pend::NoRun, g0);
    let g = emit_spec(es, Pend::NoRun, g0);
    crate::compiler::lemma_emit_frame(es, Pend::NoRun, g0);
    lemma_push_op_count(g, Op::Free, Op::Alloc);
    lemma_push_op_count(g, Op::Free, Op::Free);
    lemma_seal_count(g.push_op(Op::Free), TermV::Ret, Op::Alloc);
    lemma_seal_count(g.push_op(Op::Free), TermV::Ret, Op::Free);
}

/// Every zero-test block branches into its own triple: to the block right
/// after it (its BODY) and the one after that (its END).
pub open spec fn branch_ok(bs: Seq<BlockV>, j: int) -> bool {
    match bs[j].term {
        TermV::Branch { body, end } => body == j + 1 && end == j + 2 && end < bs.len(),
        _ => true,
    }
}

/// Every unconditional jump lands on a zero-test block: the entry jump of a
/// loop and its back edge both target that loop's own START.
pub open spec fn jump_ok(bs: Seq<BlockV>, j: int) -> bool {
    match bs[j].term {
        TermV::Jump { target } => 0 <= target < bs.len() && bs[target].term is Branch,
        _ => true,
    }
}

/// Both disciplines at one block.
pub open spec fn block_ok(bs: Seq<BlockV>, j: int) -> bool {
    branch_ok(bs, j) && jump_ok(bs, j)
}

pub open spec fn cfg_wf(bs: Seq<BlockV>) -> bool {
    forall|j: int| 0 <= j < bs.len() ==> #[trigger] block_ok(bs, j)
}

/// The forward scan adds three blocks per loop node and keeps the
/// control-flow discipline of `cfg_wf`.
proof fn lemma_emit_structure(es: Seq<Exp>, p: Pend, g: GenV)
    requires
        g.wf(),
        cfg_wf(g.blocks),
    ensures
        emit_spec(es, p, g).blocks.len() == g.blocks.len() + 3 * loop_count(es),
        cfg_wf(emit_spec(es, p, g).blocks),
    decreases seq_size(es),
{
    assert(cfg_wf(flush(p, g).blocks) && flush(p, g).blocks.len() == g.blocks.len()) by {
        match p {
            Pend::NoRun => {},
            Pend::Run { op, n } => {
                let bs2 = flush(p, g).blocks;
                assert forall|j: int| 0 <= j < bs2.len() implies #[trigger] block_ok(bs2, j) by {
                    assert(block_ok(g.blocks, j));
                    assert(bs2[j].term == g.blocks[j].term);
                    match bs2[j].term {
                        TermV::Jump { target } => {
                            assert(g.blocks[target].term is Branch);
                            assert(target != g.cur);
                            assert(bs2[target].term == g.blocks[target].term);
                        },
                        _ => {},
                    }
                }
            },
        }
    }
    if es.len() == 0 {
    } else {
        let e = es[0];
        let rest = es.drop_first();
        assert(seq_size(es) == es[0].size() + seq_size(rest));
        assert(es[0].size() >= 1);
        match e {
            Exp::Output => {
                lemma_push_op_cfg(flush(p, g), Op::Put);
                lemma_emit_structure(rest, Pend::NoRun, flush(p, g).push_op(Op::Put));
            },
            Exp::Input => {
                lemma_push_op_cfg(flush(p, g), Op::Get);
                lemma_emit_structure(rest, Pend::NoRun, flush(p, g).push_op(Op::Get));
            },
            Exp::Loop { body } => {
                let g1 = flush(p, g);
                let s = g1.blocks.len() as int;
                let sealed = g1.seal(TermV::Jump { target: s });
                let b0 = BlockV { ops: Seq::empty(), term: TermV::Branch { body: s + 1, end: s + 2 } };
                let b1 = BlockV { ops: Seq::empty(), term: TermV::Open };
                let blocks2 = sealed.blocks.push(b0).push(b1).push(b1);
                let gb = GenV { blocks: blocks2, cur: s + 1 };
                assert(gb.wf());
                assert(cfg_wf(blocks2)) by {
                    assert forall|j: int| 0 <= j < blocks2.len() implies #[trigger] block_ok(blocks2, j) by {
                        if j < s {
                            if j != g1.cur {
                                assert(blocks2[j] == g1.blocks[j]);
                            }
                            assert(block_ok(g1.blocks, j));
                            match blocks2[j].term {
                                TermV::Jump { target } => {
                                    if j == g1.cur {
                                        assert(blocks2[j].term == TermV::Jump { target: s });
                                        assert(blocks2[s].term is Branch);
                                    } else {
                                        assert(blocks2[j].term == g1.blocks[j].term);
                                        assert(g1.blocks[target].term is Branch);
                                        assert(target != g1.cur);
                                        assert(blocks2[target].term == g1.blocks[target].term);
                                    }
                                },
                                _ => {},
                            }
                        } else {
                            assert(blocks2[s].term == b0.term);
                        }
                    }
                }
                lemma_emit_structure(body.exps@, Pend::NoRun, gb);
                crate::compiler::lemma_emit_frame(body.exps@, Pend::NoRun, gb);
                let g3 = emit_spec(body.exps@, Pend::NoRun, gb);
                let g4 = GenV { blocks: g3.seal(TermV::Jump { target: s }).blocks, cur: s + 2 };
                assert(g4.wf()) by {
                    assert(g3.cur != s + 2);
                    assert(g4.blocks[s + 2] == blocks2[s + 2]);
                }
                assert(cfg_wf(g4.blocks)) by {
                    let bs3 = g3.blocks;
                    assert(bs3[s] == blocks2[s]);
                    assert forall|j: int| 0 <= j < g4.blocks.len() implies #[trigger] block_ok(g4.blocks, j) by {
                        if j != g3.cur {
                            assert(g4.blocks[j] == bs3[j]);
                        }
                        assert(block_ok(bs3, j));
                        match g4.blocks[j].term {
                            TermV::Jump { target } => {
                                if j == g3.cur {
                                    assert(target == s);
                                    assert(g4.blocks[s] == bs3[s]);
                                } else {
                                    assert(bs3[target].term is Branch);
                                    assert(target != g3.cur);
                                    assert(g4.blocks[target] == bs3[target]);
                                }
                            },
                            TermV::Branch { body: bb, end: ee } => {
                                assert(j != g3.cur);
                                assert(branch_ok(bs3, j));
                            },
                            _ => {},
                        }
                    }
                }
                lemma_emit_structure(rest, Pend::NoRun, g4);
            },
            _ => {
                let r = run_kind(e);
                match p {
                    Pend::Run { op, n } => if op == r {
                        lemma_emit_structure(rest, Pend::Run { op, n: n + 1 }, g);
                    } else {
                        lemma_emit_structure(rest, Pend::Run { op: r, n: 1 }, flush(p, g));
                    },
                    Pend::NoRun => {
                        lemma_emit_structure(rest, Pend::Run { op: r, n: 1 }, g);
                    },
                }
            },
        }
    }
}

proof fn lemma_push_op_cfg(g: GenV, op: Op)
    requires
        g.wf(),
        cfg_wf(g.blocks),
    ensures
        cfg_wf(g.push_op(op).blocks),
        g.push_op(op).blocks.len() == g.blocks.len(),
        g.push_op(op).wf(),
{
    let bs2 = g.push_op(op).blocks;
    assert forall|j: int| 0 <= j < bs2.len() implies #[trigger] block_ok(bs2, j) by {
        assert(block_ok(g.blocks, j));
        assert(bs2[j].term == g.blocks[j].term);
        match bs2[j].term {
            TermV::Jump { target } => {
                assert(g.blocks[target].term is Branch);
                assert(target != g.cur);
                assert(bs2[target].term == g.blocks[target].term);
            },
            _ => {},
        }
    }
}

/// LAW — a loop nested to depth D contributes its own START/BODY/END triple
/// at every level: a generated module holds exactly one entry block plus
/// three blocks per loop node, every zero-test branches only into its own
/// triple, and every jump targets a loop's own START block.
pub proof fn theorem_loop_block_triples(es: Seq<Exp>)
    ensures
        spec_compile(es).len() == 1 + 3 * loop_count(es),
        cfg_wf(spec_compile(es)),
{
    let g0 = init_gen();
    assert(cfg_wf(g0.blocks)) by {
        assert forall|j: int| 0 <= j < g0.blocks.len() implies #[trigger] block_ok(g0.blocks, j) by {
            assert(g0.blocks[0].term is Open);
        }
    }
    lemma_emit_structure(es, Pend::NoRun, g0);
    crate::compiler::lemma_emit_frame(es, Pend::NoRun, g0);
    let g = emit_spec(es, Pend::NoRun, g0);
    lemma_push_op_cfg(g, Op::Free);
    let g2 = g.push_op(Op::Free);
    let bs = g2.seal(TermV::Ret).blocks;
    assert(cfg_wf(bs)) by {
        assert forall|j: int| 0 <= j < bs.len() implies #[trigger] block_ok(bs, j) by {
            assert(block_ok(g2.blocks, j));
            if j != g2.cur {
                assert(bs[j] == g2.blocks[j]);
            }
            match bs[j].term {
                TermV::Jump { target } => {
                    assert(j != g2.cur);
                    assert(g2.blocks[target].term is Branch);
                    assert(target != g2.cur);
                    assert(bs[target] == g2.blocks[target]);
                },
                _ => {},
            }
        }
    }
}

/// Whether one block's terminator jumps to block `t`.
pub open spec fn jump_hits(b: BlockV, t: int) -> nat {
    match b.term {
        TermV::Jump { target } => if target == t {
            1nat
        } else {
            0nat
        },
        _ => 0,
    }
}

/// How many blocks of the module jump to block `t`.
pub open spec fn jumps_to(bs: Seq<BlockV>, t: int) -> nat
    decreases bs.len(),
{
    if bs.len() == 0 {
        0
    } else {
        jump_hits(bs[0], t) + jumps_to(bs.drop_first(), t)
    }
}

/// One block's jump, if any, stays inside the module.
pub open spec fn jump_in_range(bs: Seq<BlockV>, j: int) -> bool {
    match bs[j].term {
        TermV::Jump { target } => 0 <= target < bs.len(),
        _ => true,
    }
}

/// Every jump of the module stays inside it.
pub open spec fn jumps_bounded(bs: Seq<BlockV>) -> bool {
    forall|j: int| 0 <= j < bs.len() ==> #[trigger] jump_in_range(bs, j)
}

proof fn lemma_jumps_push(bs: Seq<BlockV>, b: BlockV, t: int)
    ensures
        jumps_to(bs.push(b), t) == jumps_to(bs, t) + jump_hits(b, t),
    decreases bs.len(),
{
    if bs.len() == 0 {
        assert(bs.push(b)[0] == b);
        assert(bs.push(b).drop_first() =~= Seq::<BlockV>::empty());
        assert(jumps_to(bs.push(b), t)
            == jump_hits(b, t) + jumps_to(bs.push(b).drop_first(), t));
        assert(jumps_to(bs.push(b).drop_first(), t) == 0);
        assert(jumps_to(bs, t) == 0);
    } else {
        assert(bs.push(b)[0] == bs[0]);
        assert(bs.push(b).drop_first() =~= bs.drop_first().push(b));
        lemma_jumps_push(bs.drop_first(), b, t);
        assert(jumps_to(bs.push(b), t)
            == jump_hits(bs[0], t) + jumps_to(bs.drop_first().push(b), t));
    }
}

proof fn lemma_jumps_update(bs: Seq<BlockV>, j: int, b: BlockV, t: int)
    requires
        0 <= j < bs.len(),
    ensures
        jumps_to(bs.update(j, b), t) + jump_hits(bs[j], t)
            == jumps_to(bs, t) + jump_hits(b, t),
    decreases bs.len(),
{
    if j == 0 {
        assert(bs.update(0, b).drop_first() =~= bs.drop_first());
    } else {
        assert(bs.update(j, b).drop_first() =~= bs.drop_first().update(j - 1, b));
        lemma_jumps_update(bs.drop_first(), j - 1, b, t);
    }
}

/// A block that no block's jump hits has no incoming jump.
proof fn lemma_jumps_pointwise_zero(bs: Seq<BlockV>, t: int)
    requires
        forall|j: int| 0 <= j < bs.len() ==> jump_hits(#[trigger] bs[j], t) == 0,
    ensures
        jumps_to(bs, t) == 0,
    decreases bs.len(),
{
    if bs.len() > 0 {
        assert forall|j: int| 0 <= j < bs.drop_first().len()
            implies jump_hits(#[trigger] bs.drop_first()[j], t) == 0 by {
            assert(bs.drop_first()[j] == bs[j + 1]);
        }
        lemma_jumps_pointwise_zero(bs.drop_first(), t);
    }
}

/// A position at or past the end of the module has no incoming jump.
proof fn lemma_jumps_past_end(bs: Seq<BlockV>, t: int)
    requires
        jumps_bounded(bs),
        t >= bs.len(),
    ensures
        jumps_to(bs, t) == 0,
{
    assert forall|j: int| 0 <= j < bs.len() implies jump_hits(#[trigger] bs[j], t) == 0 by {
        assert(jump_in_range(bs, j));
    }
    lemma_jumps_pointwise_zero(bs, t);
}

/// Appending an operation moves no jump and no terminator.
proof fn lemma_push_op_jumps(g: GenV, op: Op, t: int)
    requires
        0 <= g.cur < g.blocks.len(),
    ensures
        jumps_to(g.push_op(op).blocks, t) == jumps_to(g.blocks, t),
{
    lemma_jumps_update(
        g.blocks,
        g.cur,
        BlockV { ops: g.blocks[g.cur].ops.push(op), term: g.blocks[g.cur].term },
        t,
    );
}

/// Sealing an open block adds exactly its own terminator's jump.
proof fn lemma_seal_jumps(g: GenV, term: TermV, t: int)
    requires
        0 <= g.cur < g.blocks.len(),
        g.blocks[g.cur].term is Open,
    ensures
        jumps_to(g.seal(term).blocks, t)
            == jumps_to(g.blocks, t) + jump_hits(BlockV { ops: g.blocks[g.cur].ops, term }, t),
{
    lemma_jumps_update(g.blocks, g.cur, BlockV { ops: g.blocks[g.cur].ops, term }, t);
}

/// What one forward scan does to incoming jumps: blocks that existed before
/// gain none and keep their kind of terminator, every jump stays in range,
/// and among the blocks the scan creates exactly the zero-test (START)
/// blocks are jump targets, each hit exactly twice — once by the
/// fall-through into its loop, once by that loop's own back edge.
proof fn lemma_emit_jump_counts(es: Seq<Exp>, p: Pend, g: GenV)
    requires
        g.wf(),
        jumps_bounded(g.blocks),
    ensures
        ({
            let g2 = emit_spec(es, p, g);
            &&& jumps_bounded(g2.blocks)
            &&& forall|t: int|
                0 <= t < g.blocks.len() ==> #[trigger] jumps_to(g2.blocks, t)
                    == jumps_to(g.blocks, t)
            &&& forall|t: int|
                0 <= t < g.blocks.len() ==> ((#[trigger] g2.blocks[t].term) is Branch
                    <==> g.blocks[t].term is Branch)
            &&& forall|t: int|
                g.blocks.len() <= t < g2.blocks.len() ==> #[trigger] jumps_to(g2.blocks, t)
                    == (if g2.blocks[t].term is Branch {
                    2nat
                } else {
                    0nat
                })
        }),
    decreases seq_size(es),
{
    let g1 = flush(p, g);
    assert(g1.blocks.len() == g.blocks.len() && g1.wf());
    assert forall|t: int| #[trigger] jumps_to(g1.blocks, t) == jumps_to(g.blocks, t) by {
        match p {
            Pend::NoRun => {},
            Pend::Run { op, n } => {
                lemma_push_op_jumps(g, run_delta_op(op, n), t);
            },
        }
    }
    assert(forall|t: int|
        0 <= t < g.blocks.len() ==> (#[trigger] g1.blocks[t].term) == g.blocks[t].term);
    assert(jumps_bounded(g1.blocks)) by {
        assert forall|j: int| 0 <= j < g1.blocks.len() implies #[trigger] jump_in_range(
            g1.blocks,
            j,
        ) by {
            assert(jump_in_range(g.blocks, j));
            assert(g1.blocks[j].term == g.blocks[j].term);
        }
    }
    if es.len() == 0 {
    } else {
        let e = es[0];
        let rest = es.drop_first();
        assert(seq_size(es) == es[0].size() + seq_size(rest));
        assert(es[0].size() >= 1);
        match e {
            Exp::Output => {
                let gn = g1.push_op(Op::Put);
                assert forall|t: int| #[trigger] jumps_to(gn.blocks, t)
                    == jumps_to(g.blocks, t) by {
                    lemma_push_op_jumps(g1, Op::Put, t);
                }
                assert(jumps_bounded(gn.blocks)) by {
                    assert forall|j: int| 0 <= j < gn.blocks.len() implies #[trigger] jump_in_range(
                        gn.blocks,
                        j,
                    ) by {
                        assert(jump_in_range(g1.blocks, j));
                        assert(gn.blocks[j].term == g1.blocks[j].term);
                    }
                }
                lemma_emit_jump_counts(rest, Pend::NoRun, gn);
            },
            Exp::Input => {
                let gn = g1.push_op(Op::Get);
                assert forall|t: int| #[trigger] jumps_to(gn.blocks, t)
                    == jumps_to(g.blocks, t) by {
                    lemma_push_op_jumps(g1, Op::Get, t);
                }
                assert(jumps_bounded(gn.blocks)) by {
                    assert forall|j: int| 0 <= j < gn.blocks.len() implies #[trigger] jump_in_range(
                        gn.blocks,
                        j,
                    ) by {
                        assert(jump_in_range(g1.blocks, j));
                        assert(gn.blocks[j].term == g1.blocks[j].term);
                    }
                }
                lemma_emit_jump_counts(rest, Pend::NoRun, gn);
            },
            Exp::Loop { body } => {
                let s = g1.blocks.len() as int;
                let sealed = g1.seal(TermV::Jump { target: s });
                let b0 = BlockV {
                    ops: Seq::empty(),
                    term: TermV::Branch { body: s + 1, end: s + 2 },
                };
                let b1 = BlockV { ops: Seq::empty(), term: TermV::Open };
                let blocks2 = sealed.blocks.push(b0).push(b1).push(b1);
                let gb = GenV { blocks: blocks2, cur: s + 1 };
                assert(gb.wf());
                assert forall|t: int| #[trigger] jumps_to(blocks2, t)
                    == jumps_to(g.blocks, t) + (if t == s {
                    1nat
                } else {
                    0nat
                }) by {
                    lemma_seal_jumps(g1, TermV::Jump { target: s }, t);
                    lemma_jumps_push(sealed.blocks, b0, t);
                    lemma_jumps_push(sealed.blocks.push(b0), b1, t);
                    lemma_jumps_push(sealed.blocks.push(b0).push(b1), b1, t);
                }
                assert(jumps_bounded(blocks2)) by {
                    assert forall|j: int| 0 <= j < blocks2.len() implies #[trigger] jump_in_range(
                        blocks2,
                        j,
                    ) by {
                        if j < s {
                            if j == g1.cur {
                                assert(blocks2[j].term == (TermV::Jump { target: s }));
                            } else {
                                assert(blocks2[j].term == g1.blocks[j].term);
                                assert(jump_in_range(g1.blocks, j));
                            }
                        }
                    }
                }
                crate::compiler::lemma_emit_frame(body.exps@, Pend::NoRun, gb);
                lemma_emit_jump_counts(body.exps@, Pend::NoRun, gb);
                let g3 = emit_spec(body.exps@, Pend::NoRun, gb);
                let g4 = GenV { blocks: g3.seal(TermV::Jump { target: s }).blocks, cur: s + 2 };
                assert(g3.cur != s + 2 && g4.blocks[s + 2] == blocks2[s + 2]);
                assert(g4.wf());
                assert forall|t: int| #[trigger] jumps_to(g4.blocks, t)
                    == jumps_to(g3.blocks, t) + (if t == s {
                    1nat
                } else {
                    0nat
                }) by {
                    lemma_seal_jumps(g3, TermV::Jump { target: s }, t);
                }
                assert(forall|t: int|
                    0 <= t < g3.blocks.len() && t != g3.cur
                        ==> (#[trigger] g4.blocks[t]) == g3.blocks[t]);
                assert(g4.blocks[g3.cur].term == (TermV::Jump { target: s }));
                assert(jumps_bounded(g4.blocks)) by {
                    assert forall|j: int| 0 <= j < g4.blocks.len() implies #[trigger] jump_in_range(
                        g4.blocks,
                        j,
                    ) by {
                        if j == g3.cur {
                        } else {
                            assert(g4.blocks[j] == g3.blocks[j]);
                            assert(jump_in_range(g3.blocks, j));
                        }
                    }
                }
                crate::compiler::lemma_emit_frame(rest, Pend::NoRun, g4);
                lemma_emit_jump_counts(rest, Pend::NoRun, g4);
                let g2 = emit_spec(rest, Pend::NoRun, g4);
                assert(emit_spec(es, p, g) == g2);
                assert forall|t: int|
                    0 <= t < g.blocks.len() implies #[trigger] jumps_to(g2.blocks, t)
                        == jumps_to(g.blocks, t) by {
                    assert(jumps_to(g2.blocks, t) == jumps_to(g4.blocks, t));
                    assert(jumps_to(g4.blocks, t) == jumps_to(g3.blocks, t));
                    assert(jumps_to(g3.blocks, t) == jumps_to(blocks2, t));
                }
                assert forall|t: int|
                    0 <= t < g.blocks.len() implies ((#[trigger] g2.blocks[t].term) is Branch
                        <==> g.blocks[t].term is Branch) by {
                    assert(g2.blocks[t].term is Branch <==> g4.blocks[t].term is Branch);
                    if t == g3.cur {
                        assert(g3.blocks[t].term is Open);
                        assert(g4.blocks[t].term == (TermV::Jump { target: s }));
                    } else {
                        assert(g4.blocks[t] == g3.blocks[t]);
                    }
                    assert(g3.blocks[t].term is Branch <==> blocks2[t].term is Branch);
                    if t == g1.cur {
                        assert(g1.blocks[t].term is Open);
                        assert(blocks2[t].term == (TermV::Jump { target: s }));
                    } else {
                        assert(blocks2[t].term == g1.blocks[t].term);
                    }
                    assert(g1.blocks[t].term == g.blocks[t].term);
                }
                assert forall|t: int|
                    g.blocks.len() <= t < g2.blocks.len() implies #[trigger] jumps_to(
                    g2.blocks,
                    t,
                ) == (if g2.blocks[t].term is Branch {
                    2nat
                } else {
                    0nat
                }) by {
                    if t >= g4.blocks.len() {
                        assert(jumps_to(g2.blocks, t) == (if g2.blocks[t].term is Branch {
                            2nat
                        } else {
                            0nat
                        }));
                    } else {
                        assert(jumps_to(g2.blocks, t) == jumps_to(g4.blocks, t));
                        assert(g2.blocks[t].term is Branch <==> g4.blocks[t].term is Branch);
                        if t == s {
                            lemma_jumps_past_end(g.blocks, s);
                            assert(jumps_to(blocks2, s) == 1);
                            assert(jumps_to(g3.blocks, s) == jumps_to(blocks2, s));
                            assert(jumps_to(g4.blocks, s) == 2);
                            assert(g3.cur != s);
                            assert(g4.blocks[s] == g3.blocks[s]);
                            assert(g3.blocks[s] == blocks2[s]);
                            assert(g4.blocks[s].term is Branch);
                        } else if t == s + 1 || t == s + 2 {
                            lemma_jumps_past_end(g.blocks, t);
                            assert(jumps_to(blocks2, t) == 0);
                            assert(jumps_to(g3.blocks, t) == jumps_to(blocks2, t));
                            assert(jumps_to(g4.blocks, t) == 0);
                            if t == g3.cur {
                                assert(g4.blocks[t].term == (TermV::Jump { target: s }));
                            } else {
                                assert(g4.blocks[t] == g3.blocks[t]);
                                assert(g3.blocks[t].term is Branch
                                    <==> blocks2[t].term is Branch);
                                assert(blocks2[t].term is Open);
                            }
                            assert(!(g4.blocks[t].term is Branch));
                        } else {
                            assert(s + 3 <= t < g3.blocks.len());
                            assert(jumps_to(g3.blocks, t) == (if g3.blocks[t].term is Branch {
                                2nat
                            } else {
                                0nat
                            }));
                            assert(jumps_to(g4.blocks, t) == jumps_to(g3.blocks, t));
                            if t == g3.cur {
                                assert(g3.blocks[t].term is Open);
                                assert(g4.blocks[t].term == (TermV::Jump { target: s }));
                                assert(!(g3.blocks[t].term is Branch));
                                assert(!(g4.blocks[t].term is Branch));
                            } else {
                                assert(g4.blocks[t] == g3.blocks[t]);
                            }
                        }
                    }
                }
            },
            _ => {
                let r = run_kind(e);
                match p {
                    Pend::Run { op, n } => if op == r {
                        lemma_emit_jump_counts(rest, Pend::Run { op, n: n + 1 }, g);
                    } else {
                        lemma_emit_jump_counts(rest, Pend::Run { op: r, n: 1 }, g1);
                    },
                    Pend::NoRun => {
                        lemma_emit_jump_counts(rest, Pend::Run { op: r, n: 1 }, g);
                    },
                }
            },
        }
    }
}

/// LAW — every jump of a generated module belongs to exactly one loop:
/// each zero-test (START) block is the target of exactly two jumps, the
/// fall-through into its loop and that loop's own back edge, and no other
/// block is ever a jump target — never a sibling's and never an ancestor's.
pub proof fn theorem_jumps_own_loop_only(es: Seq<Exp>)
    ensures
        ({
            let bs = spec_compile(es);
            forall|t: int|
                0 <= t < bs.len() ==> #[trigger] jumps_to(bs, t) == (if bs[t].term is Branch {
                    2nat
                } else {
                    0nat
                })
        }),
{
    let g0 = init_gen();
    assert(jumps_bounded(g0.blocks)) by {
        assert forall|j: int| 0 <= j < g0.blocks.len() implies #[trigger] jump_in_range(
            g0.blocks,
            j,
        ) by {
            assert(g0.blocks[0].term is Open);
        }
    }
    lemma_emit_jump_counts(es, Pend::NoRun, g0);
    crate::compiler::lemma_emit_frame(es, Pend::NoRun, g0);
    let g = emit_spec(es, Pend::NoRun, g0);
    let g2 = g.push_op(Op::Free);
    let bs = g2.seal(TermV::Ret).blocks;
    assert(jumps_to(g0.blocks, 0) == 0) by {
        assert forall|j: int| 0 <= j < g0.blocks.len() implies jump_hits(
            #[trigger] g0.blocks[j],
            0,
        ) == 0 by {
            assert(g0.blocks[0].term is Open);
        }
        lemma_jumps_pointwise_zero(g0.blocks, 0);
    }
    assert forall|t: int| 0 <= t < bs.len() implies #[trigger] jumps_to(bs, t)
        == (if bs[t].term is Branch {
        2nat
    } else {
        0nat
    }) by {
        lemma_push_op_jumps(g, Op::Free, t);
        lemma_seal_jumps(g2, TermV::Ret, t);
        assert(jumps_to(bs, t) == jumps_to(g.blocks, t));
        if t != g.cur {
            assert(bs[t] == g.blocks[t]);
        } else {
            assert(g.blocks[t].term is Open);
            assert(bs[t].term is Ret);
        }
        if t == 0 && g.cur != 0 {
            assert(jumps_to(g.blocks, 0) == jumps_to(g0.blocks, 0));
            assert(g.blocks[0].term is Branch <==> g0.blocks[0].term is Branch);
        }
        if t > 0 {
            assert(jumps_to(g.blocks, t) == (if g.blocks[t].term is Branch {
                2nat
            } else {
                0nat
            }));
        }
    }
}

/// LAW — the lowered form of a zero-guard loop does the same as its
/// interpreted form: control that reaches a loop's START block with the
/// addressed cell at zero moves straight to the loop's own END block, the
/// machine untouched, so the body blocks are never entered.
pub proof fn theorem_start_block_guard_zero(bs: Seq<BlockV>, s: int, m: Mach, fuel: nat)
    requires
        0 <= s < bs.len(),
        bs[s].ops.len() == 0,
        bs[s].term matches TermV::Branch { body, end },
        m.cell() == 0,
        fuel >= 1,
    ensures
        bs[s].term matches TermV::Branch { body, end }
            ==> run_blocks(bs, s, m, fuel) == run_blocks(bs, end, m, (fuel - 1) as nat),
{
    assert(bs[s].ops =~= Seq::<Op>::empty());
    assert(run_ops(bs[s].ops, m) == m);
}

/// Bytes a loop-free sequence reads from the input stream.
pub open spec fn inputs_needed(es: Seq<Exp>) -> nat
    decreases es.len(),
{
    if es.len() == 0 {
        0
    } else {
        (if es[0] is Input { 1nat } else { 0nat }) + inputs_needed(es.drop_first())
    }
}

/// The operations of a flushed run accumulator.
pub open spec fn flush_ops(p: Pend) -> Seq<Op> {
    match p {
        Pend::NoRun => Seq::empty(),
        Pend::Run { op, n } => seq![run_delta_op(op, n)],
    }
}

/// The straight-line operations a loop-free sequence folds into, with `p`
/// pending; the loop arm is never reached on such input.
pub open spec fn fold_ops(es: Seq<Exp>, p: Pend) -> Seq<Op>
    decreases es.len(),
{
    if es.len() == 0 {
        flush_ops(p)
    } else {
        let rest = es.drop_first();
        match es[0] {
            Exp::Output => flush_ops(p) + seq![Op::Put] + fold_ops(rest, Pend::NoRun),
            Exp::Input => flush_ops(p) + seq![Op::Get] + fold_ops(rest, Pend::NoRun),
            Exp::Loop { body } => Seq::empty(),
            _ => {
                let r = run_kind(es[0]);
                match p {
                    Pend::Run { op, n } => if op == r {
                        fold_ops(rest, Pend::Run { op, n: n + 1 })
                    } else {
                        flush_ops(p) + fold_ops(rest, Pend::Run { op: r, n: 1 })
                    },
                    Pend::NoRun => fold_ops(rest, Pend::Run { op: r, n: 1 }),
                }
            },
        }
    }
}

/// On loop-free input the forward scan builds no blocks at all: it only
/// appends the folded operations to the cursor's block.
proof fn lemma_emit_loop_free(es: Seq<Exp>, p: Pend, g: GenV)
    requires
        loop_free(es),
        g.wf(),
    ensures
        emit_spec(es, p, g) == (GenV {
            blocks: g.blocks.update(
                g.cur,
                BlockV {
                    ops: g.blocks[g.cur].ops + fold_ops(es, p),
                    term: g.blocks[g.cur].term,
                },
            ),
            cur: g.cur,
        }),
    decreases es.len(),
{
    crate::ast::lemma_seq_size_ge_len(es);
    if es.len() == 0 {
        match p {
            Pend::NoRun => {
                assert(g.blocks[g.cur].ops + flush_ops(p) =~= g.blocks[g.cur].ops);
                assert(emit_spec(es, p, g) =~~= GenV {
                    blocks: g.blocks.update(
                        g.cur,
                        BlockV {
                            ops: g.blocks[g.cur].ops + fold_ops(es, p),
                            term: g.blocks[g.cur].term,
                        },
                    ),
                    cur: g.cur,
                });
            },
            Pend::Run { op, n } => {
                assert(g.blocks[g.cur].ops + flush_ops(p)
                    =~= g.blocks[g.cur].ops.push(run_delta_op(op, n)));
                assert(emit_spec(es, p, g) =~~= GenV {
                    blocks: g.blocks.update(
                        g.cur,
                        BlockV {
                            ops: g.blocks[g.cur].ops + fold_ops(es, p),
                            term: g.blocks[g.cur].term,
                        },
                    ),
                    cur: g.cur,
                });
            },
        }
    } else {
        let rest = es.drop_first();
        let goal = GenV {
            blocks: g.blocks.update(
                g.cur,
                BlockV {
                    ops: g.blocks[g.cur].ops + fold_ops(es, p),
                    term: g.blocks[g.cur].term,
                },
            ),
            cur: g.cur,
        };
        match es[0] {
            Exp::Output => {
                let g1 = flush(p, g).push_op(Op::Put);
                assert(g1.wf());
                assert(g1.blocks[g1.cur].ops
                    =~= g.blocks[g.cur].ops + flush_ops(p) + seq![Op::Put]);
                lemma_emit_loop_free(rest, Pend::NoRun, g1);
                assert(emit_spec(es, p, g) =~~= goal);
            },
            Exp::Input => {
                let g1 = flush(p, g).push_op(Op::Get);
                assert(g1.wf());
                assert(g1.blocks[g1.cur].ops
                    =~= g.blocks[g.cur].ops + flush_ops(p) + seq![Op::Get]);
                lemma_emit_loop_free(rest, Pend::NoRun, g1);
                assert(emit_spec(es, p, g) =~~= goal);
            },
            Exp::Loop { body } => {
                assert(false);
            },
            _ => {
                let r = run_kind(es[0]);
                match p {
                    Pend::Run { op, n } => if op == r {
                        lemma_emit_loop_free(rest, Pend::Run { op, n: n + 1 }, g);
                        assert(emit_spec(es, p, g) =~~= goal);
                    } else {
                        let g1 = flush(p, g);
                        assert(g1.wf());
                        assert(g1.blocks[g1.cur].ops =~= g.blocks[g.cur].ops + flush_ops(p));
                        lemma_emit_loop_free(rest, Pend::Run { op: r, n: 1 }, g1);
                        assert(emit_spec(es, p, g) =~~= goal);
                    },
                    Pend::NoRun => {
                        lemma_emit_loop_free(rest, Pend::Run { op: r, n: 1 }, g);
                        assert(emit_spec(es, p, g) =~~= goal);
                    },
                }
            },
        }
    }
}

/// The machine after the pending run's instructions.
pub open spec fn pend_apply(p: Pend, m: Mach) -> Mach {
    match p {
        Pend::NoRun => m,
        Pend::Run { op, n } => run_effect(op, n, m),
    }
}

/// Instructions counted by a pending run.
pub open spec fn pend_len(p: Pend) -> int {
    match p {
        Pend::NoRun => 0,
        Pend::Run { op, n } => n,
    }
}

/// A pending run is well-formed when it stands for at least one
/// instruction.
pub open spec fn pend_ok(p: Pend) -> bool {
    match p {
        Pend::NoRun => true,
        Pend::Run { op, n } => n >= 1,
    }
}

proof fn lemma_run_effect_wf(r: RunOp, n: int, m: Mach)
    requires
        m.wf(),
    ensures
        run_effect(r, n, m).wf(),
        run_effect(r, n, m).tape.len() == m.tape.len(),
        run_effect(r, n, m).inp == m.inp,
        run_effect(r, n, m).icur == m.icur,
        run_effect(r, n, m).out == m.out,
{
}

/// Running the folded operations of a loop-free sequence from machine `m`
/// gives exactly what interpreting the sequence gives from the machine that
/// the pending run has already reached — with no budget spent and no
/// failure — as long as the input stream covers every read.
proof fn lemma_fold_sem(es: Seq<Exp>, p: Pend, m: Mach, fuel: nat)
    requires
        loop_free(es),
        m.wf(),
        pend_ok(p),
        pend_len(p) + es.len() <= MAX_PROGRAM_SIZE,
        m.icur + inputs_needed(es) <= m.inp.len(),
    ensures
        run_seq_spec(es, pend_apply(p, m), fuel)
            == Some((run_ops(fold_ops(es, p), m), fuel)),
    decreases es.len(),
{
    let mp = pend_apply(p, m);
    assert(mp.wf() && mp.tape.len() == m.tape.len() && mp.inp == m.inp && mp.icur == m.icur) by {
        match p {
            Pend::NoRun => {},
            Pend::Run { op, n } => lemma_run_effect_wf(op, n, m),
        }
    }
    assert(run_ops(flush_ops(p), m) == mp) by {
        match p {
            Pend::NoRun => {
                assert(run_ops(Seq::<Op>::empty(), m) == m);
            },
            Pend::Run { op, n } => {
                lemma_delta_op_effect(op, n, m);
                lemma_run_ops_single(run_delta_op(op, n), m);
            },
        }
    }
    if es.len() == 0 {
    } else {
        let rest = es.drop_first();
        match es[0] {
            Exp::Output => {
                let m1 = put_byte(mp);
                assert(run_exp_spec(es[0], mp, fuel) == Some((m1, fuel)));
                lemma_fold_sem(rest, Pend::NoRun, m1, fuel);
                lemma_run_ops_append(flush_ops(p) + seq![Op::Put], fold_ops(rest, Pend::NoRun), m);
                lemma_run_ops_append(flush_ops(p), seq![Op::Put], m);
                assert(run_ops(seq![Op::Put], mp) == m1) by {
                    lemma_run_ops_single(Op::Put, mp);
                }
                assert(fold_ops(es, p) =~= (flush_ops(p) + seq![Op::Put]) + fold_ops(rest, Pend::NoRun));
            },
            Exp::Input => {
                assert(inputs_needed(es) == 1 + inputs_needed(rest));
                let m1 = get_byte_keep(mp);
                assert(mp.icur < mp.inp.len());
                assert(m1 == get_byte_store(mp));
                assert(run_exp_spec(es[0], mp, fuel) == Some((m1, fuel)));
                assert(m1.wf() && m1.icur == mp.icur + 1 && m1.inp == mp.inp);
                lemma_fold_sem(rest, Pend::NoRun, m1, fuel);
                lemma_run_ops_append(flush_ops(p) + seq![Op::Get], fold_ops(rest, Pend::NoRun), m);
                lemma_run_ops_append(flush_ops(p), seq![Op::Get], m);
                assert(run_ops(seq![Op::Get], mp) == m1) by {
                    lemma_run_ops_single(Op::Get, mp);
                }
                assert(fold_ops(es, p) =~= (flush_ops(p) + seq![Op::Get]) + fold_ops(rest, Pend::NoRun));
            },
            Exp::Loop { body } => {
                assert(false);
            },
            _ => {
                let r = run_kind(es[0]);
                let m1 = run_effect(r, 1, mp);
                assert(run_exp_spec(es[0], mp, fuel) == Some((m1, fuel)));
                match p {
                    Pend::Run { op, n } => if op == r {
                        assert(m1 == pend_apply(Pend::Run { op, n: n + 1 }, m)) by {
                            match r {
                                RunOp::Left => lemma_move_compose(m, -n, -1),
                                RunOp::Right => lemma_move_compose(m, n, 1),
                                RunOp::Increment => lemma_add_compose(m, n, 1),
                                RunOp::Decrement => lemma_add_compose(m, -n, -1),
                            }
                        }
                        lemma_fold_sem(rest, Pend::Run { op, n: n + 1 }, m, fuel);
                    } else {
                        assert(m1 == pend_apply(Pend::Run { op: r, n: 1 }, mp));
                        lemma_fold_sem(rest, Pend::Run { op: r, n: 1 }, mp, fuel);
                        lemma_run_ops_append(flush_ops(p), fold_ops(rest, Pend::Run { op: r, n: 1 }), m);
                        assert(fold_ops(es, p) =~= flush_ops(p) + fold_ops(rest, Pend::Run { op: r, n: 1 }));
                    },
                    Pend::NoRun => {
                        assert(m1 == pend_apply(Pend::Run { op: r, n: 1 }, m));
                        lemma_fold_sem(rest, Pend::Run { op: r, n: 1 }, m, fuel);
                    },
                }
            },
        }
    }
}

/// LAW — for every loop-free program, compiling and then executing the
/// generated module on a given finite input yields exactly the machine that
/// direct interpretation yields — the same output bytes in particular —
/// whenever the input stream covers every read. (A read past the end of the
/// stream is the one documented divergence: the interpreter leaves the cell
/// unchanged, the compiled code stores the end marker's byte.)
pub proof fn theorem_compile_loop_free(es: Seq<Exp>, inp: Seq<u8>, len: nat, fuel: nat)
    requires
        loop_free(es),
        seq_size(es) <= MAX_PROGRAM_SIZE,
        inputs_needed(es) <= inp.len(),
        len >= 1,
    ensures
        ({
            let m0 = Mach::init(len, inp);
            let mr = run_ops(fold_ops(es, Pend::NoRun), m0);
            &&& run_seq_spec(es, m0, fuel) == Some((mr, fuel))
            &&& run_blocks(spec_compile(es), 0, m0, fuel) == Some(mr)
        }),
{
    let m0 = Mach::init(len, inp);
    assert(m0.wf());
    lemma_seq_size_ge_len(es);
    lemma_fold_sem(es, Pend::NoRun, m0, fuel);
    let g0 = init_gen();
    lemma_emit_loop_free(es, Pend::NoRun, g0);
    let g = emit_spec(es, Pend::NoRun, g0);
    let bs = spec_compile(es);
    let entry_ops = (seq![Op::Alloc] + fold_ops(es, Pend::NoRun)) + seq![Op::Free];
    assert(bs.len() == 1);
    assert(bs[0].ops =~= entry_ops) by {
        assert(g.blocks[0].ops =~= seq![Op::Alloc] + fold_ops(es, Pend::NoRun));
    }
    assert(bs[0].term == TermV::Ret);
    lemma_run_ops_append(seq![Op::Alloc] + fold_ops(es, Pend::NoRun), seq![Op::Free], m0);
    lemma_run_ops_append(seq![Op::Alloc], fold_ops(es, Pend::NoRun), m0);
    assert(run_ops(seq![Op::Alloc], m0) == m0) by {
        lemma_run_ops_single(Op::Alloc, m0);
        assert(op_step(Op::Alloc, m0) =~~= m0);
    }
    let mr = run_ops(fold_ops(es, Pend::NoRun), m0);
    assert(run_ops(seq![Op::Free], mr) == mr) by {
        lemma_run_ops_single(Op::Free, mr);
    }
    assert(run_ops(bs[0].ops, m0) == mr);
}

} // verus!
