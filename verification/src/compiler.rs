use vstd::prelude::*;
use crate::ast::{Exp, SeqExp, seq_size, lemma_seq_size_ge_len, lemma_seq_size_skip_le,
    lemma_skip_step};

verus! {

/// The node count a program may have, so that every folded run's signed
/// magnitude fits the emitted operand width.
pub const MAX_PROGRAM_SIZE: u64 = 0x7fff_ffff_ffff_ffff;

/// Cells on the compiled tape, allocated zero-filled on entry.
pub const TAPE_CELLS: u64 = 30_000;

/// One straight-line generated operation inside a basic block. `AddPtr` and
/// `AddData` carry the signed magnitude of a folded run; the stream
/// operations call the runtime primitives and are never folded.
#[derive(Clone, Copy, PartialEq, Eq, Structural, Debug)]
pub enum Op {
    /// Advance the cell pointer by `delta` cells (in-bounds pointer step).
    AddPtr { delta: i64 },
    /// Add `delta` to the addressed cell, with 8-bit wraparound.
    AddData { delta: i64 },
    /// Load the addressed cell, sign-extend it, call the write primitive.
    Put,
    /// Call the read primitive, truncate to a byte, store into the cell.
    Get,
    /// Call the allocate primitive for the zero-filled tape and store the
    /// result into both the tape-base and the cell-pointer slot.
    Alloc,
    /// Call the deallocate primitive on the tape base.
    Free,
}

/// How a basic block ends. `Open` marks the block the generator is still
/// filling; a finished module holds no `Open` terminator.
#[derive(Clone, Copy, PartialEq, Eq, Structural, Debug)]
pub enum Terminator {
    /// Unconditional branch.
    Jump { target: usize },
    /// Zero-test of the addressed cell: branch to `body` when it is not
    /// zero, to `end` when it is.
    Branch { body: usize, end: usize },
    /// Return the constant zero from the entry routine.
    Ret,
    /// Not yet terminated.
    Open,
}

/// A basic block: straight-line operations and one terminator.
pub struct Block {
    pub ops: Vec<Op>,
    pub term: Terminator,
}

/// Mathematical image of a terminator, with unbounded indices.
pub enum TermV {
    Jump { target: int },
    Branch { body: int, end: int },
    Ret,
    Open,
}

/// Mathematical image of a basic block.
#[verifier::ext_equal]
pub struct BlockV {
    pub ops: Seq<Op>,
    pub term: TermV,
}

impl View for Terminator {
    type V = TermV;

    open spec fn view(&self) -> TermV {
        match *self {
            Terminator::Jump { target } => TermV::Jump { target: target as int },
            Terminator::Branch { body, end } => TermV::Branch {
                body: body as int,
                end: end as int,
            },
            Terminator::Ret => TermV::Ret,
            Terminator::Open => TermV::Open,
        }
    }
}

impl View for Block {
    type V = BlockV;

    open spec fn view(&self) -> BlockV {
        BlockV { ops: self.ops@, term: self.term@ }
    }
}

/// The code generation engine: the module under construction (a list of
/// basic blocks) and the builder cursor, the index of the block that the
/// next operation lands in.
pub struct Compiler {
    pub blocks: Vec<Block>,
    pub cur: usize,
}

/// Mathematical image of the generator state.
#[verifier::ext_equal]
pub struct GenV {
    pub blocks: Seq<BlockV>,
    pub cur: int,
}

impl View for Compiler {
    type V = GenV;

    open spec fn view(&self) -> GenV {
        GenV { blocks: self.blocks@.map_values(|b: Block| b@), cur: self.cur as int }
    }
}

impl GenV {
    /// The cursor names a block that is still open for operations.
    pub open spec fn wf(self) -> bool {
        &&& 0 <= self.cur < self.blocks.len()
        &&& self.blocks[self.cur].term is Open
    }

    /// Append one operation to the cursor's block.
    pub open spec fn push_op(self, op: Op) -> GenV {
        GenV {
            blocks: self.blocks.update(
                self.cur,
                BlockV { ops: self.blocks[self.cur].ops.push(op), term: self.blocks[self.cur].term },
            ),
            cur: self.cur,
        }
    }

    /// Seal the cursor's block with a terminator.
    pub open spec fn seal(self, t: TermV) -> GenV {
        GenV {
            blocks: self.blocks.update(
                self.cur,
                BlockV { ops: self.blocks[self.cur].ops, term: t },
            ),
            cur: self.cur,
        }
    }
}

/// The four foldable instructions, as a run kind.
#[derive(Clone, Copy, PartialEq, Eq, Structural, Debug)]
pub enum RunOp {
    Left,
    Right,
    Increment,
    Decrement,
}

/// The run kind of a foldable instruction.
pub open spec fn run_kind(e: Exp) -> RunOp {
    match e {
        Exp::Left => RunOp::Left,
        Exp::Right => RunOp::Right,
        Exp::Increment => RunOp::Increment,
        _ => RunOp::Decrement,
    }
}

/// The single operation that a run of `n` equal instructions of kind `r`
/// folds into: a signed pointer step or a signed cell add, positive for
/// Right/Increment, negative for Left/Decrement.
pub open spec fn run_delta_op(r: RunOp, n: int) -> Op {
    match r {
        RunOp::Right => Op::AddPtr { delta: n as i64 },
        RunOp::Left => Op::AddPtr { delta: (-n) as i64 },
        RunOp::Increment => Op::AddData { delta: n as i64 },
        RunOp::Decrement => Op::AddData { delta: (-n) as i64 },
    }
}

/// The run accumulator of the forward scan: either nothing pending, or `n`
/// consecutive instructions of kind `op` seen and not yet flushed.
pub enum Pend {
    NoRun,
    Run { op: RunOp, n: int },
}

/// Flush the pending run, if any, into the cursor's block.
pub open spec fn flush(p: Pend, g: GenV) -> GenV {
    match p {
        Pend::NoRun => g,
        Pend::Run { op, n } => g.push_op(run_delta_op(op, n)),
    }
}

/// One forward scan of the generation engine: fold runs of equal simple
/// instructions, emit the stream operations in order, and lower each loop
/// to a START/BODY/END block triple whose START tests the addressed cell
/// against zero. `p` is the run accumulated so far, `g` the generator state.
pub open spec fn emit_spec(es: Seq<Exp>, p: Pend, g: GenV) -> GenV
    decreases seq_size(es),
    via emit_spec_dec
{
    if es.len() == 0 {
        flush(p, g)
    } else {
        let e = es[0];
        let rest = es.drop_first();
        match e {
            Exp::Output => emit_spec(rest, Pend::NoRun, flush(p, g).push_op(Op::Put)),
            Exp::Input => emit_spec(rest, Pend::NoRun, flush(p, g).push_op(Op::Get)),
            Exp::Loop { body } => {
                let g1 = flush(p, g);
                let s = g1.blocks.len() as int;
                let blocks2 = g1.seal(TermV::Jump { target: s }).blocks
                    .push(BlockV { ops: Seq::empty(), term: TermV::Branch { body: s + 1, end: s + 2 } })
                    .push(BlockV { ops: Seq::empty(), term: TermV::Open })
                    .push(BlockV { ops: Seq::empty(), term: TermV::Open });
                let g3 = emit_spec(body.exps@, Pend::NoRun, GenV { blocks: blocks2, cur: s + 1 });
                let blocks4 = g3.seal(TermV::Jump { target: s }).blocks;
                emit_spec(rest, Pend::NoRun, GenV { blocks: blocks4, cur: s + 2 })
            },
            _ => {
                let r = run_kind(e);
                match p {
                    Pend::Run { op, n } => if op == r {
                        emit_spec(rest, Pend::Run { op, n: n + 1 }, g)
                    } else {
                        emit_spec(rest, Pend::Run { op: r, n: 1 }, flush(p, g))
                    },
                    Pend::NoRun => emit_spec(rest, Pend::Run { op: r, n: 1 }, g),
                }
            },
        }
    }
}

#[via_fn]
proof fn emit_spec_dec(es: Seq<Exp>, p: Pend, g: GenV) {
    if es.len() > 0 {
        assert(seq_size(es) == es[0].size() + seq_size(es.drop_first()));
        assert(es[0].size() >= 1);
        match es[0] {
            Exp::Loop { body } => {
                assert(es[0].size() == 1 + seq_size(body.exps@));
            },
            _ => {},
        }
    }
}

/// The forward scan only grows the module: it appends operations to the
/// cursor's block, appends new blocks, and moves the cursor either not at
/// all or to a freshly created block; every other existing block is left
/// exactly as it was, and the cursor always rests on an open block.
pub proof fn lemma_emit_frame(es: Seq<Exp>, p: Pend, g: GenV)
    requires
        g.wf(),
    ensures
        ({
            let g2 = emit_spec(es, p, g);
            &&& g2.wf()
            &&& g2.blocks.len() >= g.blocks.len()
            &&& (g2.cur == g.cur || g2.cur >= g.blocks.len())
            &&& forall|j: int|
                0 <= j < g.blocks.len() && j != g.cur ==> g2.blocks[j] == g.blocks[j]
        }),
    decreases seq_size(es),
{
    if es.len() == 0 {
    } else {
        let e = es[0];
        let rest = es.drop_first();
        assert(seq_size(es) == es[0].size() + seq_size(rest));
        assert(es[0].size() >= 1);
        match e {
            Exp::Output => {
                lemma_emit_frame(rest, Pend::NoRun, flush(p, g).push_op(Op::Put));
            },
            Exp::Input => {
                lemma_emit_frame(rest, Pend::NoRun, flush(p, g).push_op(Op::Get));
            },
            Exp::Loop { body } => {
                let g1 = flush(p, g);
                let s = g1.blocks.len() as int;
                let blocks2 = g1.seal(TermV::Jump { target: s }).blocks
                    .push(BlockV { ops: Seq::empty(), term: TermV::Branch { body: s + 1, end: s + 2 } })
                    .push(BlockV { ops: Seq::empty(), term: TermV::Open })
                    .push(BlockV { ops: Seq::empty(), term: TermV::Open });
                let gb = GenV { blocks: blocks2, cur: s + 1 };
                assert(gb.wf());
                lemma_emit_frame(body.exps@, Pend::NoRun, gb);
                let g3 = emit_spec(body.exps@, Pend::NoRun, gb);
                let g4 = GenV { blocks: g3.seal(TermV::Jump { target: s }).blocks, cur: s + 2 };
                assert(g3.cur != s + 2);
                assert(g4.blocks[s + 2] == blocks2[s + 2]);
                assert(g4.wf());
                lemma_emit_frame(rest, Pend::NoRun, g4);
                let g2 = emit_spec(rest, Pend::NoRun, g4);
                assert(emit_spec(es, p, g) == g2);
                assert forall|j: int|
                    0 <= j < g.blocks.len() && j != g.cur implies g2.blocks[j] == g.blocks[j] by {
                    assert(g4.blocks[j] == g3.blocks[j]);
                    assert(g3.blocks[j] == blocks2[j]);
                    assert(blocks2[j] == g.blocks[j]);
                }
            },
            _ => {
                let r = run_kind(e);
                match p {
                    Pend::Run { op, n } => if op == r {
                        lemma_emit_frame(rest, Pend::Run { op, n: n + 1 }, g);
                    } else {
                        lemma_emit_frame(rest, Pend::Run { op: r, n: 1 }, flush(p, g));
                    },
                    Pend::NoRun => {
                        lemma_emit_frame(rest, Pend::Run { op: r, n: 1 }, g);
                    },
                }
            },
        }
    }
}

/// The generator state at the start of a pass: one open entry block whose
/// first operation allocates the tape.
pub open spec fn init_gen() -> GenV {
    GenV {
        blocks: seq![BlockV { ops: seq![Op::Alloc], term: TermV::Open }],
        cur: 0,
    }
}

/// The whole generation pass over a program: entry block with the tape
/// allocation, the emitted body, then the tape free and the return of zero.
pub open spec fn spec_compile(es: Seq<Exp>) -> Seq<BlockV> {
    let g = emit_spec(es, Pend::NoRun, init_gen());
    g.push_op(Op::Free).seal(TermV::Ret).blocks
}

/// The run accumulator as the forward scan keeps it: `n == 0` means no run
/// is pending.
pub open spec fn pend_of(r: RunOp, n: u64) -> Pend {
    if n == 0 {
        Pend::NoRun
    } else {
        Pend::Run { op: r, n: n as int }
    }
}

/// Integer width of a declared runtime-primitive parameter or result.
#[derive(Clone, Copy, PartialEq, Eq, Structural, Debug)]
pub enum Ty {
    I8,
    I32,
    I64,
    BytePtr,
}

/// One declared function: parameter types, result type, and whether the
/// symbol is externally linked (a runtime primitive) or the entry routine.
pub struct FnDecl {
    pub params: Vec<Ty>,
    pub ret: Ty,
    pub external: bool,
}

/// The declared symbols of a generated module: the three runtime primitives
/// that the operations call, and the generated entry routine.
pub struct Functions {
    pub calloc_fn: FnDecl,
    pub getchar_fn: FnDecl,
    pub putchar_fn: FnDecl,
    pub main_fn: FnDecl,
}

impl Compiler {
    /// A generator with no blocks; `compile` builds the entry block itself.
    pub fn new() -> (r: Compiler)
        ensures
            r@.blocks =~= Seq::<BlockV>::empty(),
            r@.cur == 0,
    {
        Compiler { blocks: Vec::new(), cur: 0 }
    }

    /// Declares the runtime primitives — `calloc(count, size)`, `getchar()`,
    /// `putchar(byte)` — and the entry routine of the generated module.
    pub fn init_functions(&self) -> (r: Functions)
        ensures
            r.calloc_fn.params@ =~= seq![Ty::I64, Ty::I64],
            r.calloc_fn.ret == Ty::BytePtr,
            r.calloc_fn.external,
            r.getchar_fn.params@ =~= Seq::<Ty>::empty(),
            r.getchar_fn.ret == Ty::I32,
            r.getchar_fn.external,
            r.putchar_fn.params@ =~= seq![Ty::I32],
            r.putchar_fn.ret == Ty::I32,
            r.putchar_fn.external,
            r.main_fn.params@ =~= Seq::<Ty>::empty(),
            r.main_fn.ret == Ty::I32,
            r.main_fn.external,
    {
        let mut calloc_params: Vec<Ty> = Vec::new();
        calloc_params.push(Ty::I64);
        calloc_params.push(Ty::I64);
        let calloc_fn = FnDecl { params: calloc_params, ret: Ty::BytePtr, external: true };
        let getchar_fn = FnDecl { params: Vec::new(), ret: Ty::I32, external: true };
        let mut putchar_params: Vec<Ty> = Vec::new();
        putchar_params.push(Ty::I32);
        let putchar_fn = FnDecl { params: putchar_params, ret: Ty::I32, external: true };
        let main_fn = FnDecl { params: Vec::new(), ret: Ty::I32, external: true };
        Functions { calloc_fn, getchar_fn, putchar_fn, main_fn }
    }

    /// Opens the entry block of the entry routine and positions the cursor
    /// there; the tape-base and cell-pointer slots live in this frame.
    pub fn build_main(&mut self)
        ensures
            final(self)@.blocks =~= old(self)@.blocks.push(
                BlockV { ops: Seq::empty(), term: TermV::Open },
            ),
            final(self)@.cur == old(self)@.blocks.len(),
            final(self)@.wf(),
    {
        let c = self.blocks.len();
        self.blocks.push(Block { ops: Vec::new(), term: Terminator::Open });
        self.cur = c;
        assert(self@.blocks =~= old(self)@.blocks.push(
            BlockV { ops: Seq::empty(), term: TermV::Open },
        ));
    }

    /// Appends one operation to the cursor's block.
    fn push_op(&mut self, op: Op)
        requires
            old(self)@.wf(),
        ensures
            final(self)@ == old(self)@.push_op(op),
            final(self)@.wf(),
    {
        let c = self.cur;
        let b = &mut self.blocks[c];
        b.ops.push(op);
        assert(self@.blocks =~~= old(self)@.push_op(op).blocks);
        assert(self@ =~~= old(self)@.push_op(op));
    }

    /// Seals the cursor's block with a terminator.
    fn seal(&mut self, t: Terminator)
        requires
            0 <= old(self)@.cur < old(self)@.blocks.len(),
        ensures
            final(self)@ == old(self)@.seal(t@),
    {
        let c = self.cur;
        let b = &mut self.blocks[c];
        b.term = t;
        assert(self@ =~~= old(self)@.seal(t@));
    }

    /// Emits the call that allocates the zero-filled tape and stores the
    /// returned base into the tape-base and cell-pointer slots.
    pub fn init_pointers(&mut self)
        requires
            old(self)@.wf(),
        ensures
            final(self)@ == old(self)@.push_op(Op::Alloc),
            final(self)@.wf(),
    {
        self.push_op(Op::Alloc);
    }

    /// A folded pointer run: advance the cell pointer by `amount` cells.
    pub fn build_add_ptr(&mut self, amount: i64)
        requires
            old(self)@.wf(),
        ensures
            final(self)@ == old(self)@.push_op(Op::AddPtr { delta: amount }),
            final(self)@.wf(),
    {
        self.push_op(Op::AddPtr { delta: amount });
    }

    /// A folded arithmetic run: add `amount` to the addressed cell, with
    /// 8-bit wraparound.
    pub fn build_add(&mut self, amount: i64)
        requires
            old(self)@.wf(),
        ensures
            final(self)@ == old(self)@.push_op(Op::AddData { delta: amount }),
            final(self)@.wf(),
    {
        self.push_op(Op::AddData { delta: amount });
    }

    /// Load the addressed cell, sign-extend, and call the write primitive.
    pub fn build_put(&mut self)
        requires
            old(self)@.wf(),
        ensures
            final(self)@ == old(self)@.push_op(Op::Put),
            final(self)@.wf(),
    {
        self.push_op(Op::Put);
    }

    /// Call the read primitive, truncate to a byte, store into the cell.
    pub fn build_get(&mut self)
        requires
            old(self)@.wf(),
        ensures
            final(self)@ == old(self)@.push_op(Op::Get),
            final(self)@.wf(),
    {
        self.push_op(Op::Get);
    }

    /// Emits the call that frees the tape.
    pub fn build_free(&mut self)
        requires
            old(self)@.wf(),
        ensures
            final(self)@ == old(self)@.push_op(Op::Free),
            final(self)@.wf(),
    {
        self.push_op(Op::Free);
    }

    /// Seals the cursor's block with the return of the constant zero.
    pub fn return_zero(&mut self)
        requires
            0 <= old(self)@.cur < old(self)@.blocks.len(),
        ensures
            final(self)@ == old(self)@.seal(TermV::Ret),
    {
        self.seal(Terminator::Ret);
    }

    /// Flushes a pending run of `n` instructions of kind `r`; `n == 0`
    /// flushes nothing.
    fn flush_run(&mut self, r: RunOp, n: u64)
        requires
            old(self)@.wf(),
            n <= 0x7fff_ffff_ffff_ffff,
        ensures
            final(self)@ == flush(pend_of(r, n), old(self)@),
            final(self)@.wf(),
    {
        if n > 0 {
            match r {
                RunOp::Right => self.build_add_ptr(n as i64),
                RunOp::Left => self.build_add_ptr(-(n as i64)),
                RunOp::Increment => self.build_add(n as i64),
                RunOp::Decrement => self.build_add(-(n as i64)),
            }
        }
    }

    /// One forward scan over a sequence: folds runs of equal simple
    /// instructions and emits every operation in program order.
    pub fn handle_exps(&mut self, ast: &SeqExp)
        requires
            old(self)@.wf(),
            seq_size(ast.exps@) <= MAX_PROGRAM_SIZE,
        ensures
            final(self)@ == emit_spec(ast.exps@, Pend::NoRun, old(self)@),
            final(self)@.wf(),
        decreases seq_size(ast.exps@), 0int,
    {
        let ghost g0 = self@;
        let ghost es = ast.exps@;
        proof {
            lemma_seq_size_ge_len(es);
        }
        let mut i: usize = 0;
        let mut run_op = RunOp::Right;
        let mut run_n: u64 = 0;
        assert(es.skip(0) =~= es);
        while i < ast.exps.len()
            invariant
                i <= es.len(),
                es == ast.exps@,
                run_n <= i,
                es.len() <= seq_size(es) <= MAX_PROGRAM_SIZE,
                self@.wf(),
                emit_spec(es.skip(i as int), pend_of(run_op, run_n), self@)
                    == emit_spec(es, Pend::NoRun, g0),
            decreases es.len() - i,
        {
            proof {
                lemma_skip_step(es, i as int);
                lemma_seq_size_skip_le(es, i as int);
            }
            let ghost pend0 = pend_of(run_op, run_n);
            let ghost gpre = self@;
            let e = &ast.exps[i];
            match e {
                Exp::Output => {
                    self.flush_run(run_op, run_n);
                    run_n = 0;
                    self.build_put();
                },
                Exp::Input => {
                    self.flush_run(run_op, run_n);
                    run_n = 0;
                    self.build_get();
                },
                Exp::Loop { body } => {
                    proof {
                        assert(seq_size(es.skip(i as int))
                            == es[i as int].size() + seq_size(es.skip(i as int).drop_first()));
                        assert(es[i as int].size() == 1 + seq_size(body.exps@));
                    }
                    self.flush_run(run_op, run_n);
                    run_n = 0;
                    self.build_while(body);
                },
                _ => {
                    let k = match e {
                        Exp::Left => RunOp::Left,
                        Exp::Right => RunOp::Right,
                        Exp::Increment => RunOp::Increment,
                        _ => RunOp::Decrement,
                    };
                    assert(k == run_kind(es[i as int]));
                    if run_n > 0 && k == run_op {
                        run_n = run_n + 1;
                    } else {
                        self.flush_run(run_op, run_n);
                        run_op = k;
                        run_n = 1;
                    }
                },
            }
            i = i + 1;
            assert(emit_spec(es.skip(i as int), pend_of(run_op, run_n), self@)
                == emit_spec(es.skip(i - 1), pend0, gpre));
        }
        assert(es.skip(i as int) =~= Seq::<Exp>::empty());
        self.flush_run(run_op, run_n);
    }

    /// Lowers one loop: seals the running block with a jump to START, builds
    /// the START/BODY/END triple — START tests the addressed cell and
    /// branches to BODY or END — emits the body into BODY, jumps back to
    /// START after it, and leaves the cursor at END.
    pub fn build_while(&mut self, exps: &SeqExp)
        requires
            old(self)@.wf(),
            seq_size(exps.exps@) <= MAX_PROGRAM_SIZE,
        ensures
            ({
                let g1 = old(self)@;
                let s = g1.blocks.len() as int;
                let blocks2 = g1.seal(TermV::Jump { target: s }).blocks
                    .push(BlockV {
                        ops: Seq::empty(),
                        term: TermV::Branch { body: s + 1, end: s + 2 },
                    })
                    .push(BlockV { ops: Seq::empty(), term: TermV::Open })
                    .push(BlockV { ops: Seq::empty(), term: TermV::Open });
                let g3 = emit_spec(exps.exps@, Pend::NoRun, GenV { blocks: blocks2, cur: s + 1 });
                final(self)@ == GenV { blocks: g3.seal(TermV::Jump { target: s }).blocks, cur: s + 2 }
            }),
            final(self)@.wf(),
        decreases seq_size(exps.exps@), 1int,
    {
        let s = self.blocks.len();
        self.seal(Terminator::Jump { target: s });
        self.blocks.push(Block { ops: Vec::new(), term: Terminator::Open });
        self.blocks.push(Block { ops: Vec::new(), term: Terminator::Open });
        self.blocks.push(Block { ops: Vec::new(), term: Terminator::Open });
        let e = self.blocks.len() - 1;
        let b = e - 1;
        let start = &mut self.blocks[s];
        start.term = Terminator::Branch { body: b, end: e };
        self.cur = b;
        let ghost g_body_in = self@;
        proof {
            let g1 = old(self)@;
            let si = g1.blocks.len() as int;
            let blocks2 = g1.seal(TermV::Jump { target: si }).blocks
                .push(BlockV {
                    ops: Seq::empty(),
                    term: TermV::Branch { body: si + 1, end: si + 2 },
                })
                .push(BlockV { ops: Seq::empty(), term: TermV::Open })
                .push(BlockV { ops: Seq::empty(), term: TermV::Open });
            assert(g_body_in =~~= GenV { blocks: blocks2, cur: si + 1 });
        }
        proof {
            lemma_emit_frame(exps.exps@, Pend::NoRun, g_body_in);
        }
        self.handle_exps(exps);
        self.seal(Terminator::Jump { target: s });
        self.cur = e;
        assert(self@.blocks =~~= emit_spec(exps.exps@, Pend::NoRun, g_body_in)
            .seal(TermV::Jump { target: s as int }).blocks);
        proof {
            let g3 = emit_spec(exps.exps@, Pend::NoRun, g_body_in);
            assert(g3.cur != s + 2);
            assert(self@.blocks[s + 2int] == g_body_in.blocks[s + 2int]);
        }
    }

    /// The whole generation pass: entry block, tape allocation, the emitted
    /// program, the tape free, and the return of zero. Exactly one allocate
    /// and one free operation stand in the result, on every path.
    pub fn compile(&mut self, ast: &SeqExp)
        requires
            old(self)@.blocks.len() == 0,
            seq_size(ast.exps@) <= MAX_PROGRAM_SIZE,
        ensures
            final(self)@.blocks == spec_compile(ast.exps@),
    {
        self.build_main();
        self.init_pointers();
        assert(self@ =~~= init_gen());
        self.handle_exps(ast);
        self.build_free();
        self.return_zero();
        assert(self@.blocks =~~= spec_compile(ast.exps@));
    }
}

} // verus!
