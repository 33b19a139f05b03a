use vstd::prelude::*;
use vstd::math::min;
use vstd::arithmetic::div_mod::{lemma_add_mod_noop, lemma_add_mod_noop_right, lemma_mod_twice};
use crate::ast::{Exp, SeqExp};
use crate::compiler::{Op, TermV, BlockV, RunOp, run_delta_op, MAX_PROGRAM_SIZE};

verus! {

/// The abstract machine shared by direct interpretation and by the
/// semantics of the generated code: a tape of byte cells, the cell pointer,
/// the not-yet-consumed part of the input stream, and the written output.
#[verifier::ext_equal]
pub struct Mach {
    pub tape: Seq<u8>,
    pub pos: int,
    pub inp: Seq<u8>,
    pub icur: int,
    pub out: Seq<u8>,
}

impl Mach {
    pub open spec fn wf(self) -> bool {
        &&& self.tape.len() >= 1
        &&& 0 <= self.pos < self.tape.len()
        &&& 0 <= self.icur <= self.inp.len()
    }

    /// The addressed cell.
    pub open spec fn cell(self) -> u8 {
        self.tape[self.pos]
    }

    /// A fresh machine: a zero-filled tape of `len` cells, the pointer at
    /// the base, the whole input still pending, nothing written.
    pub open spec fn init(len: nat, inp: Seq<u8>) -> Mach {
        Mach { tape: Seq::new(len, |i: int| 0u8), pos: 0, inp, icur: 0, out: Seq::empty() }
    }
}

/// A byte plus a signed amount, with 8-bit wraparound.
pub open spec fn wrap8(c: u8, d: int) -> u8 {
    ((c + d) % 256) as u8
}

/// The pointer moved by `d`, wrapping within the tape. Wraparound modulo
/// the tape length is the one canonical pointer policy of this crate; the
/// tape length itself differs between the reference interpreter (256
/// positions) and the compiled tape (30,000 cells).
pub open spec fn move_ptr(m: Mach, d: int) -> Mach {
    Mach { pos: (m.pos + d) % (m.tape.len() as int), ..m }
}

/// The addressed cell changed by `d`, with 8-bit wraparound.
pub open spec fn add_data(m: Mach, d: int) -> Mach {
    Mach { tape: m.tape.update(m.pos, wrap8(m.tape[m.pos], d)), ..m }
}

/// One byte written: exactly the addressed cell's value.
pub open spec fn put_byte(m: Mach) -> Mach {
    Mach { out: m.out.push(m.cell()), ..m }
}

/// One byte read as the interpreter does it: at end of stream no write
/// happens and the cell keeps its value.
pub open spec fn get_byte_keep(m: Mach) -> Mach {
    if m.icur < m.inp.len() {
        Mach { tape: m.tape.update(m.pos, m.inp[m.icur]), icur: m.icur + 1, ..m }
    } else {
        m
    }
}

/// One byte read as the compiled code does it: the read primitive's result
/// is truncated to a byte and stored unconditionally, so the end-of-stream
/// marker -1 stores 255. This is the one documented divergence from the
/// interpreter's end-of-stream behaviour.
pub open spec fn get_byte_store(m: Mach) -> Mach {
    if m.icur < m.inp.len() {
        Mach { tape: m.tape.update(m.pos, m.inp[m.icur]), icur: m.icur + 1, ..m }
    } else {
        Mach { tape: m.tape.update(m.pos, 255u8), ..m }
    }
}

/// Direct interpretation of one instruction. The budget `fuel` bounds loop
/// iterations: every re-test of a loop guard after entry costs one unit,
/// `None` means the budget ran out, and the unspent budget is returned.
/// The guard is tested before every iteration, the first included.
pub open spec fn run_exp_spec(e: Exp, m: Mach, fuel: nat) -> Option<(Mach, nat)>
    decreases fuel, e,
{
    match e {
        Exp::Left => Some((move_ptr(m, -1), fuel)),
        Exp::Right => Some((move_ptr(m, 1), fuel)),
        Exp::Increment => Some((add_data(m, 1), fuel)),
        Exp::Decrement => Some((add_data(m, -1), fuel)),
        Exp::Output => Some((put_byte(m), fuel)),
        Exp::Input => Some((get_byte_keep(m), fuel)),
        Exp::Loop { body } => {
            if m.cell() == 0 {
                Some((m, fuel))
            } else if fuel == 0 {
                None
            } else {
                match run_seq_spec(body.exps@, m, (fuel - 1) as nat) {
                    None => None,
                    Some((m2, f2)) => run_exp_spec(e, m2, min(f2 as int, fuel - 1) as nat),
                }
            }
        },
    }
}

/// Direct interpretation of a sequence, in order.
pub open spec fn run_seq_spec(es: Seq<Exp>, m: Mach, fuel: nat) -> Option<(Mach, nat)>
    decreases fuel, es,
{
    if es.len() == 0 {
        Some((m, fuel))
    } else {
        match run_exp_spec(es[0], m, fuel) {
            None => None,
            Some((m2, f2)) => run_seq_spec(es.drop_first(), m2, min(f2 as int, fuel as int) as nat),
        }
    }
}

/// Interpretation never makes budget: what comes back is at most what went
/// in, so the guards in the definitions above never truncate anything.
pub proof fn lemma_run_exp_fuel(e: Exp, m: Mach, fuel: nat)
    ensures
        run_exp_spec(e, m, fuel) matches Some(r) ==> r.1 <= fuel,
    decreases fuel, e,
{
    match e {
        Exp::Loop { body } => {
            if m.cell() != 0 && fuel > 0 {
                lemma_run_seq_fuel(body.exps@, m, (fuel - 1) as nat);
                match run_seq_spec(body.exps@, m, (fuel - 1) as nat) {
                    Some((m2, f2)) => {
                        lemma_run_exp_fuel(e, m2, min(f2 as int, fuel - 1) as nat);
                    },
                    None => {},
                }
            }
        },
        _ => {},
    }
}

/// See `lemma_run_exp_fuel`.
pub proof fn lemma_run_seq_fuel(es: Seq<Exp>, m: Mach, fuel: nat)
    ensures
        run_seq_spec(es, m, fuel) matches Some(r) ==> r.1 <= fuel,
    decreases fuel, es,
{
    if es.len() > 0 {
        lemma_run_exp_fuel(es[0], m, fuel);
        match run_exp_spec(es[0], m, fuel) {
            Some((m2, f2)) => {
                lemma_run_seq_fuel(es.drop_first(), m2, min(f2 as int, fuel as int) as nat);
            },
            None => {},
        }
    }
}

/// Effect of one generated operation on the machine.
pub open spec fn op_step(op: Op, m: Mach) -> Mach {
    match op {
        Op::AddPtr { delta } => move_ptr(m, delta as int),
        Op::AddData { delta } => add_data(m, delta as int),
        Op::Put => put_byte(m),
        Op::Get => get_byte_store(m),
        Op::Alloc => Mach { tape: Seq::new(m.tape.len(), |i: int| 0u8), pos: 0, ..m },
        Op::Free => m,
    }
}

/// Effect of a block's straight-line operations, in order.
pub open spec fn run_ops(ops: Seq<Op>, m: Mach) -> Mach
    decreases ops,
{
    if ops.len() == 0 {
        m
    } else {
        run_ops(ops.drop_first(), op_step(ops[0], m))
    }
}

/// Execution of the generated module from block `cur`: run the block's
/// operations, then follow its terminator; every taken branch or jump costs
/// one unit of the budget, and `None` means the budget ran out or control
/// reached a block that generation never finished.
pub open spec fn run_blocks(bs: Seq<BlockV>, cur: int, m: Mach, fuel: nat) -> Option<Mach>
    decreases fuel,
{
    if !(0 <= cur < bs.len()) {
        None
    } else {
        let m2 = run_ops(bs[cur].ops, m);
        match bs[cur].term {
            TermV::Ret => Some(m2),
            TermV::Jump { target } => if fuel == 0 {
                None
            } else {
                run_blocks(bs, target, m2, (fuel - 1) as nat)
            },
            TermV::Branch { body, end } => if fuel == 0 {
                None
            } else if m2.cell() != 0 {
                run_blocks(bs, body, m2, (fuel - 1) as nat)
            } else {
                run_blocks(bs, end, m2, (fuel - 1) as nat)
            },
            TermV::Open => None,
        }
    }
}

/// Running concatenated operations is running both parts in order.
pub proof fn lemma_run_ops_append(a: Seq<Op>, b: Seq<Op>, m: Mach)
    ensures
        run_ops(a + b, m) == run_ops(b, run_ops(a, m)),
    decreases a,
{
    if a.len() == 0 {
        assert(a + b =~= b);
    } else {
        assert((a + b).drop_first() =~= a.drop_first() + b);
        lemma_run_ops_append(a.drop_first(), b, op_step(a[0], m));
    }
}

/// Running one operation alone is stepping it.
pub proof fn lemma_run_ops_single(op: Op, m: Mach)
    ensures
        run_ops(seq![op], m) == op_step(op, m),
{
    let s = seq![op];
    assert(s.drop_first() =~= Seq::<Op>::empty());
    assert(run_ops(s, m) == run_ops(s.drop_first(), op_step(s[0], m)));
    assert(run_ops(Seq::<Op>::empty(), op_step(op, m)) == op_step(op, m));
}

/// The generated operations preserve the machine's well-formedness, keep
/// the tape length, and never rewind the input cursor.
pub proof fn lemma_op_step_wf(op: Op, m: Mach)
    requires
        m.wf(),
    ensures
        op_step(op, m).wf(),
        op_step(op, m).tape.len() == m.tape.len(),
        op_step(op, m).inp == m.inp,
        op_step(op, m).icur >= m.icur,
{
}

/// Pointer moves compose by adding their amounts.
pub proof fn lemma_move_compose(m: Mach, a: int, b: int)
    requires
        m.wf(),
    ensures
        move_ptr(move_ptr(m, a), b) == move_ptr(m, a + b),
{
    let len = m.tape.len() as int;
    lemma_add_mod_noop_right((m.pos + a) % len, b, len);
    lemma_add_mod_noop(m.pos + a, b, len);
    lemma_mod_twice(m.pos + a, len);
    assert(move_ptr(move_ptr(m, a), b) =~= move_ptr(m, a + b));
}

/// Cell arithmetic composes by adding its amounts.
pub proof fn lemma_add_compose(m: Mach, a: int, b: int)
    requires
        m.wf(),
    ensures
        add_data(add_data(m, a), b) == add_data(m, a + b),
{
    let c = m.tape[m.pos];
    lemma_add_mod_noop_right((c + a) % 256, b, 256);
    lemma_add_mod_noop(c + a, b, 256);
    lemma_mod_twice(c + a, 256);
    assert(wrap8(wrap8(c, a), b) == wrap8(c, a + b));
    assert(add_data(add_data(m, a), b) =~= add_data(m, a + b));
}

/// The one simple instruction of a run kind.
pub open spec fn simple_exp(r: RunOp) -> Exp {
    match r {
        RunOp::Left => Exp::Left,
        RunOp::Right => Exp::Right,
        RunOp::Increment => Exp::Increment,
        RunOp::Decrement => Exp::Decrement,
    }
}

/// The semantic effect of a pending run of `n` instructions of kind `r`.
pub open spec fn run_effect(r: RunOp, n: int, m: Mach) -> Mach {
    match r {
        RunOp::Left => move_ptr(m, -n),
        RunOp::Right => move_ptr(m, n),
        RunOp::Increment => add_data(m, n),
        RunOp::Decrement => add_data(m, -n),
    }
}

/// The folded operation does exactly what the run it stands for does.
pub proof fn lemma_delta_op_effect(r: RunOp, n: int, m: Mach)
    requires
        1 <= n <= MAX_PROGRAM_SIZE,
    ensures
        op_step(run_delta_op(r, n), m) == run_effect(r, n, m),
{
    assert((n as i64) as int == n);
    assert(((-n) as i64) as int == -n);
}

/// LAW — run folding is observably transparent: interpreting `n` consecutive
/// equal simple instructions reaches exactly the machine that the single
/// folded operation emitted for them produces, for every `n >= 1`, with no
/// budget spent and no possibility of failure.
pub proof fn theorem_fold_transparent(r: RunOp, n: nat, m: Mach, fuel: nat)
    requires
        m.wf(),
        1 <= n <= MAX_PROGRAM_SIZE,
    ensures
        run_seq_spec(Seq::new(n, |i: int| simple_exp(r)), m, fuel)
            == Some((op_step(run_delta_op(r, n as int), m), fuel)),
    decreases n,
{
    let es = Seq::new(n, |i: int| simple_exp(r));
    lemma_delta_op_effect(r, n as int, m);
    let m1 = run_effect(r, 1, m);
    assert(run_exp_spec(es[0], m, fuel) == Some((m1, fuel)));
    assert(m1.wf()) by {
        lemma_delta_op_effect(r, 1, m);
        lemma_op_step_wf(run_delta_op(r, 1), m);
    }
    if n == 1 {
        assert(es.drop_first() =~= Seq::<Exp>::empty());
        assert(run_seq_spec(es.drop_first(), m1, fuel) == Some((m1, fuel)));
        assert(run_seq_spec(es, m, fuel) == Some((m1, fuel)));
    } else {
        assert(es.drop_first() =~= Seq::new((n - 1) as nat, |i: int| simple_exp(r)));
        theorem_fold_transparent(r, (n - 1) as nat, m1, fuel);
        lemma_delta_op_effect(r, (n - 1) as int, m1);
        assert(run_effect(r, (n - 1) as int, m1) == run_effect(r, n as int, m)) by {
            match r {
                RunOp::Left => lemma_move_compose(m, -1, -(n - 1)),
                RunOp::Right => lemma_move_compose(m, 1, n - 1),
                RunOp::Increment => lemma_add_compose(m, 1, n - 1),
                RunOp::Decrement => lemma_add_compose(m, -1, -(n - 1)),
            }
        }
    }
}

/// LAW — a loop whose guard cell is already zero on entry executes its body
/// zero times: the machine and the whole budget come back unchanged.
pub proof fn theorem_loop_guard_zero(body: SeqExp, m: Mach, fuel: nat)
    requires
        m.cell() == 0,
    ensures
        run_exp_spec(Exp::Loop { body }, m, fuel) == Some((m, fuel)),
{
}

} // verus!
