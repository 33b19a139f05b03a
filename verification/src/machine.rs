use vstd::prelude::*;
use vstd::arithmetic::div_mod::{lemma_small_mod, lemma_mod_self_0, lemma_mod_add_multiples_vanish};
use crate::compiler::{Op, Block, Terminator};
use crate::semantics::{Mach, op_step, run_ops, run_blocks, move_ptr, add_data, put_byte,
    get_byte_store, lemma_move_compose, lemma_add_compose};

verus! {

/// The concrete machine that executes a generated module: the compiled
/// semantics made runnable, so that generated code can be exercised without
/// a native toolchain.
pub struct MachExec {
    pub tape: Vec<u8>,
    pub pos: usize,
    pub inp: Vec<u8>,
    pub icur: usize,
    pub out: Vec<u8>,
}

impl View for MachExec {
    type V = Mach;

    open spec fn view(&self) -> Mach {
        Mach {
            tape: self.tape@,
            pos: self.pos as int,
            inp: self.inp@,
            icur: self.icur as int,
            out: self.out@,
        }
    }
}

/// One pointer step right, wrapping within the tape.
fn step_right(m: &mut MachExec)
    requires
        old(m)@.wf(),
    ensures
        final(m)@ == move_ptr(old(m)@, 1),
        final(m)@.wf(),
        final(m).tape@.len() == old(m).tape@.len(),
{
    let len = m.tape.len();
    let ghost l = len as int;
    if m.pos + 1 == len {
        m.pos = 0;
        proof {
            lemma_mod_self_0(l);
            assert((old(m)@.pos + 1) % l == 0);
        }
    } else {
        m.pos = m.pos + 1;
        proof {
            lemma_small_mod((old(m)@.pos + 1) as nat, l as nat);
        }
    }
    assert(m@ =~~= move_ptr(old(m)@, 1));
}

/// One pointer step left, wrapping within the tape.
fn step_left(m: &mut MachExec)
    requires
        old(m)@.wf(),
    ensures
        final(m)@ == move_ptr(old(m)@, -1),
        final(m)@.wf(),
        final(m).tape@.len() == old(m).tape@.len(),
{
    let len = m.tape.len();
    let ghost l = len as int;
    if m.pos == 0 {
        m.pos = len - 1;
        proof {
            lemma_mod_add_multiples_vanish(-1, l);
            lemma_small_mod((l - 1) as nat, l as nat);
            assert((0 - 1) % l == l - 1);
        }
    } else {
        m.pos = m.pos - 1;
        proof {
            lemma_small_mod((old(m)@.pos - 1) as nat, l as nat);
        }
    }
    assert(m@ =~~= move_ptr(old(m)@, -1));
}

/// Run one generated operation on the concrete machine.
pub fn step_op(m: &mut MachExec, op: Op)
    requires
        old(m)@.wf(),
    ensures
        final(m)@ == op_step(op, old(m)@),
        final(m)@.wf(),
        final(m).tape@.len() == old(m).tape@.len(),
{
    let ghost m0 = m@;
    match op {
        Op::AddPtr { delta } => {
            let steps: u64 = if delta >= 0 {
                delta as u64
            } else if delta == -0x7fff_ffff_ffff_ffff - 1 {
                0x8000_0000_0000_0000u64
            } else {
                (-delta) as u64
            };
            let ghost dir: int = if delta >= 0 { 1int } else { -1int };
            assert(delta as int == dir * steps);
            proof {
                lemma_small_mod(m0.pos as nat, m0.tape.len() as nat);
                assert(m@ =~~= move_ptr(m0, 0));
            }
            let mut j: u64 = 0;
            while j < steps
                invariant
                    j <= steps,
                    m@.wf(),
                    m.tape@.len() == m0.tape.len(),
                    m0.wf(),
                    delta >= 0 ==> dir == 1,
                    delta < 0 ==> dir == -1,
                    dir * steps == delta as int,
                    m@ == move_ptr(m0, dir * j),
                decreases steps - j,
            {
                let ghost m_prev = m@;
                if delta >= 0 {
                    step_right(m);
                } else {
                    step_left(m);
                }
                proof {
                    lemma_move_compose(m0, dir * j, dir);
                    assert(dir * (j + 1) == dir * j + dir) by (nonlinear_arith);
                }
                j = j + 1;
            }
            assert(m@ == move_ptr(m0, delta as int));
        },
        Op::AddData { delta } => {
            let steps: u64 = if delta >= 0 {
                delta as u64
            } else if delta == -0x7fff_ffff_ffff_ffff - 1 {
                0x8000_0000_0000_0000u64
            } else {
                (-delta) as u64
            };
            let ghost dir: int = if delta >= 0 { 1int } else { -1int };
            assert(delta as int == dir * steps);
            proof {
                assert(m0.tape.update(m0.pos, m0.tape[m0.pos]) =~= m0.tape);
                assert(m@ =~~= add_data(m0, 0));
            }
            let mut j: u64 = 0;
            while j < steps
                invariant
                    j <= steps,
                    m@.wf(),
                    m.tape@.len() == m0.tape.len(),
                    m.pos < m.tape@.len(),
                    m0.wf(),
                    delta >= 0 ==> dir == 1,
                    delta < 0 ==> dir == -1,
                    dir * steps == delta as int,
                    m@ == add_data(m0, dir * j),
                decreases steps - j,
            {
                let ghost m_prev = m@;
                let i = m.pos;
                let c = m.tape[i];
                if delta >= 0 {
                    m.tape[i] = if c == 255 { 0 } else { c + 1 };
                    assert(m@ =~~= add_data(m_prev, 1));
                } else {
                    m.tape[i] = if c == 0 { 255 } else { c - 1 };
                    assert(m@ =~~= add_data(m_prev, -1));
                }
                proof {
                    lemma_add_compose(m0, dir * j, dir);
                    assert(dir * (j + 1) == dir * j + dir) by (nonlinear_arith);
                }
                j = j + 1;
            }
            assert(m@ == add_data(m0, delta as int));
        },
        Op::Put => {
            let i = m.pos;
            let b = m.tape[i];
            m.out.push(b);
            assert(m@ =~~= put_byte(m0));
        },
        Op::Get => {
            if m.icur < m.inp.len() {
                let b = m.inp[m.icur];
                m.icur = m.icur + 1;
                let i = m.pos;
                m.tape[i] = b;
            } else {
                let i = m.pos;
                m.tape[i] = 255;
            }
            assert(m@ =~~= get_byte_store(m0));
        },
        Op::Alloc => {
            let len = m.tape.len();
            let mut fresh: Vec<u8> = Vec::new();
            let mut i: usize = 0;
            while i < len
                invariant
                    i <= len,
                    fresh@.len() == i,
                    forall|j: int| 0 <= j < i ==> fresh@[j] == 0u8,
                decreases len - i,
            {
                fresh.push(0);
                i = i + 1;
            }
            assert(fresh@ =~= Seq::new(m0.tape.len(), |j: int| 0u8));
            m.tape = fresh;
            m.pos = 0;
            assert(m@ =~~= op_step(Op::Alloc, m0));
        },
        Op::Free => {},
    }
}

/// Execute a generated module from its entry block on the given input,
/// with a zeroed tape of `tape_len` cells and a budget of `fuel` taken
/// branches: `Some` carries the bytes written when the run returned within
/// the budget, `None` says the budget ran out (or control reached a block
/// that generation never finished, which no finished module holds).
pub fn exec_module(blocks: &Vec<Block>, stream: Vec<u8>, tape_len: usize, fuel: u64) -> (r:
    Option<Vec<u8>>)
    requires
        tape_len >= 1,
    ensures
        ({
            let bs = blocks@.map_values(|b: Block| b@);
            let res = run_blocks(bs, 0, Mach::init(tape_len as nat, stream@), fuel as nat);
            match r {
                Some(out) => res matches Some(mr) && mr.out == out@,
                None => res is None,
            }
        }),
{
    let ghost bs = blocks@.map_values(|b: Block| b@);
    let mut tape: Vec<u8> = Vec::new();
    let mut i: usize = 0;
    while i < tape_len
        invariant
            i <= tape_len,
            tape@.len() == i,
            forall|j: int| 0 <= j < i ==> tape@[j] == 0u8,
        decreases tape_len - i,
    {
        tape.push(0);
        i = i + 1;
    }
    assert(tape@ =~= Seq::new(tape_len as nat, |j: int| 0u8));
    let mut m = MachExec { tape, pos: 0, inp: stream, icur: 0, out: Vec::new() };
    let ghost m_init = Mach::init(tape_len as nat, m.inp@);
    assert(m@ =~~= m_init);
    let mut cur: usize = 0;
    let mut f = fuel;
    loop
        invariant
            m@.wf(),
            m.tape@.len() == tape_len,
            bs == blocks@.map_values(|b: Block| b@),
            m_init == Mach::init(tape_len as nat, stream@),
            run_blocks(bs, 0, m_init, fuel as nat)
                == run_blocks(bs, cur as int, m@, f as nat),
        decreases f,
    {
        assert(bs.len() == blocks@.len());
        if cur >= blocks.len() {
            assert(run_blocks(bs, cur as int, m@, f as nat) is None);
            return None;
        }
        let ghost m_entry = m@;
        assert(bs[cur as int].term == blocks@[cur as int].term@);
        let ghost ops = bs[cur as int].ops;
        let mut k: usize = 0;
        assert(ops.skip(0) =~= ops);
        while k < blocks[cur].ops.len()
            invariant
                m@.wf(),
                m.tape@.len() == tape_len,
                bs == blocks@.map_values(|b: Block| b@),
                cur < blocks@.len(),
                ops == bs[cur as int].ops,
                k <= ops.len(),
                run_ops(ops.skip(k as int), m@) == run_ops(ops, m_entry),
            decreases ops.len() - k,
        {
            assert(ops.skip(k as int)[0] == ops[k as int]);
            assert(ops.skip(k as int).drop_first() =~= ops.skip(k + 1));
            let op = blocks[cur].ops[k];
            step_op(&mut m, op);
            k = k + 1;
        }
        assert(ops.skip(k as int) =~= Seq::<Op>::empty());
        assert(m@ == run_ops(ops, m_entry));
        match blocks[cur].term {
            Terminator::Ret => {
                assert(run_blocks(bs, cur as int, m_entry, f as nat) == Some(m@));
                return Some(m.out);
            },
            Terminator::Open => {
                assert(run_blocks(bs, cur as int, m_entry, f as nat) is None);
                return None;
            },
            Terminator::Jump { target } => {
                if f == 0 {
                    assert(run_blocks(bs, cur as int, m_entry, f as nat) is None);
                    return None;
                }
                assert(run_blocks(bs, cur as int, m_entry, f as nat)
                    == run_blocks(bs, target as int, m@, (f - 1) as nat));
                f = f - 1;
                cur = target;
            },
            Terminator::Branch { body, end } => {
                if f == 0 {
                    assert(run_blocks(bs, cur as int, m_entry, f as nat) is None);
                    return None;
                }
                let i2 = m.pos;
                if m.tape[i2] != 0 {
                    assert(m@.cell() != 0);
                    assert(run_blocks(bs, cur as int, m_entry, f as nat)
                        == run_blocks(bs, body as int, m@, (f - 1) as nat));
                    f = f - 1;
                    cur = body;
                } else {
                    assert(m@.cell() == 0);
                    assert(run_blocks(bs, cur as int, m_entry, f as nat)
                        == run_blocks(bs, end as int, m@, (f - 1) as nat));
                    f = f - 1;
                    cur = end;
                }
            },
        }
    }
}

} // verus!
