use vstd::prelude::*;
use vstd::math::min;
use crate::ast::{Exp, SeqExp};
use crate::operators::{left, right, increment, decrement, output, input};
use crate::semantics::{Mach, move_ptr, add_data, put_byte, get_byte_keep, run_exp_spec,
    run_seq_spec, lemma_run_exp_fuel, lemma_run_seq_fuel};

verus! {

/// The reference interpreter's store: a strip of 256 byte cells and the
/// cell pointer, which wraps within the strip. (The compiled tape is larger
/// — 30,000 cells — which is the documented tape-size divergence between
/// the two.)
pub struct State {
    pub strip: Vec<u8>,
    pub position: u8,
}

impl State {
    pub open spec fn wf(self) -> bool {
        self.strip@.len() == 256
    }
}

impl Default for State {
    /// A zeroed strip with the pointer at its base.
    fn default() -> (r: State)
        ensures
            r.wf(),
            r.position == 0,
            r.strip@ =~= Seq::new(256, |i: int| 0u8),
    {
        let mut strip: Vec<u8> = Vec::new();
        let mut i: usize = 0;
        while i < 256
            invariant
                i <= 256,
                strip@.len() == i,
                forall|j: int| 0 <= j < i ==> strip@[j] == 0u8,
            decreases 256 - i,
        {
            strip.push(0);
            i = i + 1;
        }
        assert(strip@ =~= Seq::new(256, |j: int| 0u8));
        State { strip, position: 0 }
    }
}

/// The byte streams an interpretation works on: the input, how much of it
/// was consumed, and everything written so far.
pub struct Io {
    pub input: Vec<u8>,
    pub cursor: usize,
    pub output: Vec<u8>,
}

impl Io {
    pub open spec fn wf(self) -> bool {
        self.cursor <= self.input@.len()
    }
}

/// The abstract machine that a store and its streams form.
pub open spec fn mach_of(state: State, io: Io) -> Mach {
    Mach {
        tape: state.strip@,
        pos: state.position as int,
        inp: io.input@,
        icur: io.cursor as int,
        out: io.output@,
    }
}

/// Interpret one instruction. `fuel` bounds loop iterations; the unspent
/// budget comes back in `Some`, and `None` says the budget ran out.
pub fn run_exp(node: &Exp, state: &mut State, io: &mut Io, fuel: u64) -> (r: Option<u64>)
    requires
        old(state).wf(),
        old(io).wf(),
    ensures
        final(state).wf(),
        final(io).wf(),
        match r {
            Some(f2) => run_exp_spec(*node, mach_of(*old(state), *old(io)), fuel as nat)
                == Some((mach_of(*final(state), *final(io)), f2 as nat)),
            None => run_exp_spec(*node, mach_of(*old(state), *old(io)), fuel as nat) is None,
        },
    decreases *node,
{
    let ghost m0 = mach_of(*state, *io);
    match node {
        Exp::Left => {
            left(state);
            assert(mach_of(*state, *io) =~~= move_ptr(m0, -1));
            Some(fuel)
        },
        Exp::Right => {
            right(state);
            assert(mach_of(*state, *io) =~~= move_ptr(m0, 1));
            Some(fuel)
        },
        Exp::Increment => {
            increment(state);
            assert(mach_of(*state, *io) =~~= add_data(m0, 1));
            Some(fuel)
        },
        Exp::Decrement => {
            decrement(state);
            assert(mach_of(*state, *io) =~~= add_data(m0, -1));
            Some(fuel)
        },
        Exp::Output => {
            output(state, io);
            assert(mach_of(*state, *io) =~~= put_byte(m0));
            Some(fuel)
        },
        Exp::Input => {
            input(state, io);
            assert(mach_of(*state, *io) =~~= get_byte_keep(m0));
            Some(fuel)
        },
        Exp::Loop { body } => {
            let mut f = fuel;
            loop
                invariant
                    state.wf(),
                    io.wf(),
                    f <= fuel,
                    *node == (Exp::Loop { body: *body }),
                    m0 == mach_of(*old(state), *old(io)),
                    run_exp_spec(*node, m0, fuel as nat)
                        == run_exp_spec(*node, mach_of(*state, *io), f as nat),
                decreases f,
            {
                let i = state.position as usize;
                if state.strip[i] == 0 {
                    assert(mach_of(*state, *io).cell() == 0);
                    assert(run_exp_spec(*node, mach_of(*state, *io), f as nat)
                        == Some((mach_of(*state, *io), f as nat)));
                    return Some(f);
                }
                if f == 0 {
                    return None;
                }
                f = f - 1;
                let ghost m_iter = mach_of(*state, *io);
                proof {
                    assert(*node == (Exp::Loop { body: *body }));
                }
                let r = run_seq_exp(body, state, io, f);
                proof {
                    lemma_run_seq_fuel(body.exps@, m_iter, f as nat);
                }
                match r {
                    None => {
                        return None;
                    },
                    Some(f2) => {
                        assert(min(f2 as int, f as int) == f2 as int);
                        f = f2;
                    },
                }
            }
        },
    }
}

/// Interpret a sequence of instructions, in order, under the same budget
/// discipline as `run_exp`.
pub fn run_seq_exp(node: &SeqExp, state: &mut State, io: &mut Io, fuel: u64) -> (r: Option<u64>)
    requires
        old(state).wf(),
        old(io).wf(),
    ensures
        final(state).wf(),
        final(io).wf(),
        match r {
            Some(f2) => run_seq_spec(node.exps@, mach_of(*old(state), *old(io)), fuel as nat)
                == Some((mach_of(*final(state), *final(io)), f2 as nat)),
            None => run_seq_spec(node.exps@, mach_of(*old(state), *old(io)), fuel as nat) is None,
        },
    decreases *node,
{
    let ghost m0 = mach_of(*state, *io);
    let ghost es = node.exps@;
    let mut f = fuel;
    let mut i: usize = 0;
    assert(es.skip(0) =~= es);
    while i < node.exps.len()
        invariant
            old(state).wf(),
            old(io).wf(),
            state.wf(),
            io.wf(),
            i <= es.len(),
            es == node.exps@,
            m0 == mach_of(*old(state), *old(io)),
            run_seq_spec(es, m0, fuel as nat)
                == run_seq_spec(es.skip(i as int), mach_of(*state, *io), f as nat),
        decreases es.len() - i,
    {
        let ghost m_iter = mach_of(*state, *io);
        assert(es.skip(i as int)[0] == es[i as int]);
        assert(es.skip(i as int).drop_first() =~= es.skip(i + 1));
        let r = run_exp(&node.exps[i], state, io, f);
        proof {
            lemma_run_exp_fuel(es[i as int], m_iter, f as nat);
        }
        match r {
            None => {
                assert(run_seq_spec(es.skip(i as int), m_iter, f as nat) is None);
                assert(run_seq_spec(es, m0, fuel as nat) is None);
                return None;
            },
            Some(f2) => {
                assert(min(f2 as int, f as int) == f2 as int);
                f = f2;
            },
        }
        i = i + 1;
    }
    assert(es.skip(i as int) =~= Seq::<Exp>::empty());
    Some(f)
}

/// Interpret a whole program on the given input, from a zeroed strip, with
/// a budget of `fuel` loop iterations: `Some` carries the bytes written
/// when interpretation finished within the budget, `None` says it did not.
pub fn run(ast: &SeqExp, stream: Vec<u8>, fuel: u64) -> (r: Option<Vec<u8>>)
    ensures
        ({
            let res = run_seq_spec(ast.exps@, Mach::init(256, stream@), fuel as nat);
            match r {
                Some(out) => res matches Some(p) && p.0.out == out@,
                None => res is None,
            }
        }),
{
    let mut state = State::default();
    let mut io = Io { input: stream, cursor: 0, output: Vec::new() };
    assert(mach_of(state, io) =~~= Mach::init(256, io.input@));
    let r = run_seq_exp(ast, &mut state, &mut io, fuel);
    match r {
        Some(_) => Some(io.output),
        None => None,
    }
}

} // verus!
