use vstd::prelude::*;

verus! {

/// One instruction of the tape-machine language: four pointer/cell steps,
/// the two byte-stream primitives, and the zero-test loop.
#[derive(Debug)]
pub enum Exp {
    Left,
    Right,
    Increment,
    Decrement,
    Input,
    Output,
    Loop { body: SeqExp },
}

/// An ordered sequence of instructions; the order is the execution order.
#[derive(Debug)]
pub struct SeqExp {
    pub exps: Vec<Exp>,
}

impl Exp {
    /// Number of instruction nodes in this instruction, loop bodies included.
    pub open spec fn size(self) -> nat
        decreases self,
    {
        match self {
            Exp::Loop { body } => 1 + seq_size(body.exps@),
            _ => 1,
        }
    }

    /// The four instructions that fold into runs.
    pub open spec fn is_simple(self) -> bool {
        self is Left || self is Right || self is Increment || self is Decrement
    }
}

/// Number of instruction nodes in a sequence, loop bodies included.
pub open spec fn seq_size(es: Seq<Exp>) -> nat
    decreases es,
{
    if es.len() == 0 {
        0
    } else {
        es[0].size() + seq_size(es.drop_first())
    }
}

/// True when the sequence holds no loop, at any position.
pub open spec fn loop_free(es: Seq<Exp>) -> bool
    decreases es,
{
    if es.len() == 0 {
        true
    } else {
        !(es[0] is Loop) && loop_free(es.drop_first())
    }
}

/// Number of loop nodes in a sequence, nested loops included.
pub open spec fn loop_count(es: Seq<Exp>) -> nat
    decreases es,
{
    if es.len() == 0 {
        0
    } else {
        (match es[0] {
            Exp::Loop { body } => 1 + loop_count(body.exps@),
            _ => 0,
        }) + loop_count(es.drop_first())
    }
}

/// A sequence holds at least as many nodes as it has elements.
pub proof fn lemma_seq_size_ge_len(es: Seq<Exp>)
    ensures
        seq_size(es) >= es.len(),
    decreases es.len(),
{
    if es.len() > 0 {
        lemma_seq_size_ge_len(es.drop_first());
        assert(es[0].size() >= 1);
        assert(seq_size(es) == es[0].size() + seq_size(es.drop_first()));
    }
}

/// Dropping a prefix never grows the node count.
pub proof fn lemma_seq_size_skip_le(es: Seq<Exp>, i: int)
    requires
        0 <= i <= es.len(),
    ensures
        seq_size(es.skip(i)) <= seq_size(es),
    decreases i,
{
    if i == 0 {
        assert(es.skip(0) =~= es);
    } else {
        lemma_seq_size_skip_le(es, i - 1);
        assert(es.skip(i - 1).drop_first() =~= es.skip(i));
        assert(seq_size(es.skip(i - 1)) == es.skip(i - 1)[0].size() + seq_size(es.skip(i)));
    }
}

/// Stepping the cursor by one is the same as dropping the head of the tail.
pub proof fn lemma_skip_step(es: Seq<Exp>, i: int)
    requires
        0 <= i < es.len(),
    ensures
        es.skip(i).drop_first() =~= es.skip(i + 1),
        es.skip(i)[0] == es[i],
        es.skip(i).len() == es.len() - i,
{
}

/// The source text an instruction renders back to: one operator character
/// per node — a write followed by a newline — and brackets around each loop
/// body.
pub open spec fn bytes_of_exp(e: Exp) -> Seq<u8>
    decreases e,
{
    match e {
        Exp::Left => seq![60u8],
        Exp::Right => seq![62u8],
        Exp::Increment => seq![43u8],
        Exp::Decrement => seq![45u8],
        Exp::Output => seq![46u8, 10u8],
        Exp::Input => seq![44u8],
        Exp::Loop { body } => seq![91u8] + bytes_of_exps(body.exps@) + seq![93u8],
    }
}

/// The source text a sequence renders back to.
pub open spec fn bytes_of_exps(es: Seq<Exp>) -> Seq<u8>
    decreases es,
{
    if es.len() == 0 {
        Seq::empty()
    } else {
        bytes_of_exp(es[0]) + bytes_of_exps(es.drop_first())
    }
}

proof fn lemma_bytes_take_step(es: Seq<Exp>, i: int)
    requires
        0 <= i < es.len(),
    ensures
        bytes_of_exps(es.take(i + 1)) == bytes_of_exps(es.take(i)) + bytes_of_exp(es[i]),
    decreases i,
{
    if i == 0 {
        assert(es.take(1)[0] == es[0]);
        assert(es.take(1).drop_first() =~= Seq::<Exp>::empty());
        assert(es.take(0) =~= Seq::<Exp>::empty());
        assert(bytes_of_exps(es.take(1)) =~= bytes_of_exps(es.take(0)) + bytes_of_exp(es[0]));
    } else {
        lemma_bytes_take_step(es.drop_first(), i - 1);
        assert(es.take(i + 1)[0] == es[0]);
        assert(es.take(i + 1).drop_first() =~= es.drop_first().take(i));
        assert(es.take(i)[0] == es[0]);
        assert(es.take(i).drop_first() =~= es.drop_first().take(i - 1));
        assert(es.drop_first()[i - 1] == es[i]);
        assert(bytes_of_exps(es.take(i + 1)) =~= bytes_of_exps(es.take(i)) + bytes_of_exp(es[i]));
    }
}

impl Exp {
    /// Append this instruction's source text to `out`.
    pub fn render(&self, out: &mut Vec<u8>)
        ensures
            final(out)@ == old(out)@ + bytes_of_exp(*self),
        decreases *self,
    {
        let ghost o0 = out@;
        match self {
            Exp::Left => {
                out.push(60);
            },
            Exp::Right => {
                out.push(62);
            },
            Exp::Increment => {
                out.push(43);
            },
            Exp::Decrement => {
                out.push(45);
            },
            Exp::Output => {
                out.push(46);
                out.push(10);
            },
            Exp::Input => {
                out.push(44);
            },
            Exp::Loop { body } => {
                proof {
                    assert(*self == (Exp::Loop { body: *body }));
                }
                out.push(91);
                body.render(out);
                out.push(93);
            },
        }
        assert(out@ =~= o0 + bytes_of_exp(*self));
    }
}

impl SeqExp {
    /// An empty instruction sequence.
    pub fn new() -> (r: SeqExp)
        ensures
            r.exps@ =~= Seq::<Exp>::empty(),
    {
        SeqExp { exps: Vec::new() }
    }

    /// Append this sequence's source text to `out`, in order.
    pub fn render(&self, out: &mut Vec<u8>)
        ensures
            final(out)@ == old(out)@ + bytes_of_exps(self.exps@),
        decreases *self,
    {
        let ghost o0 = out@;
        let ghost es = self.exps@;
        let mut i: usize = 0;
        assert(es.take(0) =~= Seq::<Exp>::empty());
        assert(out@ =~= o0 + bytes_of_exps(es.take(0)));
        while i < self.exps.len()
            invariant
                es == self.exps@,
                i <= es.len(),
                out@ == o0 + bytes_of_exps(es.take(i as int)),
            decreases es.len() - i,
        {
            proof {
                lemma_bytes_take_step(es, i as int);
            }
            self.exps[i].render(out);
            i = i + 1;
        }
        assert(es.take(i as int) =~= es);
    }
}

impl Default for SeqExp {
    fn default() -> (r: SeqExp)
        ensures
            r.exps@ =~= Seq::<Exp>::empty(),
    {
        SeqExp { exps: Vec::new() }
    }
}

} // verus!
