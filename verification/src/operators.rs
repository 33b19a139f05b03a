use vstd::prelude::*;
use crate::runner::{State, Io};

verus! {

/// Move the cell pointer one position left, wrapping within the strip.
pub fn left(state: &mut State)
    requires
        old(state).wf(),
    ensures
        final(state).wf(),
        final(state).strip@ == old(state).strip@,
        final(state).position as int == (old(state).position - 1) % 256,
{
    if state.position == 0 {
        state.position = 255;
    } else {
        state.position = state.position - 1;
    }
}

/// Move the cell pointer one position right, wrapping within the strip.
pub fn right(state: &mut State)
    requires
        old(state).wf(),
    ensures
        final(state).wf(),
        final(state).strip@ == old(state).strip@,
        final(state).position as int == (old(state).position + 1) % 256,
{
    if state.position == 255 {
        state.position = 0;
    } else {
        state.position = state.position + 1;
    }
}

/// Add one to the addressed cell, with 8-bit wraparound.
pub fn increment(state: &mut State)
    requires
        old(state).wf(),
    ensures
        final(state).wf(),
        final(state).position == old(state).position,
        final(state).strip@ == old(state).strip@.update(
            old(state).position as int,
            (((old(state).strip@[old(state).position as int] + 1) % 256) as u8),
        ),
{
    let i = state.position as usize;
    let c = state.strip[i];
    state.strip[i] = if c == 255 { 0 } else { c + 1 };
}

/// Take one from the addressed cell, with 8-bit wraparound.
pub fn decrement(state: &mut State)
    requires
        old(state).wf(),
    ensures
        final(state).wf(),
        final(state).position == old(state).position,
        final(state).strip@ == old(state).strip@.update(
            old(state).position as int,
            (((old(state).strip@[old(state).position as int] - 1) % 256) as u8),
        ),
{
    let i = state.position as usize;
    let c = state.strip[i];
    state.strip[i] = if c == 0 { 255 } else { c - 1 };
}

/// Write the addressed cell's value, one byte, to the output stream.
pub fn output(state: &State, io: &mut Io)
    requires
        state.wf(),
        old(io).wf(),
    ensures
        final(io).wf(),
        final(io).input@ == old(io).input@,
        final(io).cursor == old(io).cursor,
        final(io).output@ == old(io).output@.push(state.strip@[state.position as int]),
{
    let i = state.position as usize;
    let b = state.strip[i];
    io.output.push(b);
}

/// Read one byte from the input stream into the addressed cell; at end of
/// stream no write happens and the cell keeps its value.
pub fn input(state: &mut State, io: &mut Io)
    requires
        old(state).wf(),
        old(io).wf(),
    ensures
        final(state).wf(),
        final(io).wf(),
        final(io).input@ == old(io).input@,
        final(io).output@ == old(io).output@,
        final(state).position == old(state).position,
        old(io).cursor < old(io).input@.len() ==> {
            &&& final(io).cursor == old(io).cursor + 1
            &&& final(state).strip@ == old(state).strip@.update(
                old(state).position as int,
                old(io).input@[old(io).cursor as int],
            )
        },
        old(io).cursor >= old(io).input@.len() ==> {
            &&& final(io).cursor == old(io).cursor
            &&& final(state).strip@ == old(state).strip@
        },
{
    if io.cursor < io.input.len() {
        let b = io.input[io.cursor];
        io.cursor = io.cursor + 1;
        let i = state.position as usize;
        state.strip[i] = b;
    }
}

} // verus!
