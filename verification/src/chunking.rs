//! A stream may be cut into chunks anywhere: the formatter carries its whole
//! state from one chunk to the next, so the cuts leave no trace in the output.

use vstd::prelude::*;
use crate::model::{emit, output, run, step, Cursor, Layout};

verus! {

/// Reading a single byte is one step.
pub proof fn lemma_run_one(c: Cursor, b: u8)
    ensures
        run(c, seq![b]) == step(c, b),
{
    let one = seq![b];
    assert(one.drop_last() =~= Seq::<u8>::empty());
    assert(run(c, one.drop_last()) == c);
}

/// What is emitted for a single byte read on its own.
pub proof fn lemma_output_one(l: Layout, c: Cursor, b: u8)
    ensures
        output(l, c, seq![b]) == emit(l, c, b),
{
    let one = seq![b];
    assert(one.drop_last() =~= Seq::<u8>::empty());
    assert(run(c, one.drop_last()) == c);
    assert(output(l, c, one.drop_last()) =~= Seq::<u8>::empty());
    assert(output(l, c, one) =~= emit(l, c, b));
}

/// Reading `head` and then `tail` ends in the same state as reading the two
/// as one input.
pub proof fn lemma_run_concat(c: Cursor, head: Seq<u8>, tail: Seq<u8>)
    ensures
        run(c, head + tail) == run(run(c, head), tail),
    decreases tail.len(),
{
    if tail.len() == 0 {
        assert(head + tail =~= head);
    } else {
        assert((head + tail).drop_last() =~= head + tail.drop_last());
        lemma_run_concat(c, head, tail.drop_last());
    }
}

/// Chunk independence: formatting `head`, then formatting `tail` from where
/// `head` ended, emits the same bytes as formatting the two as one input.
pub proof fn lemma_output_concat(l: Layout, c: Cursor, head: Seq<u8>, tail: Seq<u8>)
    ensures
        output(l, c, head + tail) == output(l, c, head) + output(l, run(c, head), tail),
    decreases tail.len(),
{
    if tail.len() == 0 {
        assert(head + tail =~= head);
        assert(output(l, c, head) + output(l, run(c, head), tail) =~= output(l, c, head));
    } else {
        assert((head + tail).drop_last() =~= head + tail.drop_last());
        lemma_output_concat(l, c, head, tail.drop_last());
        lemma_run_concat(c, head, tail.drop_last());
        assert(output(l, c, head + tail) =~= output(l, c, head) + output(
            l,
            run(c, head),
            tail,
        ));
    }
}

} // verus!
