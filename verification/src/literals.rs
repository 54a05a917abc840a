//! String literals are inert. While the formatter is inside one, every byte
//! is copied as it stands and only the literal's own bookkeeping changes, so
//! brackets, commas, colons and whitespace in a string never count as
//! structure. A quote that follows a backslash does not end the literal.

use vstd::prelude::*;
use crate::bytes::{all_whitespace, is_whitespace, BACKSLASH, QUOTE};
use crate::chunking::{lemma_output_concat, lemma_output_one, lemma_run_concat, lemma_run_one};
use crate::model::{before_other, emit, output, run, step, Cursor, Layout};

verus! {

/// Every byte of `body` is read inside a string literal, when reading starts
/// in state `c`: the literal is open at `c` and no quote in `body`, except
/// possibly the last byte, closes it.
pub open spec fn within_string(c: Cursor, body: Seq<u8>) -> bool {
    forall|i: int| 0 <= i < body.len() ==> (#[trigger] run(c, body.take(i))).in_string
}

/// One byte read inside a string literal is emitted as it is, whatever the
/// layout, and leaves the depth and the `empty` and `first` marks alone.
pub proof fn lemma_string_byte_is_inert(l: Layout, c: Cursor, b: u8)
    requires
        c.in_string,
    ensures
        emit(l, c, b) == seq![b],
        step(c, b).depth == c.depth,
        step(c, b).empty == c.empty,
        step(c, b).first == c.first,
{
}

/// The byte after a backslash never ends the literal, not even a quote; any
/// other quote does.
pub proof fn lemma_quote_ends_string_unless_escaped(c: Cursor, b: u8)
    requires
        c.in_string,
    ensures
        c.in_backslash ==> step(c, b).in_string && !step(c, b).in_backslash,
        !c.in_backslash ==> (step(c, b).in_string <==> b != QUOTE),
        !c.in_backslash ==> (step(c, b).in_backslash <==> b == BACKSLASH),
{
}

/// Whitespace does not end a string literal.
pub proof fn lemma_whitespace_stays_in_string(c: Cursor, blank: Seq<u8>)
    requires
        c.in_string,
        all_whitespace(blank),
    ensures
        run(c, blank).in_string,
    decreases blank.len(),
{
    if blank.len() > 0 {
        lemma_whitespace_stays_in_string(c, blank.drop_last());
        assert(is_whitespace(blank.last()));
    }
}

/// The contents of a string literal pass through unchanged: they are emitted
/// byte for byte, whatever the layout, and the depth and the `empty` and
/// `first` marks are afterwards what they were before.
pub proof fn lemma_string_contents_pass_through(l: Layout, c: Cursor, body: Seq<u8>)
    requires
        within_string(c, body),
    ensures
        output(l, c, body) == body,
        run(c, body).depth == c.depth,
        run(c, body).empty == c.empty,
        run(c, body).first == c.first,
    decreases body.len(),
{
    if body.len() == 0 {
        assert(output(l, c, body) =~= body);
    } else {
        let head = body.drop_last();
        assert forall|i: int| 0 <= i < head.len() implies (#[trigger] run(
            c,
            head.take(i),
        )).in_string by {
            assert(head.take(i) =~= body.take(i));
        }
        lemma_string_contents_pass_through(l, c, head);
        assert(body.take(body.len() - 1) =~= head);
        assert(run(c, head).in_string);
        assert(output(l, c, body) =~= body);
    }
}

/// A whole string literal, from its opening quote on, read outside any
/// string: the literal is emitted as it stands, after whatever any other
/// token would have had in front of it, and the depth stays what it was.
pub proof fn lemma_string_literal_is_copied(l: Layout, c: Cursor, body: Seq<u8>)
    requires
        !c.in_string,
        within_string(step(c, QUOTE), body),
    ensures
        output(l, c, seq![QUOTE] + body) == before_other(l, c) + (seq![QUOTE] + body),
        run(c, seq![QUOTE] + body).depth == c.depth,
        !run(c, seq![QUOTE] + body).empty,
        !run(c, seq![QUOTE] + body).first,
{
    let quote = seq![QUOTE];
    lemma_run_one(c, QUOTE);
    lemma_output_one(l, c, QUOTE);
    lemma_run_concat(c, quote, body);
    lemma_output_concat(l, c, quote, body);
    lemma_string_contents_pass_through(l, step(c, QUOTE), body);
    assert(output(l, c, quote + body) =~= before_other(l, c) + (quote + body));
}

/// The `first` mark is set exactly as long as nothing but whitespace has been
/// read since the start of the stream.
pub proof fn lemma_first_until_token(input: Seq<u8>)
    ensures
        run(Cursor::start(), input).first <==> all_whitespace(input),
        run(Cursor::start(), input).first ==> run(Cursor::start(), input) == Cursor::start(),
    decreases input.len(),
{
    if input.len() > 0 {
        let head = input.drop_last();
        lemma_first_until_token(head);
        if all_whitespace(input) {
            assert forall|i: int| 0 <= i < head.len() implies is_whitespace(#[trigger] head[i]) by {
                assert(head[i] == input[i]);
            }
            assert(is_whitespace(input.last()));
        }
        if run(Cursor::start(), input).first {
            assert(run(Cursor::start(), head).first);
            assert forall|i: int| 0 <= i < input.len() implies is_whitespace(
                #[trigger] input[i],
            ) by {
                if i < head.len() {
                    assert(head[i] == input[i]);
                }
            }
        }
    }
}

} // verus!
