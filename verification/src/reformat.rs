//! Formatting is a normal form: as long as a formatter inserts nothing but
//! whitespace, what it emits reads back exactly as its input did. Formatting
//! the output again, in any layout, gives what formatting the input in that
//! layout would have given.

use vstd::prelude::*;
use vstd::utf8::encode_utf8;
use crate::bytes::{all_whitespace, class_of, is_whitespace, ByteClass};
use crate::chunking::{lemma_output_concat, lemma_output_one, lemma_run_concat, lemma_run_one};
use crate::encoding::{lemma_presets_are_text, lemma_text_of_output};
use crate::model::{
    after_close, before_close, before_open, before_other, emit, formatted, formatted_text,
    indentation, minimized, minimized_text, output, pretty_printed, pretty_printed_text, run,
    step, Cursor, Layout,
};

verus! {

/// Outside a string literal, whitespace is read without a trace: the state
/// stays as it is and nothing is emitted.
pub proof fn lemma_whitespace_is_skipped(l: Layout, c: Cursor, blank: Seq<u8>)
    requires
        !c.in_string,
        all_whitespace(blank),
    ensures
        run(c, blank) == c,
        output(l, c, blank) == Seq::<u8>::empty(),
    decreases blank.len(),
{
    if blank.len() > 0 {
        lemma_whitespace_is_skipped(l, c, blank.drop_last());
        assert(is_whitespace(blank.last()));
        assert(output(l, c, blank) =~= Seq::<u8>::empty());
    }
}

/// Copies of a whitespace indent are whitespace.
pub proof fn lemma_indentation_is_whitespace(indent: Seq<u8>, depth: nat)
    requires
        all_whitespace(indent),
    ensures
        all_whitespace(indentation(indent, depth)),
    decreases depth,
{
    if depth > 0 {
        lemma_indentation_is_whitespace(indent, (depth - 1) as nat);
    }
}

/// With a layout that inserts only whitespace, everything emitted around a
/// token is whitespace.
proof fn lemma_insertions_are_whitespace(l: Layout, c: Cursor)
    requires
        l.inserts_whitespace_only(),
    ensures
        all_whitespace(before_open(l, c)),
        all_whitespace(before_close(l, c)),
        all_whitespace(after_close(l, c)),
        all_whitespace(before_other(l, c)),
        all_whitespace(l.line_break(c.depth as nat)),
{
    lemma_indentation_is_whitespace(l.indent, c.depth as nat);
    lemma_indentation_is_whitespace(l.indent, c.shallower() as nat);
}

/// Reading `before`, the token `b` and `after`, where the two insertions are
/// whitespace and the token does not open a string literal unless nothing
/// follows it, comes to reading the token alone.
proof fn lemma_padded_token(l: Layout, c: Cursor, before: Seq<u8>, b: u8, after: Seq<u8>)
    requires
        !c.in_string,
        all_whitespace(before),
        all_whitespace(after),
        after.len() > 0 ==> !step(c, b).in_string,
    ensures
        run(c, before.push(b) + after) == step(c, b),
        output(l, c, before.push(b) + after) == emit(l, c, b),
{
    let token = seq![b];
    assert(before.push(b) + after =~= (before + token) + after);
    lemma_whitespace_is_skipped(l, c, before);
    lemma_run_one(c, b);
    lemma_output_one(l, c, b);
    lemma_run_concat(c, before, token);
    lemma_output_concat(l, c, before, token);
    lemma_run_concat(c, before + token, after);
    lemma_output_concat(l, c, before + token, after);
    if after.len() > 0 {
        lemma_whitespace_is_skipped(l, step(c, b), after);
    } else {
        assert(run(step(c, b), after) == step(c, b));
        assert(output(l, step(c, b), after) =~= Seq::<u8>::empty());
    }
    assert(output(l, c, before.push(b) + after) =~= emit(l, c, b));
}

/// What a whitespace-only layout `written` emits for one byte reads back as
/// that byte: it moves the reader to the same state, and a formatter laid out
/// as `read` emits for it what it would have emitted for the byte itself.
pub proof fn lemma_emit_reads_back(written: Layout, read: Layout, c: Cursor, b: u8)
    requires
        written.inserts_whitespace_only(),
    ensures
        run(c, emit(written, c, b)) == step(c, b),
        output(read, c, emit(written, c, b)) == emit(read, c, b),
{
    let none = Seq::<u8>::empty();
    if c.in_string {
        lemma_run_one(c, b);
        lemma_output_one(read, c, b);
    } else {
        lemma_insertions_are_whitespace(written, c);
        match class_of(b) {
            ByteClass::Whitespace => {
                assert(output(read, c, none) =~= none);
            },
            ByteClass::Open => {
                assert(before_open(written, c).push(b) + none =~= emit(written, c, b));
                lemma_padded_token(read, c, before_open(written, c), b, none);
            },
            ByteClass::Close => {
                lemma_padded_token(
                    read,
                    c,
                    before_close(written, c),
                    b,
                    after_close(written, c),
                );
            },
            ByteClass::Comma => {
                assert(none.push(b) + written.line_break(c.depth as nat) =~= emit(written, c, b));
                lemma_padded_token(read, c, none, b, written.line_break(c.depth as nat));
            },
            ByteClass::Colon => {
                assert(none.push(b) + written.after_colon =~= emit(written, c, b));
                lemma_padded_token(read, c, none, b, written.after_colon);
            },
            ByteClass::Other => {
                assert(before_other(written, c).push(b) + none =~= emit(written, c, b));
                lemma_padded_token(read, c, before_other(written, c), b, none);
            },
        }
    }
}

/// Formatting is a normal form. If `written` inserts only whitespace, then
/// the bytes it emits for `input` leave a reader in the state that `input`
/// itself leaves it in, and formatting those bytes in any layout `read` gives
/// what formatting `input` in that layout gives.
pub proof fn lemma_reformat(written: Layout, read: Layout, c: Cursor, input: Seq<u8>)
    requires
        written.inserts_whitespace_only(),
    ensures
        run(c, output(written, c, input)) == run(c, input),
        output(read, c, output(written, c, input)) == output(read, c, input),
    decreases input.len(),
{
    if input.len() == 0 {
        assert(output(read, c, Seq::<u8>::empty()) =~= Seq::<u8>::empty());
    } else {
        let head = input.drop_last();
        let at = run(c, head);
        let chunk = emit(written, at, input.last());
        lemma_reformat(written, read, c, head);
        lemma_emit_reads_back(written, read, at, input.last());
        lemma_run_concat(c, output(written, c, head), chunk);
        lemma_output_concat(read, c, output(written, c, head), chunk);
    }
}

/// The tokens of `input`, read from state `c`: its bytes without the
/// whitespace that stands outside string literals.
pub open spec fn tokens(c: Cursor, input: Seq<u8>) -> Seq<u8> {
    output(Layout::bare(), c, input)
}

/// With nothing to insert, a byte is either dropped, if it is whitespace
/// outside a string literal, or copied.
pub proof fn lemma_bare_emit(c: Cursor, b: u8)
    ensures
        emit(Layout::bare(), c, b) == if !c.in_string && is_whitespace(b) {
            Seq::<u8>::empty()
        } else {
            seq![b]
        },
{
    let l = Layout::bare();
    lemma_nothing_repeated(c.depth as nat);
    lemma_nothing_repeated(c.shallower() as nat);
    assert(l.line_break(c.depth as nat) =~= Seq::<u8>::empty());
    assert(l.line_break(c.shallower() as nat) =~= Seq::<u8>::empty());
    assert(emit(l, c, b) =~= if !c.in_string && is_whitespace(b) {
        Seq::<u8>::empty()
    } else {
        seq![b]
    });
}

/// Copies of nothing are nothing.
proof fn lemma_nothing_repeated(depth: nat)
    ensures
        indentation(Seq::<u8>::empty(), depth) == Seq::<u8>::empty(),
    decreases depth,
{
    if depth > 0 {
        lemma_nothing_repeated((depth - 1) as nat);
        assert(indentation(Seq::<u8>::empty(), depth) =~= Seq::<u8>::empty());
    }
}

/// Formatting changes nothing but whitespace: what a whitespace-only layout
/// emits for `input` has the tokens of `input`, in the same order, and
/// leaves a reader in the same state.
pub proof fn lemma_formatting_keeps_tokens(l: Layout, c: Cursor, input: Seq<u8>)
    requires
        l.inserts_whitespace_only(),
    ensures
        tokens(c, output(l, c, input)) == tokens(c, input),
        run(c, output(l, c, input)) == run(c, input),
{
    lemma_reformat(l, Layout::bare(), c, input);
}

/// Minimizing is idempotent: minimizing what minimizing gave changes nothing.
/// This holds of every input, valid JSON or not.
pub proof fn lemma_minimize_is_idempotent(input: Seq<u8>)
    ensures
        minimized(minimized(input)) == minimized(input),
{
    let m = Layout::minimal();
    let c = Cursor::start();
    lemma_reformat(m, m, c, input);
    assert(minimized(input) =~= output(m, c, input));
    assert(minimized(minimized(input)) =~= output(m, c, output(m, c, input)));
}

/// Pretty-printing loses nothing that minimizing keeps: minimizing, then
/// pretty-printing, then minimizing again gives what minimizing once gives.
/// This holds of every input, valid JSON or not.
pub proof fn lemma_minimize_undoes_pretty_print(input: Seq<u8>)
    ensures
        minimized(pretty_printed(minimized(input))) == minimized(input),
{
    let m = Layout::minimal();
    let p = Layout::pretty();
    let c = Cursor::start();
    assert(minimized(input) =~= output(m, c, input));
    assert(pretty_printed(minimized(input)) =~= output(p, c, output(m, c, input)));
    assert(minimized(pretty_printed(minimized(input))) =~= output(
        m,
        c,
        output(p, c, output(m, c, input)),
    ));
    lemma_reformat(p, m, c, output(m, c, input));
    lemma_reformat(m, m, c, input);
}

/// Pretty-printing is idempotent too, and minimized input pretty-prints like
/// the input it came from.
pub proof fn lemma_pretty_print_is_idempotent(input: Seq<u8>)
    ensures
        pretty_printed(pretty_printed(input)) == pretty_printed(input),
        pretty_printed(minimized(input)) == pretty_printed(input),
{
    let m = Layout::minimal();
    let p = Layout::pretty();
    let c = Cursor::start();
    assert(minimized(input) =~= output(m, c, input));
    assert(pretty_printed(input) =~= output(p, c, input));
    assert(pretty_printed(pretty_printed(input)) =~= output(p, c, output(p, c, input)));
    assert(pretty_printed(minimized(input)) =~= output(p, c, output(m, c, input)));
    lemma_reformat(p, p, c, input);
    lemma_reformat(m, p, c, input);
}

/// Formatting a text that is itself the result of formatting: if `written`
/// inserts only whitespace and appends nothing, the text it produces formats,
/// in any layout `read`, to what the text it was made from formats to.
pub proof fn lemma_reformat_text(written: Layout, read: Layout, c: Cursor, json: Seq<char>)
    requires
        written.inserts_whitespace_only(),
        written.is_text(),
        written.trailing_output.len() == 0,
        read.is_text(),
    ensures
        formatted_text(read, c, formatted_text(written, c, json)) == formatted_text(read, c, json),
{
    let input = encode_utf8(json);
    lemma_text_of_output(written, c, json);
    lemma_reformat(written, read, c, input);
    assert(formatted(written, c, input) =~= output(written, c, input));
}

/// Idempotence under minimize, on text: minimizing a minimized text gives
/// the same text. This holds of every text, valid JSON or not.
pub proof fn lemma_minimize_text_is_idempotent(json: Seq<char>)
    ensures
        minimized_text(minimized_text(json)) == minimized_text(json),
{
    lemma_presets_are_text();
    lemma_reformat_text(Layout::minimal(), Layout::minimal(), Cursor::start(), json);
}

/// Round trip, on text: minimizing, pretty-printing and minimizing again
/// gives what minimizing once gives. This holds of every text, valid JSON or
/// not.
pub proof fn lemma_minimize_text_undoes_pretty_print(json: Seq<char>)
    ensures
        minimized_text(pretty_printed_text(minimized_text(json))) == minimized_text(json),
{
    lemma_presets_are_text();
    lemma_reformat_text(
        Layout::pretty(),
        Layout::minimal(),
        Cursor::start(),
        minimized_text(json),
    );
    lemma_reformat_text(Layout::minimal(), Layout::minimal(), Cursor::start(), json);
}

} // verus!
