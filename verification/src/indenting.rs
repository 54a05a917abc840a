//! Indentation follows depth. In the output of a pretty-printing layout,
//! every line that holds a token starts with exactly as many copies of the
//! indent as the first token of the line is deep, and an empty array or
//! object takes no line of its own.

use vstd::prelude::*;
use crate::bytes::{
    all_blank, all_whitespace, class_of, is_blank, is_close, is_open, is_whitespace, ByteClass,
    COMMA, LINE_FEED,
};
use crate::chunking::{lemma_output_concat, lemma_output_one, lemma_run_concat, lemma_run_one};
use crate::model::{
    after_close, before_close, before_open, before_other, emit, indentation, output,
    pretty_printed, run, step, Cursor, Layout,
};
use crate::literals::lemma_whitespace_stays_in_string;
use crate::reformat::{lemma_reformat, lemma_whitespace_is_skipped};

verus! {

/// The nesting depth of the token `b` read in state `c`: a closing bracket
/// stands at the level of the structure's opening bracket, every other token
/// at the level it is read at.
pub open spec fn token_depth(c: Cursor, b: u8) -> nat {
    if is_close(b) {
        c.shallower() as nat
    } else {
        c.depth as nat
    }
}

/// `out[p]` ends a line: it is a line feed, and a reader that started in
/// state `c` meets it outside any string literal.
pub open spec fn ends_line(c: Cursor, out: Seq<u8>, p: int) -> bool {
    &&& 0 <= p < out.len()
    &&& out[p] == LINE_FEED
    &&& !run(c, out.take(p)).in_string
}

/// Only spaces and tabs stand strictly between the positions `p` and `q`.
pub open spec fn blank_between(out: Seq<u8>, p: int, q: int) -> bool {
    forall|i: int| p < i < q ==> is_blank(#[trigger] out[i])
}

/// `out[q]` is the first token of the line that starts behind `out[p]`.
pub open spec fn first_token_of_line(c: Cursor, out: Seq<u8>, p: int, q: int) -> bool {
    &&& ends_line(c, out, p)
    &&& p < q < out.len()
    &&& blank_between(out, p, q)
    &&& !is_whitespace(out[q])
}

/// Every line of `out` that holds a token is indented by the depth of its
/// first token: between the line feed and the token stand that many copies
/// of the indent and nothing else.
pub open spec fn well_indented(l: Layout, c: Cursor, out: Seq<u8>) -> bool {
    forall|p: int, q: int| #[trigger]
        first_token_of_line(c, out, p, q) ==> out.subrange(p + 1, q) == indentation(
            l.indent,
            token_depth(run(c, out.take(q)), out[q]),
        )
}

/// In `input`, the closing bracket at `i` follows the comma at `j` with only
/// whitespace between them, and closes a structure that holds no member: the
/// comma came straight after the opening bracket, as in `[,]`.
pub open spec fn closes_after_leading_comma(c: Cursor, input: Seq<u8>, j: int, i: int) -> bool {
    &&& 0 <= j < i < input.len()
    &&& input[j] == COMMA
    &&& all_whitespace(input.subrange(j + 1, i))
    &&& is_close(input[i])
    &&& !run(c, input.take(i)).in_string
    &&& run(c, input.take(i)).empty
}

/// No array or object in `input` is closed straight after a leading comma.
pub open spec fn no_leading_comma(c: Cursor, input: Seq<u8>) -> bool {
    forall|j: int, i: int| !#[trigger] closes_after_leading_comma(c, input, j, i)
}

/// The line behind `out[p]` is still open: `out` ends before any token.
spec fn open_line(c: Cursor, out: Seq<u8>, p: int) -> bool {
    ends_line(c, out, p) && blank_between(out, p, out.len() as int)
}

/// Some line of `out` is still open.
spec fn has_open_line(c: Cursor, out: Seq<u8>) -> bool {
    exists|p: int| #[trigger] open_line(c, out, p)
}

/// A line that is still open holds the indent of the depth reached in `s`,
/// and `s` is outside any string literal.
spec fn open_lines_ok(l: Layout, c: Cursor, out: Seq<u8>, s: Cursor) -> bool {
    forall|p: int| #[trigger]
        open_line(c, out, p) ==> !s.in_string && out.subrange(p + 1, out.len() as int)
            == indentation(l.indent, s.depth as nat)
}

/// Copies of a blank indent are blank.
proof fn lemma_indentation_is_blank(indent: Seq<u8>, depth: nat)
    requires
        all_blank(indent),
    ensures
        all_blank(indentation(indent, depth)),
        all_whitespace(indentation(indent, depth)),
    decreases depth,
{
    if depth > 0 {
        lemma_indentation_is_blank(indent, (depth - 1) as nat);
    }
}

/// Copies of an empty indent are empty.
proof fn lemma_indentation_of_nothing(indent: Seq<u8>, depth: nat)
    requires
        indent.len() == 0,
    ensures
        indentation(indent, depth) == Seq::<u8>::empty(),
    decreases depth,
{
    if depth > 0 {
        lemma_indentation_of_nothing(indent, (depth - 1) as nat);
        assert(indentation(indent, depth) =~= Seq::<u8>::empty());
    }
}

/// `lead`, the token `b` and `trail` are what a formatter in state `s` may
/// append to `out`: `lead` is empty or a line break to the depth of the
/// token, `trail` is blank or a line break to the depth that follows, and
/// where the token goes onto a line that stands open, the indent of that
/// line is the token's.
spec fn appends_token(
    l: Layout,
    c: Cursor,
    out: Seq<u8>,
    s: Cursor,
    lead: Seq<u8>,
    b: u8,
    trail: Seq<u8>,
) -> bool {
    &&& all_blank(l.indent)
    &&& run(c, out) == s
    &&& !s.in_string
    &&& !is_whitespace(b)
    &&& lead.len() == 0 || lead == seq![LINE_FEED] + indentation(l.indent, token_depth(s, b))
    &&& lead.len() == 0 && has_open_line(c, out) ==> indentation(l.indent, s.depth as nat)
        == indentation(l.indent, token_depth(s, b))
    &&& all_blank(trail) || (trail == seq![LINE_FEED] + indentation(
        l.indent,
        step(s, b).depth as nat,
    ) && !step(s, b).in_string)
}

/// Appending a token with what the formatter puts around it keeps every line
/// indented by depth.
proof fn lemma_append_keeps_indent(
    l: Layout,
    c: Cursor,
    out: Seq<u8>,
    s: Cursor,
    lead: Seq<u8>,
    b: u8,
    trail: Seq<u8>,
)
    requires
        appends_token(l, c, out, s, lead, b, trail),
        well_indented(l, c, out),
        open_lines_ok(l, c, out, s),
    ensures
        well_indented(l, c, out + (lead.push(b) + trail)),
{
    let next = out + (lead.push(b) + trail);
    let at = out.len() as int;
    let q0 = (out.len() + lead.len()) as int;
    lemma_indentation_is_blank(l.indent, token_depth(s, b));
    lemma_indentation_is_blank(l.indent, step(s, b).depth as nat);
    assert(all_whitespace(lead));
    assert(all_whitespace(trail));
    assert(next[q0] == b);
    assert(next.take(q0) =~= out + lead);
    assert(run(c, out + lead) == s) by {
        lemma_run_concat(c, out, lead);
        lemma_whitespace_is_skipped(l, s, lead);
    }
    assert forall|p: int, q: int| #[trigger] first_token_of_line(c, next, p, q) implies next.subrange(
        p + 1,
        q,
    ) == indentation(l.indent, token_depth(run(c, next.take(q)), next[q])) by {
        if q < at {
            assert(next.take(p) =~= out.take(p));
            assert(next.take(q) =~= out.take(q));
            assert forall|i: int| p < i < q implies is_blank(#[trigger] out[i]) by {
                assert(next[i] == out[i]);
            }
            assert(first_token_of_line(c, out, p, q));
            assert(next.subrange(p + 1, q) =~= out.subrange(p + 1, q));
        } else {
            if q < q0 {
                assert(next[q] == lead[q - at]);
            } else if q > q0 {
                assert(next[q] == trail[q - q0 - 1]);
            }
            assert(q == q0);
            if lead.len() == 0 {
                assert(next.take(p) =~= out.take(p));
                assert forall|i: int| p < i < at implies is_blank(#[trigger] out[i]) by {
                    assert(next[i] == out[i]);
                }
                assert(open_line(c, out, p));
                assert(next.subrange(p + 1, q) =~= out.subrange(p + 1, at));
                assert(next.take(q) =~= out);
            } else {
                assert(next[at] == lead[0]);
                if p < at {
                    assert(is_blank(next[at]));
                } else if p > at {
                    assert(next[p] == lead[p - at]);
                    assert(is_blank(lead[p - at]));
                }
                assert(p == at);
                assert(next.subrange(p + 1, q) =~= indentation(l.indent, token_depth(s, b)));
            }
        }
    }
}

/// After a token has been appended, a line stands open only where `trail`
/// has just started one, and it then holds the indent of the depth reached.
proof fn lemma_append_opens_line(
    l: Layout,
    c: Cursor,
    out: Seq<u8>,
    s: Cursor,
    lead: Seq<u8>,
    b: u8,
    trail: Seq<u8>,
)
    requires
        appends_token(l, c, out, s, lead, b, trail),
    ensures
        open_lines_ok(l, c, out + (lead.push(b) + trail), step(s, b)),
        has_open_line(c, out + (lead.push(b) + trail)) ==> !all_blank(trail),
{
    let next = out + (lead.push(b) + trail);
    let q0 = (out.len() + lead.len()) as int;
    let s2 = step(s, b);
    lemma_indentation_is_blank(l.indent, s2.depth as nat);
    assert(next[q0] == b);
    assert forall|p: int| #[trigger] open_line(c, next, p) implies !s2.in_string && next.subrange(
        p + 1,
        next.len() as int,
    ) == indentation(l.indent, s2.depth as nat) by {
        if p < q0 {
            assert(is_blank(next[q0]));
        }
        assert(p > q0);
        assert(next[p] == trail[p - q0 - 1]);
        assert(!all_blank(trail));
        if p > q0 + 1 {
            assert(is_blank(trail[p - q0 - 1]));
        }
        assert(p == q0 + 1);
        assert(next.subrange(p + 1, next.len() as int) =~= indentation(
            l.indent,
            s2.depth as nat,
        ));
    }
    if has_open_line(c, next) {
        let p = choose|p: int| #[trigger] open_line(c, next, p);
        if p < q0 {
            assert(is_blank(next[q0]));
        }
        assert(p > q0);
        assert(next[p] == trail[p - q0 - 1]);
    }
}

/// One more byte of input keeps every line of the output indented by depth,
/// unless the byte closes a structure that is still marked empty while a
/// line stands open and the indent is not empty.
proof fn lemma_emit_keeps_lines(l: Layout, c: Cursor, out: Seq<u8>, s: Cursor, b: u8)
    requires
        l.breaks_lines(),
        run(c, out) == s,
        well_indented(l, c, out),
        open_lines_ok(l, c, out, s),
        is_close(b) && !s.in_string && s.empty && has_open_line(c, out) ==> l.indent.len() == 0,
    ensures
        well_indented(l, c, out + emit(l, s, b)),
        open_lines_ok(l, c, out + emit(l, s, b), step(s, b)),
        has_open_line(c, out + emit(l, s, b)) ==> !step(s, b).in_string && (!step(s, b).empty || b
            == COMMA || (is_whitespace(b) && has_open_line(c, out))),
{
    let none = Seq::<u8>::empty();
    let next = out + emit(l, s, b);
    let at = out.len() as int;
    if s.in_string {
        assert(next =~= out.push(b));
        assert forall|p: int| !#[trigger] open_line(c, next, p) by {
            if open_line(c, next, p) {
                if p < at {
                    assert(next.take(p) =~= out.take(p));
                    assert forall|i: int| p < i < at implies is_blank(#[trigger] out[i]) by {
                        assert(next[i] == out[i]);
                    }
                    assert(open_line(c, out, p));
                } else {
                    assert(next.take(p) =~= out);
                }
            }
        }
        assert forall|p: int, q: int| #[trigger]
            first_token_of_line(c, next, p, q) implies next.subrange(p + 1, q) == indentation(
            l.indent,
            token_depth(run(c, next.take(q)), next[q]),
        ) by {
            assert(next.take(p) =~= out.take(p));
            assert forall|i: int| p < i < q && i < at implies is_blank(#[trigger] out[i]) by {
                assert(next[i] == out[i]);
            }
            if q < at {
                assert(next.take(q) =~= out.take(q));
                assert(first_token_of_line(c, out, p, q));
                assert(next.subrange(p + 1, q) =~= out.subrange(p + 1, q));
            } else {
                assert(open_line(c, out, p));
            }
        }
    } else if class_of(b) == ByteClass::Whitespace {
        assert(next =~= out);
    } else {
        let lead = match class_of(b) {
            ByteClass::Open => before_open(l, s),
            ByteClass::Close => before_close(l, s),
            ByteClass::Other => before_other(l, s),
            _ => none,
        };
        let trail = match class_of(b) {
            ByteClass::Close => after_close(l, s),
            ByteClass::Comma => l.line_break(s.depth as nat),
            ByteClass::Colon => l.after_colon,
            _ => none,
        };
        assert(emit(l, s, b) =~= lead.push(b) + trail);
        assert(seq![LINE_FEED] =~= seq![LINE_FEED] + indentation(l.indent, 0));
        if lead.len() == 0 && has_open_line(c, out) && is_close(b) {
            if s.empty {
                lemma_indentation_of_nothing(l.indent, s.depth as nat);
                lemma_indentation_of_nothing(l.indent, token_depth(s, b));
            } else {
                assert(before_close(l, s).len() > 0);
            }
        }
        assert(appends_token(l, c, out, s, lead, b, trail));
        lemma_append_keeps_indent(l, c, out, s, lead, b, trail);
        lemma_append_opens_line(l, c, out, s, lead, b, trail);
    }
}

/// The output for the first `n` bytes of `input` is indented by depth, and
/// if it ends in an open line while the structure being read is still marked
/// empty, the last token read was a comma.
proof fn lemma_lines_up_to(l: Layout, c: Cursor, input: Seq<u8>, n: int)
    requires
        l.breaks_lines(),
        l.indent.len() > 0 ==> no_leading_comma(c, input),
        0 <= n <= input.len(),
    ensures
        run(c, output(l, c, input.take(n))) == run(c, input.take(n)),
        well_indented(l, c, output(l, c, input.take(n))),
        open_lines_ok(l, c, output(l, c, input.take(n)), run(c, input.take(n))),
        has_open_line(c, output(l, c, input.take(n))) && run(c, input.take(n)).empty ==> exists|
            j: int,
        |
            0 <= j < n && input[j] == COMMA && all_whitespace(#[trigger] input.subrange(j + 1, n)),
    decreases n,
{
    let read = input.take(n);
    lemma_indentation_is_blank(l.indent, 0);
    lemma_reformat(l, l, c, read);
    if n == 0 {
        let out = output(l, c, read);
        assert(out =~= Seq::<u8>::empty());
        assert forall|p: int| !#[trigger] open_line(c, out, p) by {}
        assert forall|p: int, q: int| !#[trigger] first_token_of_line(c, out, p, q) by {}
    } else {
        let head = input.take(n - 1);
        let b = input[n - 1];
        let out = output(l, c, head);
        let s = run(c, head);
        assert(read.drop_last() =~= head);
        assert(read.last() == b);
        lemma_lines_up_to(l, c, input, n - 1);
        if is_close(b) && !s.in_string && s.empty && has_open_line(c, out) && l.indent.len() > 0 {
            let j = choose|j: int|
                0 <= j < n - 1 && input[j] == COMMA && all_whitespace(
                    #[trigger] input.subrange(j + 1, n - 1),
                );
            assert(closes_after_leading_comma(c, input, j, n - 1));
        }
        lemma_emit_keeps_lines(l, c, out, s, b);
        let next = out + emit(l, s, b);
        assert(output(l, c, read) == next);
        if has_open_line(c, next) && step(s, b).empty {
            if b == COMMA {
                assert(input.subrange(n, n) =~= Seq::<u8>::empty());
                assert(all_whitespace(input.subrange(n - 1 + 1, n)));
            } else {
                let j = choose|j: int|
                    0 <= j < n - 1 && input[j] == COMMA && all_whitespace(
                        #[trigger] input.subrange(j + 1, n - 1),
                    );
                assert(input.subrange(j + 1, n) =~= input.subrange(j + 1, n - 1).push(b));
                assert(all_whitespace(input.subrange(j + 1, n)));
            }
        }
    }
}

/// Indentation follows depth. With a layout that ends lines in a line feed
/// and inserts only spaces and tabs besides, every line of the output that
/// holds a token starts with exactly as many copies of the indent as its
/// first token is deep, whatever the input. The one exception is left out:
/// with an indent that is not empty, no array or object of the input may be
/// closed straight after a leading comma, as in `[,]`.
pub proof fn lemma_indent_follows_depth(l: Layout, c: Cursor, input: Seq<u8>)
    requires
        l.breaks_lines(),
        l.indent.len() > 0 ==> no_leading_comma(c, input),
    ensures
        well_indented(l, c, output(l, c, input)),
{
    assert(input.take(input.len() as int) =~= input);
    lemma_lines_up_to(l, c, input, input.len() as int);
}

/// `depth` copies of `indent` are `depth` times as long as `indent`.
proof fn lemma_indentation_len(indent: Seq<u8>, depth: nat)
    ensures
        indentation(indent, depth).len() == depth * indent.len(),
    decreases depth,
{
    if depth > 0 {
        lemma_indentation_len(indent, (depth - 1) as nat);
        assert(depth * indent.len() == (depth - 1) * indent.len() + indent.len())
            by (nonlinear_arith);
    } else {
        assert(depth * indent.len() == 0) by (nonlinear_arith)
            requires
                depth == 0,
        ;
    }
}

/// From the start of a stream, a structure that is marked empty is open: the
/// depth is at least one.
proof fn lemma_empty_is_inside(input: Seq<u8>)
    ensures
        run(Cursor::start(), input).empty ==> run(Cursor::start(), input).depth >= 1,
    decreases input.len(),
{
    if input.len() > 0 {
        lemma_empty_is_inside(input.drop_last());
    }
}

/// Where a closing bracket follows a leading comma, the comma was read
/// outside any string literal, in a structure marked empty at a depth of at
/// least one, and nothing but the `first` mark has changed since.
proof fn lemma_leading_comma_state(input: Seq<u8>, j: int, i: int)
    requires
        closes_after_leading_comma(Cursor::start(), input, j, i),
    ensures
        !run(Cursor::start(), input.take(j)).in_string,
        run(Cursor::start(), input.take(j)).empty,
        run(Cursor::start(), input.take(j)).depth >= 1,
        run(Cursor::start(), input.take(i)) == step(run(Cursor::start(), input.take(j)), COMMA),
{
    let c = Cursor::start();
    let comma = seq![COMMA];
    let gap = input.subrange(j + 1, i);
    let before = input.take(j);
    let s = run(c, before);
    let after = step(s, COMMA);
    assert(input.take(i) =~= before + comma + gap);
    lemma_run_concat(c, before, comma);
    lemma_run_one(s, COMMA);
    lemma_run_concat(c, before + comma, gap);
    if after.in_string {
        lemma_whitespace_stays_in_string(after, gap);
    } else {
        lemma_whitespace_is_skipped(Layout::bare(), after, gap);
    }
    lemma_empty_is_inside(before);
}

/// What is emitted where a closing bracket follows a leading comma: the
/// comma, a line break to the depth of the structure, and the bracket right
/// behind it.
proof fn lemma_leading_comma_output(l: Layout, input: Seq<u8>, j: int, i: int) -> (tail: Seq<u8>)
    requires
        l.breaks_lines(),
        closes_after_leading_comma(Cursor::start(), input, j, i),
    ensures
        output(l, Cursor::start(), input) == output(l, Cursor::start(), input.take(j)) + seq![
            COMMA,
            LINE_FEED,
        ] + indentation(l.indent, run(Cursor::start(), input.take(j)).depth as nat) + seq![
            input[i],
        ] + tail,
{
    let c = Cursor::start();
    let comma = seq![COMMA];
    let gap = input.subrange(j + 1, i);
    let close = seq![input[i]];
    let rest = input.skip(i + 1);
    let before = input.take(j);
    let s = run(c, before);
    let after = step(s, COMMA);
    lemma_leading_comma_state(input, j, i);
    assert(input.take(i) =~= before + comma + gap);
    assert(input =~= before + comma + gap + close + rest);
    lemma_output_concat(l, c, before, comma);
    lemma_output_one(l, s, COMMA);
    lemma_run_concat(c, before, comma);
    lemma_run_one(s, COMMA);
    lemma_output_concat(l, c, before + comma, gap);
    lemma_whitespace_is_skipped(l, after, gap);
    lemma_output_concat(l, c, before + comma + gap, close);
    lemma_output_one(l, after, input[i]);
    lemma_output_concat(l, c, before + comma + gap + close, rest);
    let tail = after_close(l, after) + output(l, run(c, before + comma + gap + close), rest);
    assert(output(l, c, input) =~= output(l, c, before) + seq![COMMA, LINE_FEED] + indentation(
        l.indent,
        s.depth as nat,
    ) + close + tail);
    tail
}

/// Output in which a closing bracket stands behind an indent one level too
/// deep is not indented by depth.
proof fn lemma_deep_close_breaks_indent(
    l: Layout,
    c: Cursor,
    head: Seq<u8>,
    s: Cursor,
    close: u8,
    tail: Seq<u8>,
)
    requires
        all_blank(l.indent),
        l.indent.len() > 0,
        run(c, head) == s,
        !s.in_string,
        s.depth >= 1,
        is_close(close),
    ensures
        !well_indented(
            l,
            c,
            head + seq![LINE_FEED] + indentation(l.indent, s.depth as nat) + seq![close] + tail,
        ),
{
    let d = s.depth as nat;
    let tab = indentation(l.indent, d);
    let out = head + seq![LINE_FEED] + tab + seq![close] + tail;
    let p = head.len() as int;
    let q = (p + 1 + tab.len()) as int;
    lemma_indentation_is_blank(l.indent, d);
    lemma_indentation_len(l.indent, d);
    lemma_indentation_len(l.indent, (d - 1) as nat);
    assert((d - 1) * l.indent.len() < d * l.indent.len()) by (nonlinear_arith)
        requires
            d >= 1,
            l.indent.len() > 0,
    ;
    assert(out.take(p) =~= head);
    assert(out.take(q) =~= head + (seq![LINE_FEED] + tab));
    assert(run(c, out.take(q)) == s) by {
        lemma_run_concat(c, head, seq![LINE_FEED] + tab);
        lemma_whitespace_is_skipped(l, s, seq![LINE_FEED] + tab);
    }
    assert forall|k: int| p < k < q implies is_blank(#[trigger] out[k]) by {
        assert(out[k] == tab[k - p - 1]);
    }
    assert(out[p] == LINE_FEED);
    assert(out[q] == close);
    assert(first_token_of_line(c, out, p, q));
    assert(out.subrange(p + 1, q) =~= tab);
    assert(token_depth(s, close) == d - 1);
}

/// The exception is real. With an indent that is not empty, a structure
/// closed straight after a leading comma leaves its closing bracket one
/// level too deep: the output is not indented by depth.
pub proof fn lemma_leading_comma_breaks_indent(l: Layout, input: Seq<u8>, j: int, i: int)
    requires
        l.breaks_lines(),
        l.indent.len() > 0,
        closes_after_leading_comma(Cursor::start(), input, j, i),
    ensures
        !well_indented(l, Cursor::start(), output(l, Cursor::start(), input)),
{
    let c = Cursor::start();
    let before = input.take(j);
    let s = run(c, before);
    let head = output(l, c, before) + seq![COMMA];
    let tail = lemma_leading_comma_output(l, input, j, i);
    lemma_leading_comma_state(input, j, i);
    lemma_reformat(l, l, c, before);
    lemma_run_concat(c, output(l, c, before), seq![COMMA]);
    lemma_run_one(s, COMMA);
    let after = step(s, COMMA);
    assert(output(l, c, input) =~= head + seq![LINE_FEED] + indentation(
        l.indent,
        after.depth as nat,
    ) + seq![input[i]] + tail);
    lemma_deep_close_breaks_indent(l, c, head, after, input[i], tail);
}

/// An empty structure stays closed: where only whitespace stands between an
/// opening bracket and the closing one, the two are emitted side by side,
/// with nothing between them, whatever the layout. The depth is afterwards
/// what it was before, unless it was at the top of its range.
pub proof fn lemma_empty_structure_stays_closed(
    l: Layout,
    c: Cursor,
    open: u8,
    gap: Seq<u8>,
    close: u8,
)
    requires
        !c.in_string,
        is_open(open),
        all_whitespace(gap),
        is_close(close),
    ensures
        output(l, c, seq![open] + gap + seq![close]) == before_open(l, c).push(open).push(close)
            + after_close(l, step(c, open)),
        c.depth < usize::MAX ==> run(c, seq![open] + gap + seq![close]).depth == c.depth,
        !run(c, seq![open] + gap + seq![close]).empty,
{
    let inside = step(c, open);
    lemma_run_one(c, open);
    lemma_output_one(l, c, open);
    lemma_whitespace_is_skipped(l, inside, gap);
    lemma_run_concat(c, seq![open], gap);
    lemma_output_concat(l, c, seq![open], gap);
    lemma_run_one(inside, close);
    lemma_output_one(l, inside, close);
    lemma_run_concat(c, seq![open] + gap, seq![close]);
    lemma_output_concat(l, c, seq![open] + gap, seq![close]);
    assert(output(l, c, seq![open] + gap + seq![close]) =~= before_open(l, c).push(open).push(
        close,
    ) + after_close(l, inside));
}

/// The same, of the pretty-printer with its default options: every line of
/// pretty-printed output that holds a token is indented by two spaces for
/// each level of its first token.
pub proof fn lemma_pretty_print_indents_by_depth(input: Seq<u8>)
    requires
        no_leading_comma(Cursor::start(), input),
    ensures
        well_indented(Layout::pretty(), Cursor::start(), pretty_printed(input)),
{
    lemma_indent_follows_depth(Layout::pretty(), Cursor::start(), input);
    assert(pretty_printed(input) =~= output(Layout::pretty(), Cursor::start(), input));
}

/// The first line is not indented: output that starts at the beginning of a
/// stream starts with a token or with a line feed, never with a space or a
/// tab. As long as nothing has been emitted, the stream is still at its
/// start.
pub proof fn lemma_first_line_is_not_indented(l: Layout, input: Seq<u8>)
    requires
        l.breaks_lines(),
    ensures
        output(l, Cursor::start(), input).len() > 0 ==> !is_blank(
            output(l, Cursor::start(), input)[0],
        ),
        output(l, Cursor::start(), input).len() == 0 ==> run(Cursor::start(), input)
            == Cursor::start(),
    decreases input.len(),
{
    if input.len() > 0 {
        let head = input.drop_last();
        let b = input.last();
        lemma_first_line_is_not_indented(l, head);
        let out = output(l, Cursor::start(), head);
        let chunk = emit(l, run(Cursor::start(), head), b);
        if out.len() == 0 {
            assert(output(l, Cursor::start(), input) =~= chunk);
            if chunk.len() > 0 {
                assert(l.line_break(0)[0] == LINE_FEED);
                assert(!is_blank(chunk[0]));
            }
        } else {
            assert(output(l, Cursor::start(), input)[0] == out[0]);
        }
    }
}

} // verus!
