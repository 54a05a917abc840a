//! Two printers with a fixed layout, for whole inputs held in memory.
//!
//! [`pp`] pretty-prints with a line feed between members, a space after each
//! colon and a line feed after every root-level array or object; only the
//! indent can be chosen. [`minimize`] drops whitespace and ends every
//! root-level array or object with a line feed. Both count depth with a sign,
//! so that input which closes more than it opened is told apart from a new
//! record.

use vstd::prelude::*;
use vstd::utf8::encode_utf8;
use crate::bytes::{
    class_of, classify, ByteClass, BACKSLASH, COLON, LINE_FEED, QUOTE, SPACE,
};
use crate::formatter::put;
use crate::model::indentation;

verus! {

/// What a printer remembers between two bytes.
pub struct Scan {
    /// Opening brackets read so far, minus closing ones.
    pub depth: int,
    /// The next byte belongs to a string literal.
    pub in_string: bool,
    /// The next byte follows a backslash inside a string literal.
    pub in_backslash: bool,
    /// Nothing but whitespace, commas and colons has followed the last
    /// opening bracket.
    pub empty: bool,
}

impl Scan {
    /// The state before any input.
    pub open spec fn start() -> Scan {
        Scan { depth: 0, in_string: false, in_backslash: false, empty: false }
    }

    /// The state after reading `b` inside a string literal.
    pub open spec fn in_literal(self, b: u8) -> Scan {
        if self.in_backslash {
            Scan { in_backslash: false, ..self }
        } else if b == QUOTE {
            Scan { in_string: false, ..self }
        } else if b == BACKSLASH {
            Scan { in_backslash: true, ..self }
        } else {
            self
        }
    }
}

/// A line feed and one copy of `indent` for each level of `depth`; none if
/// `depth` is negative.
pub open spec fn new_line(indent: Seq<u8>, depth: int) -> Seq<u8> {
    seq![LINE_FEED] + indentation(indent, if depth > 0 { depth as nat } else { 0 })
}

/// The line feed that ends a record: emitted behind a closing bracket that
/// brings the depth to zero.
pub open spec fn record_end(depth: int) -> Seq<u8> {
    if depth == 0 {
        seq![LINE_FEED]
    } else {
        Seq::empty()
    }
}

/// The state of [`pp`] after reading `b` in state `s`.
pub open spec fn pp_step(s: Scan, b: u8) -> Scan {
    if s.in_string {
        s.in_literal(b)
    } else {
        match class_of(b) {
            ByteClass::Whitespace | ByteClass::Comma | ByteClass::Colon => s,
            ByteClass::Open => Scan { depth: s.depth + 1, empty: true, ..s },
            ByteClass::Close => Scan { depth: s.depth - 1, empty: false, ..s },
            ByteClass::Other => Scan { in_string: b == QUOTE, empty: false, ..s },
        }
    }
}

/// What [`pp`] emits for `b` read in state `s`.
pub open spec fn pp_emit(indent: Seq<u8>, s: Scan, b: u8) -> Seq<u8> {
    if s.in_string {
        seq![b]
    } else {
        match class_of(b) {
            ByteClass::Whitespace => Seq::empty(),
            ByteClass::Open => seq![b],
            ByteClass::Close => (if s.empty {
                Seq::empty()
            } else {
                new_line(indent, s.depth - 1)
            }).push(b) + record_end(s.depth - 1),
            ByteClass::Comma => seq![b] + new_line(indent, s.depth),
            ByteClass::Colon => seq![COLON, SPACE],
            ByteClass::Other => (if s.empty {
                new_line(indent, s.depth)
            } else {
                Seq::empty()
            }).push(b),
        }
    }
}

/// The state of [`pp`] after all of `input`.
pub open spec fn pp_run(input: Seq<u8>) -> Scan
    decreases input.len(),
{
    if input.len() == 0 {
        Scan::start()
    } else {
        pp_step(pp_run(input.drop_last()), input.last())
    }
}

/// Everything [`pp`] emits for `input`.
pub open spec fn pp_output(indent: Seq<u8>, input: Seq<u8>) -> Seq<u8>
    decreases input.len(),
{
    if input.len() == 0 {
        Seq::empty()
    } else {
        pp_output(indent, input.drop_last()) + pp_emit(
            indent,
            pp_run(input.drop_last()),
            input.last(),
        )
    }
}

/// The state of [`minimize`] after reading `b` in state `s`. The `empty`
/// mark is not used.
pub open spec fn minimize_step(s: Scan, b: u8) -> Scan {
    if s.in_string {
        s.in_literal(b)
    } else {
        match class_of(b) {
            ByteClass::Whitespace => s,
            ByteClass::Open => Scan { depth: s.depth + 1, ..s },
            ByteClass::Close => Scan { depth: s.depth - 1, ..s },
            _ => Scan { in_string: b == QUOTE, ..s },
        }
    }
}

/// What [`minimize`] emits for `b` read in state `s`.
pub open spec fn minimize_emit(s: Scan, b: u8) -> Seq<u8> {
    if s.in_string {
        seq![b]
    } else {
        match class_of(b) {
            ByteClass::Whitespace => Seq::empty(),
            ByteClass::Close => seq![b] + record_end(s.depth - 1),
            _ => seq![b],
        }
    }
}

/// The state of [`minimize`] after all of `input`.
pub open spec fn minimize_run(input: Seq<u8>) -> Scan
    decreases input.len(),
{
    if input.len() == 0 {
        Scan::start()
    } else {
        minimize_step(minimize_run(input.drop_last()), input.last())
    }
}

/// Everything [`minimize`] emits for `input`.
pub open spec fn minimize_output(input: Seq<u8>) -> Seq<u8>
    decreases input.len(),
{
    if input.len() == 0 {
        Seq::empty()
    } else {
        minimize_output(input.drop_last()) + minimize_emit(
            minimize_run(input.drop_last()),
            input.last(),
        )
    }
}

/// Appends a line feed and `depth` copies of `indent`, none if `depth` is
/// negative.
fn put_new_line(writer: &mut Vec<u8>, indent: &[u8], depth: i128)
    ensures
        final(writer)@ == old(writer)@ + new_line(indent@, depth as int),
{
    writer.push(LINE_FEED);
    let mut n: i128 = 0;
    while n < depth
        invariant
            0 <= n,
            n == 0 || n <= depth,
            writer@ == old(writer)@ + seq![LINE_FEED] + indentation(indent@, n as nat),
        decreases depth - n,
    {
        put(writer, indent);
        n += 1;
        assert(writer@ =~= old(writer)@ + seq![LINE_FEED] + indentation(indent@, n as nat));
    }
    assert(writer@ =~= old(writer)@ + new_line(indent@, depth as int));
}

/// Pretty-prints `input` into `output`, with `indent` once per level of
/// nesting at the start of each line.
pub fn pp(input: &[u8], output: &mut Vec<u8>, indent: &str)
    ensures
        final(output)@ == old(output)@ + pp_output(encode_utf8(indent@), input@),
{
    let indent_bytes = indent.as_bytes();
    let mut in_string = false;
    let mut in_backslash = false;
    let mut depth: i128 = 0;
    let mut current_structure_is_empty = false;
    let mut n: usize = 0;
    assert(output@ =~= old(output)@ + Seq::<u8>::empty());
    while n < input.len()
        invariant
            n <= input.len(),
            -n <= depth <= n,
            indent_bytes@ == encode_utf8(indent@),
            pp_run(input@.take(n as int)) == (Scan {
                depth: depth as int,
                in_string,
                in_backslash,
                empty: current_structure_is_empty,
            }),
            output@ == old(output)@ + pp_output(indent_bytes@, input@.take(n as int)),
        decreases input.len() - n,
    {
        let b = input[n];
        let ghost s = pp_run(input@.take(n as int));
        let ghost before = output@;
        if in_string {
            output.push(b);
            if in_backslash {
                in_backslash = false;
            } else if b == QUOTE {
                in_string = false;
            } else if b == BACKSLASH {
                in_backslash = true;
            }
        } else {
            match classify(b) {
                ByteClass::Whitespace => {},
                ByteClass::Open => {
                    output.push(b);
                    depth += 1;
                    current_structure_is_empty = true;
                },
                ByteClass::Close => {
                    depth -= 1;
                    if current_structure_is_empty {
                        current_structure_is_empty = false;
                    } else {
                        put_new_line(output, indent_bytes, depth);
                    }
                    output.push(b);
                    if depth == 0 {
                        output.push(LINE_FEED);
                    }
                },
                ByteClass::Comma => {
                    output.push(b);
                    put_new_line(output, indent_bytes, depth);
                },
                ByteClass::Colon => {
                    output.push(COLON);
                    output.push(SPACE);
                },
                ByteClass::Other => {
                    if current_structure_is_empty {
                        put_new_line(output, indent_bytes, depth);
                        current_structure_is_empty = false;
                    }
                    if b == QUOTE {
                        in_string = true;
                    }
                    output.push(b);
                },
            }
        }
        proof {
            let read = input@.take(n as int + 1);
            assert(read.drop_last() =~= input@.take(n as int));
            assert(read.last() == b);
            assert(output@ =~= before + pp_emit(indent_bytes@, s, b));
        }
        n += 1;
    }
    assert(input@.take(n as int) =~= input@);
}

/// Minimizes `input` into `output`.
pub fn minimize(input: &[u8], output: &mut Vec<u8>)
    ensures
        final(output)@ == old(output)@ + minimize_output(input@),
{
    let mut in_string = false;
    let mut in_backslash = false;
    let mut depth: i128 = 0;
    let mut n: usize = 0;
    assert(output@ =~= old(output)@ + Seq::<u8>::empty());
    while n < input.len()
        invariant
            n <= input.len(),
            -n <= depth <= n,
            minimize_run(input@.take(n as int)) == (Scan {
                depth: depth as int,
                in_string,
                in_backslash,
                empty: false,
            }),
            output@ == old(output)@ + minimize_output(input@.take(n as int)),
        decreases input.len() - n,
    {
        let b = input[n];
        let ghost s = minimize_run(input@.take(n as int));
        let ghost before = output@;
        if in_string {
            output.push(b);
            if in_backslash {
                in_backslash = false;
            } else if b == QUOTE {
                in_string = false;
            } else if b == BACKSLASH {
                in_backslash = true;
            }
        } else {
            match classify(b) {
                ByteClass::Whitespace => {},
                ByteClass::Open => {
                    output.push(b);
                    depth += 1;
                },
                ByteClass::Close => {
                    output.push(b);
                    depth -= 1;
                    if depth == 0 {
                        output.push(LINE_FEED);
                    }
                },
                _ => {
                    if b == QUOTE {
                        in_string = true;
                    }
                    output.push(b);
                },
            }
        }
        proof {
            let read = input@.take(n as int + 1);
            assert(read.drop_last() =~= input@.take(n as int));
            assert(read.last() == b);
            assert(output@ =~= before + minimize_emit(s, b));
        }
        n += 1;
    }
    assert(input@.take(n as int) =~= input@);
}

} // verus!
