//! The mathematical model of the formatter: what it has to remember between
//! two bytes, what it emits for each byte, and what a whole input turns into.
//!
//! Everything here is specification. The executable formatter is proved to
//! compute exactly these functions.

use vstd::prelude::*;
use vstd::utf8::{decode_utf8, encode_utf8, valid_utf8};
use crate::bytes::{
    all_blank, all_whitespace, class_of, ByteClass, BACKSLASH, LINE_FEED, QUOTE, SPACE,
};

verus! {

/// The strings a formatter copies into its output, as bytes. None of them is
/// read as JSON: they are inserted verbatim.
pub struct Layout {
    /// Repeated once per nesting level at the start of a line.
    pub indent: Seq<u8>,
    /// Emitted between the members of an array or object and before its
    /// closing bracket.
    pub line_separator: Seq<u8>,
    /// Emitted between two root-level values.
    pub record_separator: Seq<u8>,
    /// Emitted after a colon.
    pub after_colon: Seq<u8>,
    /// Appended once, after the whole input.
    pub trailing_output: Seq<u8>,
    /// When set, the record separator is emitted as soon as a root-level
    /// array or object closes, instead of when the next one opens.
    pub eager_record_separator: bool,
}

/// What the formatter remembers between two bytes of input.
#[derive(Clone, Copy, Debug, PartialEq, Eq, Structural)]
pub struct Cursor {
    /// How many arrays and objects are open. Clamped to the range of `usize`
    /// at both ends, so unbalanced input cannot make it wrap.
    pub depth: usize,
    /// The next byte belongs to a string literal.
    pub in_string: bool,
    /// The next byte follows a backslash inside a string literal.
    pub in_backslash: bool,
    /// The structure opened last has no member yet: only whitespace, commas
    /// and colons have followed its opening bracket.
    pub empty: bool,
    /// No byte other than whitespace has been read yet.
    pub first: bool,
}

impl Layout {
    /// Two spaces of indentation, one member per line, a space after each
    /// colon, a line feed between records.
    pub open spec fn pretty() -> Layout {
        Layout {
            indent: seq![SPACE, SPACE],
            line_separator: seq![LINE_FEED],
            record_separator: seq![LINE_FEED],
            after_colon: seq![SPACE],
            trailing_output: Seq::empty(),
            eager_record_separator: false,
        }
    }

    /// No whitespace at all inside a record, a line feed between records.
    pub open spec fn minimal() -> Layout {
        Layout {
            indent: Seq::empty(),
            line_separator: Seq::empty(),
            record_separator: seq![LINE_FEED],
            after_colon: Seq::empty(),
            trailing_output: Seq::empty(),
            eager_record_separator: false,
        }
    }

    /// Nothing is inserted anywhere: what is left of an input is its tokens.
    pub open spec fn bare() -> Layout {
        Layout {
            indent: Seq::empty(),
            line_separator: Seq::empty(),
            record_separator: Seq::empty(),
            after_colon: Seq::empty(),
            trailing_output: Seq::empty(),
            eager_record_separator: false,
        }
    }

    /// The line separator followed by `depth` copies of the indent: what
    /// starts a new line at nesting level `depth`.
    pub open spec fn line_break(self, depth: nat) -> Seq<u8> {
        self.line_separator + indentation(self.indent, depth)
    }

    /// The layout of a pretty-printer: lines end in a single line feed, and
    /// whatever else is inserted is made of spaces and tabs. The indent and
    /// the eager mode are free.
    pub open spec fn breaks_lines(self) -> bool {
        &&& self.line_separator == seq![LINE_FEED]
        &&& self.record_separator == seq![LINE_FEED]
        &&& all_blank(self.indent)
        &&& all_blank(self.after_colon)
    }

    /// Every string of the layout is well-formed UTF-8, as the options of a
    /// formatter always are.
    pub open spec fn is_text(self) -> bool {
        &&& valid_utf8(self.indent)
        &&& valid_utf8(self.line_separator)
        &&& valid_utf8(self.record_separator)
        &&& valid_utf8(self.after_colon)
        &&& valid_utf8(self.trailing_output)
    }

    /// Everything the engine inserts between tokens is insignificant
    /// whitespace, so that its output reads back as the same JSON.
    pub open spec fn inserts_whitespace_only(self) -> bool {
        &&& all_whitespace(self.indent)
        &&& all_whitespace(self.line_separator)
        &&& all_whitespace(self.record_separator)
        &&& all_whitespace(self.after_colon)
    }
}

impl Cursor {
    /// The state before any input: depth zero, outside any string, nothing
    /// read yet.
    pub open spec fn start() -> Cursor {
        Cursor { depth: 0, in_string: false, in_backslash: false, empty: false, first: true }
    }

    /// The depth after one more bracket has opened.
    pub open spec fn deeper(self) -> usize {
        if self.depth < usize::MAX {
            (self.depth + 1) as usize
        } else {
            self.depth
        }
    }

    /// The depth after one bracket has closed.
    pub open spec fn shallower(self) -> usize {
        if self.depth > 0 {
            (self.depth - 1) as usize
        } else {
            self.depth
        }
    }
}

/// `depth` copies of `indent`, one after the other.
pub open spec fn indentation(indent: Seq<u8>, depth: nat) -> Seq<u8>
    decreases depth,
{
    if depth == 0 {
        Seq::empty()
    } else {
        indentation(indent, (depth - 1) as nat) + indent
    }
}

/// The state after reading the byte `b` in state `c`. It does not depend on
/// the layout.
pub open spec fn step(c: Cursor, b: u8) -> Cursor {
    if c.in_string {
        if c.in_backslash {
            Cursor { in_backslash: false, ..c }
        } else if b == QUOTE {
            Cursor { in_string: false, ..c }
        } else if b == BACKSLASH {
            Cursor { in_backslash: true, ..c }
        } else {
            c
        }
    } else {
        match class_of(b) {
            ByteClass::Whitespace => c,
            ByteClass::Open => Cursor { depth: c.deeper(), empty: true, first: false, ..c },
            ByteClass::Close => Cursor { depth: c.shallower(), empty: false, first: false, ..c },
            ByteClass::Comma | ByteClass::Colon => Cursor { first: false, ..c },
            ByteClass::Other => Cursor {
                in_string: b == QUOTE,
                empty: false,
                first: false,
                ..c
            },
        }
    }
}

/// What is inserted in front of an opening bracket read in state `c`.
pub open spec fn before_open(l: Layout, c: Cursor) -> Seq<u8> {
    if c.first {
        Seq::empty()
    } else if c.empty {
        l.line_break(c.depth as nat)
    } else if c.depth == 0 && !l.eager_record_separator {
        l.record_separator
    } else {
        Seq::empty()
    }
}

/// What is inserted in front of a closing bracket read in state `c`.
pub open spec fn before_close(l: Layout, c: Cursor) -> Seq<u8> {
    if c.empty {
        Seq::empty()
    } else {
        l.line_break(c.shallower() as nat)
    }
}

/// What is inserted behind a closing bracket read in state `c`.
pub open spec fn after_close(l: Layout, c: Cursor) -> Seq<u8> {
    if l.eager_record_separator && c.shallower() == 0 {
        l.record_separator
    } else {
        Seq::empty()
    }
}

/// What is inserted in front of any other token read in state `c`.
pub open spec fn before_other(l: Layout, c: Cursor) -> Seq<u8> {
    if c.empty {
        l.line_break(c.depth as nat)
    } else {
        Seq::empty()
    }
}

/// The bytes emitted for the byte `b` read in state `c`.
pub open spec fn emit(l: Layout, c: Cursor, b: u8) -> Seq<u8> {
    if c.in_string {
        seq![b]
    } else {
        match class_of(b) {
            ByteClass::Whitespace => Seq::empty(),
            ByteClass::Open => before_open(l, c).push(b),
            ByteClass::Close => before_close(l, c).push(b) + after_close(l, c),
            ByteClass::Comma => seq![b] + l.line_break(c.depth as nat),
            ByteClass::Colon => seq![b] + l.after_colon,
            ByteClass::Other => before_other(l, c).push(b),
        }
    }
}

/// The state after reading all of `input`, byte by byte, from state `c`.
pub open spec fn run(c: Cursor, input: Seq<u8>) -> Cursor
    decreases input.len(),
{
    if input.len() == 0 {
        c
    } else {
        step(run(c, input.drop_last()), input.last())
    }
}

/// Everything emitted while reading `input` from state `c`.
pub open spec fn output(l: Layout, c: Cursor, input: Seq<u8>) -> Seq<u8>
    decreases input.len(),
{
    if input.len() == 0 {
        Seq::empty()
    } else {
        output(l, c, input.drop_last()) + emit(l, run(c, input.drop_last()), input.last())
    }
}

/// The complete result of formatting `input` as one stream from state `c`:
/// what the engine emits, then the trailing output.
pub open spec fn formatted(l: Layout, c: Cursor, input: Seq<u8>) -> Seq<u8> {
    output(l, c, input) + l.trailing_output
}

/// The complete result of formatting the text `json` as one stream from
/// state `c`, as text: the characters that the formatted bytes encode.
pub open spec fn formatted_text(l: Layout, c: Cursor, json: Seq<char>) -> Seq<char> {
    decode_utf8(formatted(l, c, encode_utf8(json)))
}

/// What pretty-printing turns a whole input into.
pub open spec fn pretty_printed(input: Seq<u8>) -> Seq<u8> {
    formatted(Layout::pretty(), Cursor::start(), input)
}

/// What minimizing turns a whole input into.
pub open spec fn minimized(input: Seq<u8>) -> Seq<u8> {
    formatted(Layout::minimal(), Cursor::start(), input)
}

/// What pretty-printing turns a text into.
pub open spec fn pretty_printed_text(json: Seq<char>) -> Seq<char> {
    formatted_text(Layout::pretty(), Cursor::start(), json)
}

/// What minimizing turns a text into.
pub open spec fn minimized_text(json: Seq<char>) -> Seq<char> {
    formatted_text(Layout::minimal(), Cursor::start(), json)
}

} // verus!
