//! The executable formatter: a byte-at-a-time state machine that is proved to
//! compute the functions of [`crate::model`].

use vstd::prelude::*;
use vstd::utf8::*;
use crate::bytes::{class_of, classify, ByteClass, BACKSLASH, QUOTE};
use crate::encoding::lemma_output_is_text;
use crate::model::{
    after_close, before_close, before_open, before_other, emit, formatted, formatted_text,
    indentation, minimized, minimized_text, output, pretty_printed, pretty_printed_text, run,
    step, Cursor, Layout,
};
use crate::text::{string_from_utf8, utf8_error_message};

verus! {

/// `Formatter` allows customizable pretty-printing, minimizing, and other
/// formatting tasks on JSON-encoded UTF-8 data in string or stream format.
///
/// The string fields and the eager mode are the options; they may be changed
/// between two runs. `state` is the position inside the stream: it starts
/// afresh with every new `Formatter`, and only formatting moves it.
pub struct Formatter {
    /// Used for beginning-of-line indentation in arrays and objects.
    pub indent: String,
    /// Used inside arrays and objects.
    pub line_separator: String,
    /// Used between root-level arrays and objects.
    pub record_separator: String,
    /// Used after a colon inside objects.
    pub after_colon: String,
    /// Used at very end of output.
    pub trailing_output: String,
    /// Emit the record separator as soon as a root-level array or object
    /// ends, before any later record is seen, rather than when the next one
    /// starts.
    pub eager_record_separator: bool,
    /// Where the formatter stands in its stream.
    pub state: FormatterState,
}

/// The position of a formatter inside its stream. It can be read, but only
/// the formatter moves it, and only a new formatter starts from the
/// beginning.
pub struct FormatterState {
    cursor: Cursor,
}

impl View for FormatterState {
    type V = Cursor;

    closed spec fn view(&self) -> Cursor {
        self.cursor
    }
}

impl FormatterState {
    /// The position before any input.
    fn new() -> (state: FormatterState)
        ensures
            state@ == Cursor::start(),
    {
        FormatterState {
            cursor: Cursor {
                depth: 0,
                in_string: false,
                in_backslash: false,
                empty: false,
                first: true,
            },
        }
    }

    /// The position as a plain value: the nesting depth reached, and whether
    /// the next byte belongs to a string literal.
    pub fn cursor(&self) -> (c: Cursor)
        ensures
            c == self@,
    {
        self.cursor
    }
}

/// Appends `bytes` to `writer`.
pub(crate) fn put(writer: &mut Vec<u8>, bytes: &[u8])
    ensures
        final(writer)@ == old(writer)@ + bytes@,
{
    writer.extend_from_slice(bytes);
    assert(writer@ =~= old(writer)@ + bytes@);
}

impl Formatter {
    /// The defaults that the presets start from: those of the pretty-printer,
    /// at the beginning of a stream.
    fn default() -> (f: Formatter)
        ensures
            f.layout() == Layout::pretty(),
            f.state@ == Cursor::start(),
    {
        proof {
            reveal_strlit("  ");
            reveal_strlit("\n");
            reveal_strlit(" ");
            reveal_strlit("");
        }
        let f = Formatter {
            indent: "  ".to_owned(),
            line_separator: "\n".to_owned(),
            record_separator: "\n".to_owned(),
            after_colon: " ".to_owned(),
            trailing_output: "".to_owned(),
            eager_record_separator: false,
            state: FormatterState::new(),
        };
        proof {
            is_ascii_chars_encode_utf8(f.indent@);
            is_ascii_chars_encode_utf8(f.line_separator@);
            is_ascii_chars_encode_utf8(f.after_colon@);
            assert(f.layout().indent =~= Layout::pretty().indent);
            assert(f.layout().line_separator =~= Layout::pretty().line_separator);
            assert(f.layout().record_separator =~= Layout::pretty().record_separator);
            assert(f.layout().after_colon =~= Layout::pretty().after_colon);
            assert(f.layout().trailing_output =~= Layout::pretty().trailing_output);
        }
        f
    }

    /// Returns a Formatter set up for pretty-printing. Defaults to using two
    /// spaces of indentation, Unix newlines, and no whitespace at EOF.
    pub fn pretty_printer() -> (f: Formatter)
        ensures
            f.layout() == Layout::pretty(),
            f.state@ == Cursor::start(),
    {
        Formatter::default()
    }

    /// Returns a Formatter set up for minimizing. Defaults to using Unix
    /// newlines between records, and no whitespace at EOF.
    pub fn minimizer() -> (f: Formatter)
        ensures
            f.layout() == Layout::minimal(),
            f.state@ == Cursor::start(),
    {
        let mut xf = Formatter::default();
        proof {
            reveal_strlit("");
            reveal_strlit("\n");
        }
        xf.indent = "".to_owned();
        xf.line_separator = "".to_owned();
        xf.record_separator = "\n".to_owned();
        xf.after_colon = "".to_owned();
        proof {
            is_ascii_chars_encode_utf8(xf.record_separator@);
            assert(xf.layout().indent =~= Layout::minimal().indent);
            assert(xf.layout().line_separator =~= Layout::minimal().line_separator);
            assert(xf.layout().record_separator =~= Layout::minimal().record_separator);
            assert(xf.layout().after_colon =~= Layout::minimal().after_colon);
            assert(xf.layout().trailing_output =~= Layout::minimal().trailing_output);
        }
        xf
    }

    /// The options of this formatter as the byte strings it inserts.
    pub open spec fn layout(&self) -> Layout {
        Layout {
            indent: encode_utf8(self.indent@),
            line_separator: encode_utf8(self.line_separator@),
            record_separator: encode_utf8(self.record_separator@),
            after_colon: encode_utf8(self.after_colon@),
            trailing_output: encode_utf8(self.trailing_output@),
            eager_record_separator: self.eager_record_separator,
        }
    }

    /// `other` has the same options as `self`, field by field.
    pub open spec fn same_options(&self, other: &Formatter) -> bool {
        &&& self.indent == other.indent
        &&& self.line_separator == other.line_separator
        &&& self.record_separator == other.record_separator
        &&& self.after_colon == other.after_colon
        &&& self.trailing_output == other.trailing_output
        &&& self.eager_record_separator == other.eager_record_separator
    }

    /// Appends the line separator and `depth` copies of the indent.
    fn put_line_break(&self, depth: usize, writer: &mut Vec<u8>)
        ensures
            final(writer)@ == old(writer)@ + self.layout().line_break(depth as nat),
    {
        put(writer, self.line_separator.as_str().as_bytes());
        let indent = self.indent.as_str().as_bytes();
        let mut n: usize = 0;
        while n < depth
            invariant
                n <= depth,
                indent@ == self.layout().indent,
                writer@ == old(writer)@ + self.layout().line_separator + indentation(
                    indent@,
                    n as nat,
                ),
            decreases depth - n,
        {
            put(writer, indent);
            n += 1;
            assert(writer@ =~= old(writer)@ + self.layout().line_separator + indentation(
                indent@,
                n as nat,
            ));
        }
        assert(writer@ =~= old(writer)@ + self.layout().line_break(depth as nat));
    }

    /// Copies one byte of a string literal and keeps track of where the
    /// literal ends.
    fn string_byte(&mut self, b: u8, writer: &mut Vec<u8>)
        requires
            old(self).state@.in_string,
        ensures
            final(self).same_options(old(self)),
            final(self).state@ == step(old(self).state@, b),
            final(writer)@ == old(writer)@ + emit(old(self).layout(), old(self).state@, b),
    {
        writer.push(b);
        if self.state.cursor.in_backslash {
            self.state.cursor.in_backslash = false;
        } else if b == QUOTE {
            self.state.cursor.in_string = false;
        } else if b == BACKSLASH {
            self.state.cursor.in_backslash = true;
        }
        assert(writer@ =~= old(writer)@ + seq![b]);
    }

    /// Writes an opening bracket, on a line of its own where it is the first
    /// member of a structure, behind a record separator where it starts a
    /// later record, and goes one level deeper.
    fn open_bracket(&mut self, b: u8, writer: &mut Vec<u8>)
        requires
            !old(self).state@.in_string,
            class_of(b) == ByteClass::Open,
        ensures
            final(self).same_options(old(self)),
            final(self).state@ == step(old(self).state@, b),
            final(writer)@ == old(writer)@ + emit(old(self).layout(), old(self).state@, b),
    {
        if self.state.cursor.first {
            assert(writer@ =~= old(writer)@ + Seq::<u8>::empty());
        } else if self.state.cursor.empty {
            self.put_line_break(self.state.cursor.depth, writer);
        } else if self.state.cursor.depth == 0 && !self.eager_record_separator {
            put(writer, self.record_separator.as_str().as_bytes());
        } else {
            assert(writer@ =~= old(writer)@ + Seq::<u8>::empty());
        }
        assert(writer@ == old(writer)@ + before_open(old(self).layout(), old(self).state@));
        writer.push(b);
        self.state.cursor.depth = self.state.cursor.depth.saturating_add(1);
        self.state.cursor.empty = true;
        self.state.cursor.first = false;
        assert(writer@ =~= old(writer)@ + before_open(old(self).layout(), old(self).state@).push(
            b,
        ));
    }

    /// Goes one level up and writes a closing bracket: straight behind the
    /// opening one if the structure is empty, on a line of its own if not.
    fn close_bracket(&mut self, b: u8, writer: &mut Vec<u8>)
        requires
            !old(self).state@.in_string,
            class_of(b) == ByteClass::Close,
        ensures
            final(self).same_options(old(self)),
            final(self).state@ == step(old(self).state@, b),
            final(writer)@ == old(writer)@ + emit(old(self).layout(), old(self).state@, b),
    {
        let depth = self.state.cursor.depth.saturating_sub(1);
        if self.state.cursor.empty {
            assert(writer@ =~= old(writer)@ + Seq::<u8>::empty());
        } else {
            self.put_line_break(depth, writer);
        }
        assert(writer@ == old(writer)@ + before_close(old(self).layout(), old(self).state@));
        writer.push(b);
        let ghost closed = writer@;
        if self.eager_record_separator && depth == 0 {
            put(writer, self.record_separator.as_str().as_bytes());
        } else {
            assert(writer@ =~= closed + Seq::<u8>::empty());
        }
        assert(writer@ == closed + after_close(old(self).layout(), old(self).state@));
        self.state.cursor.depth = depth;
        self.state.cursor.empty = false;
        self.state.cursor.first = false;
        assert(writer@ =~= old(writer)@ + (before_close(old(self).layout(), old(self).state@).push(
            b,
        ) + after_close(old(self).layout(), old(self).state@)));
    }

    /// Writes a comma and starts the line of the next member.
    fn comma(&mut self, b: u8, writer: &mut Vec<u8>)
        requires
            !old(self).state@.in_string,
            class_of(b) == ByteClass::Comma,
        ensures
            final(self).same_options(old(self)),
            final(self).state@ == step(old(self).state@, b),
            final(writer)@ == old(writer)@ + emit(old(self).layout(), old(self).state@, b),
    {
        writer.push(b);
        self.put_line_break(self.state.cursor.depth, writer);
        self.state.cursor.first = false;
        assert(writer@ =~= old(writer)@ + (seq![b] + old(self).layout().line_break(
            old(self).state@.depth as nat,
        )));
    }

    /// Writes a colon and what the options put behind it.
    fn colon(&mut self, b: u8, writer: &mut Vec<u8>)
        requires
            !old(self).state@.in_string,
            class_of(b) == ByteClass::Colon,
        ensures
            final(self).same_options(old(self)),
            final(self).state@ == step(old(self).state@, b),
            final(writer)@ == old(writer)@ + emit(old(self).layout(), old(self).state@, b),
    {
        writer.push(b);
        put(writer, self.after_colon.as_str().as_bytes());
        self.state.cursor.first = false;
        assert(writer@ =~= old(writer)@ + (seq![b] + old(self).layout().after_colon));
    }

    /// Writes any other byte, on a new line where it is the first member of
    /// a structure. A quote opens a string literal.
    fn other_token(&mut self, b: u8, writer: &mut Vec<u8>)
        requires
            !old(self).state@.in_string,
            class_of(b) == ByteClass::Other,
        ensures
            final(self).same_options(old(self)),
            final(self).state@ == step(old(self).state@, b),
            final(writer)@ == old(writer)@ + emit(old(self).layout(), old(self).state@, b),
    {
        if self.state.cursor.empty {
            self.put_line_break(self.state.cursor.depth, writer);
        } else {
            assert(writer@ =~= old(writer)@ + Seq::<u8>::empty());
        }
        assert(writer@ == old(writer)@ + before_other(old(self).layout(), old(self).state@));
        writer.push(b);
        self.state.cursor.in_string = b == QUOTE;
        self.state.cursor.empty = false;
        self.state.cursor.first = false;
        assert(writer@ =~= old(writer)@ + before_other(old(self).layout(), old(self).state@).push(
            b,
        ));
    }

    /// Formats one byte of input into `writer`.
    fn format_byte(&mut self, b: u8, writer: &mut Vec<u8>)
        ensures
            final(self).same_options(old(self)),
            final(self).state@ == step(old(self).state@, b),
            final(writer)@ == old(writer)@ + emit(old(self).layout(), old(self).state@, b),
    {
        if self.state.cursor.in_string {
            self.string_byte(b, writer);
        } else {
            match classify(b) {
                ByteClass::Whitespace => {
                    assert(writer@ =~= old(writer)@ + Seq::<u8>::empty());
                },
                ByteClass::Open => self.open_bracket(b, writer),
                ByteClass::Close => self.close_bracket(b, writer),
                ByteClass::Comma => self.comma(b, writer),
                ByteClass::Colon => self.colon(b, writer),
                ByteClass::Other => self.other_token(b, writer),
            }
        }
    }

    /// Formats one chunk of a stream into `writer` and remembers where the
    /// chunk ended, so that the next chunk continues from there. How a stream
    /// is cut into chunks makes no difference to what is written.
    pub fn format_buf(&mut self, buf: &[u8], writer: &mut Vec<u8>)
        ensures
            final(self).same_options(old(self)),
            final(self).state@ == run(old(self).state@, buf@),
            final(writer)@ == old(writer)@ + output(old(self).layout(), old(self).state@, buf@),
    {
        let mut n: usize = 0;
        assert(writer@ =~= old(writer)@ + Seq::<u8>::empty());
        while n < buf.len()
            invariant
                n <= buf.len(),
                self.same_options(old(self)),
                self.state@ == run(old(self).state@, buf@.take(n as int)),
                writer@ == old(writer)@ + output(
                    old(self).layout(),
                    old(self).state@,
                    buf@.take(n as int),
                ),
            decreases buf.len() - n,
        {
            self.format_byte(buf[n], writer);
            proof {
                let read = buf@.take(n as int + 1);
                assert(read.drop_last() =~= buf@.take(n as int));
                assert(read.last() == buf@[n as int]);
                assert(writer@ =~= old(writer)@ + output(
                    old(self).layout(),
                    old(self).state@,
                    read,
                ));
            }
            n += 1;
        }
        assert(buf@.take(n as int) =~= buf@);
    }

    /// Formats a stream of JSON-encoded data held in memory: all of `input`
    /// goes through the engine, then the trailing output is appended.
    pub fn format_stream(&mut self, input: &[u8], output: &mut Vec<u8>)
        ensures
            final(self).same_options(old(self)),
            final(self).state@ == run(old(self).state@, input@),
            final(output)@ == old(output)@ + formatted(
                old(self).layout(),
                old(self).state@,
                input@,
            ),
    {
        self.format_buf(input, output);
        put(output, self.trailing_output.as_str().as_bytes());
        assert(output@ =~= old(output)@ + formatted(
            old(self).layout(),
            old(self).state@,
            input@,
        ));
    }

    /// Formats a string of JSON-encoded data.
    ///
    /// The result is always `Ok`: the formatted bytes are well-formed UTF-8
    /// because the input and the options are, and the text returned is the
    /// one those bytes encode.
    pub fn format(&mut self, json_string: &str) -> (res: Result<String, String>)
        ensures
            final(self).same_options(old(self)),
            final(self).state@ == run(old(self).state@, encode_utf8(json_string@)),
            res matches Ok(text) && text@ == formatted_text(
                old(self).layout(),
                old(self).state@,
                json_string@,
            ),
    {
        let mut bytes: Vec<u8> = Vec::new();
        self.format_stream(json_string.as_bytes(), &mut bytes);
        proof {
            let l = old(self).layout();
            let out = formatted(l, old(self).state@, encode_utf8(json_string@));
            assert(bytes@ =~= out);
            encode_utf8_valid_utf8(old(self).indent@);
            encode_utf8_valid_utf8(old(self).line_separator@);
            encode_utf8_valid_utf8(old(self).record_separator@);
            encode_utf8_valid_utf8(old(self).after_colon@);
            encode_utf8_valid_utf8(old(self).trailing_output@);
            encode_utf8_valid_utf8(json_string@);
            lemma_output_is_text(l, old(self).state@, encode_utf8(json_string@));
        }
        match string_from_utf8(bytes) {
            Ok(text) => {
                proof {
                    encode_utf8_decode_utf8(text@);
                }
                Ok(text)
            },
            Err(error) => Err(utf8_error_message(&error)),
        }
    }
}

/// Pretty-prints a string of JSON-encoded data.
///
/// The output uses two spaces as an indent, a line feed as newline
/// character, and no trailing whitespace. To customize this behavior, use a
/// [`Formatter::pretty_printer`] directly.
pub fn pretty_print(json_string: &str) -> (res: Result<String, String>)
    ensures
        res matches Ok(text) && text@ == pretty_printed_text(json_string@),
{
    let mut xf = Formatter::pretty_printer();
    xf.format(json_string)
}

/// Pretty-prints a stream of JSON-encoded data held in memory, appending the
/// result to `output`.
pub fn pretty_print_stream(input: &[u8], output: &mut Vec<u8>)
    ensures
        final(output)@ == old(output)@ + pretty_printed(input@),
{
    let mut xf = Formatter::pretty_printer();
    xf.format_stream(input, output)
}

/// Minimizes a string of JSON-encoded data.
///
/// The output uses a line feed as newline character between records, and no
/// trailing whitespace. To customize this behavior, use a
/// [`Formatter::minimizer`] directly.
pub fn minimize(json_string: &str) -> (res: Result<String, String>)
    ensures
        res matches Ok(text) && text@ == minimized_text(json_string@),
{
    let mut xf = Formatter::minimizer();
    xf.format(json_string)
}

/// Minimizes a stream of JSON-encoded data held in memory, appending the
/// result to `output`.
pub fn minimize_stream(input: &[u8], output: &mut Vec<u8>)
    ensures
        final(output)@ == old(output)@ + minimized(input@),
{
    let mut xf = Formatter::minimizer();
    xf.format_stream(input, output)
}

} // verus!
