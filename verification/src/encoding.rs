//! Text stays text. The formatter never splits a character: it inserts its
//! own strings only next to ASCII tokens or in front of a character's first
//! byte, and it drops nothing but ASCII whitespace. So well-formed UTF-8
//! goes in and well-formed UTF-8 comes out.

use vstd::prelude::*;
use vstd::utf8::{
    decode_utf8_encode_utf8, encode_utf8, encode_utf8_valid_utf8, is_ascii_chars_encode_utf8,
    length_of_first_scalar, pop_first_scalar, take_first_scalar, valid_utf8, valid_utf8_concat,
};
use crate::bytes::{class_of, ByteClass};
use crate::chunking::{lemma_output_concat, lemma_output_one};
use crate::model::{
    after_close, before_close, before_open, before_other, formatted, formatted_text,
    indentation, output, run, Cursor, Layout,
};

verus! {

/// Every byte of `bytes` lies outside ASCII: it is part of a character that
/// takes more than one byte.
pub open spec fn all_high(bytes: Seq<u8>) -> bool {
    forall|i: int| 0 <= i < bytes.len() ==> #[trigger] bytes[i] >= 0x80
}

/// Copies of a well-formed indent are well-formed.
proof fn lemma_indentation_is_text(indent: Seq<u8>, depth: nat)
    requires
        valid_utf8(indent),
    ensures
        valid_utf8(indentation(indent, depth)),
    decreases depth,
{
    if depth > 0 {
        lemma_indentation_is_text(indent, (depth - 1) as nat);
        valid_utf8_concat(indentation(indent, (depth - 1) as nat), indent);
    }
}

/// Whatever a layout of well-formed strings inserts around a token is
/// well-formed.
proof fn lemma_insertions_are_text(l: Layout, c: Cursor)
    requires
        l.is_text(),
    ensures
        valid_utf8(before_open(l, c)),
        valid_utf8(before_close(l, c)),
        valid_utf8(after_close(l, c)),
        valid_utf8(before_other(l, c)),
        valid_utf8(l.line_break(c.depth as nat)),
{
    lemma_indentation_is_text(l.indent, c.depth as nat);
    lemma_indentation_is_text(l.indent, c.shallower() as nat);
    valid_utf8_concat(l.line_separator, indentation(l.indent, c.depth as nat));
    valid_utf8_concat(l.line_separator, indentation(l.indent, c.shallower() as nat));
}

/// The bytes of a character outside ASCII are copied in one piece: nothing
/// is inserted between them, and the only thing that can stand in front of
/// them is what stands in front of any token.
pub proof fn lemma_high_bytes_stay_together(l: Layout, c: Cursor, bytes: Seq<u8>)
    requires
        all_high(bytes),
        bytes.len() > 0,
    ensures
        output(l, c, bytes) == (if c.in_string {
            Seq::<u8>::empty()
        } else {
            before_other(l, c)
        }) + bytes,
        run(c, bytes).in_string == c.in_string,
        !c.in_string ==> !run(c, bytes).empty,
    decreases bytes.len(),
{
    let lead = if c.in_string {
        Seq::<u8>::empty()
    } else {
        before_other(l, c)
    };
    let head = bytes.drop_last();
    let b = bytes.last();
    assert(b >= 0x80);
    assert(class_of(b) == ByteClass::Other);
    if head.len() == 0 {
        assert(output(l, c, head) =~= Seq::<u8>::empty());
        assert(output(l, c, bytes) =~= lead + bytes);
    } else {
        assert forall|i: int| 0 <= i < head.len() implies #[trigger] head[i] >= 0x80 by {
            assert(head[i] == bytes[i]);
        }
        lemma_high_bytes_stay_together(l, c, head);
        assert(output(l, c, bytes) =~= lead + bytes);
    }
}

/// What is emitted for the bytes of the first character of well-formed
/// input is well-formed.
proof fn lemma_first_character_stays_whole(l: Layout, c: Cursor, input: Seq<u8>)
    requires
        l.is_text(),
        valid_utf8(input),
        input.len() > 0,
    ensures
        valid_utf8(output(l, c, take_first_scalar(input))),
{
    let first = take_first_scalar(input);
    assert(valid_utf8(first)) by {
        reveal_with_fuel(valid_utf8, 2);
    }
    lemma_insertions_are_text(l, c);
    if length_of_first_scalar(input) == 1 {
        let b = input[0];
        assert(first =~= seq![b]);
        lemma_output_one(l, c, b);
        if c.in_string {
        } else {
            match class_of(b) {
                ByteClass::Whitespace => {},
                ByteClass::Open => {
                    assert(before_open(l, c).push(b) =~= before_open(l, c) + first);
                    valid_utf8_concat(before_open(l, c), first);
                },
                ByteClass::Close => {
                    assert(before_close(l, c).push(b) =~= before_close(l, c) + first);
                    valid_utf8_concat(before_close(l, c), first);
                    valid_utf8_concat(before_close(l, c) + first, after_close(l, c));
                },
                ByteClass::Comma => {
                    valid_utf8_concat(first, l.line_break(c.depth as nat));
                },
                ByteClass::Colon => {
                    valid_utf8_concat(first, l.after_colon);
                },
                ByteClass::Other => {
                    assert(before_other(l, c).push(b) =~= before_other(l, c) + first);
                    valid_utf8_concat(before_other(l, c), first);
                },
            }
        }
    } else {
        assert(all_high(first));
        lemma_high_bytes_stay_together(l, c, first);
        if c.in_string {
            assert(Seq::<u8>::empty() + first =~= first);
        } else {
            valid_utf8_concat(before_other(l, c), first);
        }
    }
}

/// Text stays text: with options that are well-formed UTF-8, formatting
/// well-formed UTF-8 gives well-formed UTF-8, from whatever state the
/// formatter starts in.
pub proof fn lemma_output_is_text(l: Layout, c: Cursor, input: Seq<u8>)
    requires
        l.is_text(),
        valid_utf8(input),
    ensures
        valid_utf8(output(l, c, input)),
        valid_utf8(formatted(l, c, input)),
    decreases input.len(),
{
    if input.len() > 0 {
        let first = take_first_scalar(input);
        let rest = pop_first_scalar(input);
        assert(input =~= first + rest);
        lemma_first_character_stays_whole(l, c, input);
        lemma_output_is_text(l, run(c, first), rest);
        lemma_output_concat(l, c, first, rest);
        valid_utf8_concat(output(l, c, first), output(l, run(c, first), rest));
    }
    valid_utf8_concat(output(l, c, input), l.trailing_output);
}

/// The presets are text.
pub proof fn lemma_presets_are_text()
    ensures
        Layout::pretty().is_text(),
        Layout::minimal().is_text(),
{
    let blank = seq![' ', ' '];
    let feed = seq!['\n'];
    let none = Seq::<char>::empty();
    is_ascii_chars_encode_utf8(blank);
    is_ascii_chars_encode_utf8(feed);
    is_ascii_chars_encode_utf8(blank.take(1));
    encode_utf8_valid_utf8(blank);
    encode_utf8_valid_utf8(feed);
    encode_utf8_valid_utf8(blank.take(1));
    encode_utf8_valid_utf8(none);
    assert(encode_utf8(blank) =~= Layout::pretty().indent);
    assert(encode_utf8(feed) =~= Layout::pretty().line_separator);
    assert(encode_utf8(blank.take(1)) =~= Layout::pretty().after_colon);
    assert(encode_utf8(none) =~= Layout::pretty().trailing_output);
}

/// The text that formatting returns is the formatted bytes read as UTF-8:
/// encoding it gives exactly those bytes back.
pub proof fn lemma_text_of_output(l: Layout, c: Cursor, json: Seq<char>)
    requires
        l.is_text(),
    ensures
        valid_utf8(formatted(l, c, encode_utf8(json))),
        encode_utf8(formatted_text(l, c, json)) == formatted(l, c, encode_utf8(json)),
{
    encode_utf8_valid_utf8(json);
    lemma_output_is_text(l, c, encode_utf8(json));
    decode_utf8_encode_utf8(formatted(l, c, encode_utf8(json)));
}

} // verus!
