//! The bytes that matter to the formatter, and the classes it sorts input
//! bytes into while it is outside a string literal.

use vstd::prelude::*;

verus! {

pub const SPACE: u8 = 0x20;

pub const TAB: u8 = 0x09;

pub const LINE_FEED: u8 = 0x0a;

pub const CARRIAGE_RETURN: u8 = 0x0d;

pub const COMMA: u8 = 0x2c;

pub const COLON: u8 = 0x3a;

pub const QUOTE: u8 = 0x22;

pub const BACKSLASH: u8 = 0x5c;

pub const LEFT_BRACE: u8 = 0x7b;

pub const LEFT_BRACKET: u8 = 0x5b;

pub const RIGHT_BRACE: u8 = 0x7d;

pub const RIGHT_BRACKET: u8 = 0x5d;

/// What a byte means to the formatter when it is met outside a string literal.
#[derive(Clone, Copy, Debug, PartialEq, Eq, Structural)]
pub enum ByteClass {
    /// Space, tab, carriage return or line feed: dropped from the output.
    Whitespace,
    /// `{` or `[`.
    Open,
    /// `}` or `]`.
    Close,
    /// `,`.
    Comma,
    /// `:`.
    Colon,
    /// Anything else, the quote that opens a string literal included.
    Other,
}

/// Space or tab: whitespace that does not end a line.
pub open spec fn is_blank(b: u8) -> bool {
    b == SPACE || b == TAB
}

/// The four bytes that JSON treats as insignificant whitespace.
pub open spec fn is_whitespace(b: u8) -> bool {
    is_blank(b) || b == LINE_FEED || b == CARRIAGE_RETURN
}

/// `{` or `[`.
pub open spec fn is_open(b: u8) -> bool {
    b == LEFT_BRACE || b == LEFT_BRACKET
}

/// `}` or `]`.
pub open spec fn is_close(b: u8) -> bool {
    b == RIGHT_BRACE || b == RIGHT_BRACKET
}

/// The class of `b` outside a string literal.
pub open spec fn class_of(b: u8) -> ByteClass {
    if is_whitespace(b) {
        ByteClass::Whitespace
    } else if is_open(b) {
        ByteClass::Open
    } else if is_close(b) {
        ByteClass::Close
    } else if b == COMMA {
        ByteClass::Comma
    } else if b == COLON {
        ByteClass::Colon
    } else {
        ByteClass::Other
    }
}

/// Every byte of `s` is a space or a tab.
pub open spec fn all_blank(s: Seq<u8>) -> bool {
    forall|i: int| 0 <= i < s.len() ==> is_blank(#[trigger] s[i])
}

/// Every byte of `s` is insignificant whitespace.
pub open spec fn all_whitespace(s: Seq<u8>) -> bool {
    forall|i: int| 0 <= i < s.len() ==> is_whitespace(#[trigger] s[i])
}

/// Sorts `b` into its class.
pub fn classify(b: u8) -> (class: ByteClass)
    ensures
        class == class_of(b),
{
    if b == SPACE || b == LINE_FEED || b == CARRIAGE_RETURN || b == TAB {
        ByteClass::Whitespace
    } else if b == LEFT_BRACKET || b == LEFT_BRACE {
        ByteClass::Open
    } else if b == RIGHT_BRACKET || b == RIGHT_BRACE {
        ByteClass::Close
    } else if b == COMMA {
        ByteClass::Comma
    } else if b == COLON {
        ByteClass::Colon
    } else {
        ByteClass::Other
    }
}

} // verus!
