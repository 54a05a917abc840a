//! Turning formatted bytes back into text. The two conversions are the
//! standard library's; their contracts here are taken on trust.

use vstd::prelude::*;
use vstd::utf8::*;

verus! {

#[verifier::external_type_specification]
#[verifier::external_body]
pub struct ExFromUtf8Error(std::string::FromUtf8Error);

/// `String::from_utf8`. Trusted: the call succeeds exactly when `bytes` is
/// well-formed UTF-8, and the string it then returns is made of those very
/// bytes.
#[verifier::external_body]
pub(crate) fn string_from_utf8(bytes: Vec<u8>) -> (res: Result<String, std::string::FromUtf8Error>)
    ensures
        res is Ok <==> valid_utf8(bytes@),
        res matches Ok(s) ==> encode_utf8(s@) == bytes@,
{
    String::from_utf8(bytes)
}

/// `ToString::to_string` on a `FromUtf8Error`: the error's message. Nothing
/// is claimed about its wording.
#[verifier::external_body]
pub(crate) fn utf8_error_message(error: &std::string::FromUtf8Error) -> (message: String) {
    error.to_string()
}

} // verus!
