//! Calls into the standard library that are taken on trust.

use vstd::prelude::*;
use vstd::utf8::{decode_utf8, valid_utf8};

verus! {

/// What `String::from_utf8_lossy` makes of some bytes.
pub uninterp spec fn lossy_text(bytes: Seq<u8>) -> Seq<char>;

/// How `{:?}` shows a `std::time::Duration` of some milliseconds.
pub uninterp spec fn duration_text(millis: u64) -> Seq<char>;

/// Calls `String::from_utf8_lossy`. The result is a function of the bytes, and
/// bytes that are valid UTF-8 are decoded as they are. Which replacement
/// characters stand for invalid bytes is left unsaid.
#[verifier::external_body]
pub(crate) fn text_lossy(bytes: &[u8]) -> (r: String)
    ensures
        r@ == lossy_text(bytes@),
        valid_utf8(bytes@) ==> r@ == decode_utf8(bytes@),
{
    String::from_utf8_lossy(bytes).into_owned()
}

/// Calls `String::from_utf8`, which succeeds exactly on valid UTF-8 and then
/// gives the text that the bytes encode.
#[verifier::external_body]
pub(crate) fn text_strict(bytes: Vec<u8>) -> (r: Option<String>)
    ensures
        r is Some <==> valid_utf8(bytes@),
        r matches Some(s) ==> s@ == decode_utf8(bytes@),
{
    String::from_utf8(bytes).ok()
}

/// Formats a `std::time::Duration` of `millis` milliseconds with `{:?}`. The
/// result is a function of the number; its form is left unsaid.
#[verifier::external_body]
pub(crate) fn show_duration(millis: u64) -> (r: String)
    ensures
        r@ == duration_text(millis),
{
    format!("{:?}", std::time::Duration::from_millis(millis))
}

} // verus!
