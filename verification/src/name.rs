//! Network names of bounded size, held in `heapless::String<32>`.
//!
//! The verifier sees such a string only through [`name_text`]; what is said
//! here of the `heapless` functions is taken on trust from their source.

use vstd::prelude::*;
use vstd::string::*;

verus! {

/// The bounded string type of `heapless`, opaque to the verifier.
#[verifier::external_type_specification]
#[verifier::external_body]
pub struct ExBoundedString<const N: usize>(heapless::String<N>);

/// The text that a bounded name holds.
pub uninterp spec fn name_text(s: heapless::String<32>) -> Seq<char>;

/// Whether a text fits in a bounded name: at most 32 bytes of UTF-8.
pub open spec fn fits(text: Seq<char>) -> bool {
    vstd::utf8::encode_utf8(text).len() <= 32
}

/// The name under which a network is tracked: its own name where that fits,
/// the empty name where it does not.
pub open spec fn key_of(text: Seq<char>) -> Seq<char> {
    if fits(text) {
        text
    } else {
        Seq::empty()
    }
}

/// `heapless::String::<32>::try_from(&str)`: succeeds exactly when the text
/// takes at most 32 bytes, and the string then holds that text.
#[verifier::external_body]
fn try_bounded(s: &str) -> (r: Option<heapless::String<32>>)
    ensures
        r is Some <==> fits(s@),
        r is Some ==> name_text(r->0) == s@,
{
    heapless::String::try_from(s).ok()
}

/// `heapless::String::new()`: a string that holds no text.
#[verifier::external_body]
fn empty_bounded() -> (r: heapless::String<32>)
    ensures
        name_text(r) == Seq::<char>::empty(),
{
    heapless::String::new()
}

/// `==` on two `heapless::String<32>`: true exactly when they hold the same text.
#[verifier::external_body]
pub(crate) fn same_name(a: &heapless::String<32>, b: &heapless::String<32>) -> (r: bool)
    ensures
        r == (name_text(*a) == name_text(*b)),
{
    a == b
}

/// `heapless::String::as_str`, copied into an owned `String`: the text held.
#[verifier::external_body]
pub(crate) fn name_to_string(a: &heapless::String<32>) -> (r: String)
    ensures
        r@ == name_text(*a),
{
    a.as_str().to_owned()
}

/// The key for a network name: the name itself, or the empty name where it
/// is longer than a key can be.
pub(crate) fn bounded(s: &str) -> (r: heapless::String<32>)
    ensures
        name_text(r) == key_of(s@),
{
    match try_bounded(s) {
        Some(n) => n,
        None => empty_bounded(),
    }
}

} // verus!
