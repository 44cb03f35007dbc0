//! The observations of one cycle as they came, held in a
//! `heapless::Vec` of ten places until the cycle's record is made.
//!
//! The verifier sees such a list only through [`echo_items`]; what is said
//! here of the `heapless` functions is taken on trust from their source.

use vstd::prelude::*;

verus! {

/// The bounded list type of `heapless`, opaque to the verifier.
#[verifier::external_type_specification]
#[verifier::external_body]
#[verifier::reject_recursive_types(T)]
pub struct ExBoundedList<T, const N: usize>(heapless::Vec<T, N>);

/// The name, signal and channel of each observation that a list holds, in
/// order.
pub uninterp spec fn echo_items(list: heapless::Vec<(String, i8, u8), 10>) -> Seq<
    (Seq<char>, i8, u8),
>;

/// `heapless::Vec::new()`: a list that holds nothing.
#[verifier::external_body]
pub(crate) fn new_echo() -> (list: heapless::Vec<(String, i8, u8), 10>)
    ensures
        echo_items(list) == Seq::<(Seq<char>, i8, u8)>::empty(),
{
    heapless::Vec::new()
}

/// `heapless::Vec::push`: with fewer than ten items held, the item is added
/// at the end; with ten held, the list stays as it is and the item is handed
/// back, which shows here as `false`.
#[verifier::external_body]
pub(crate) fn push_echo(
    list: &mut heapless::Vec<(String, i8, u8), 10>,
    name: String,
    signal: i8,
    channel: u8,
) -> (pushed: bool)
    ensures
        pushed == (echo_items(*old(list)).len() < 10),
        pushed ==> echo_items(*final(list)) == echo_items(*old(list)).push(
            (name@, signal, channel),
        ),
        !pushed ==> echo_items(*final(list)) == echo_items(*old(list)),
{
    list.push((name, signal, channel)).is_ok()
}

/// `heapless::Vec::as_slice`, for its length: the number of items held.
#[verifier::external_body]
pub(crate) fn echo_len(list: &heapless::Vec<(String, i8, u8), 10>) -> (n: usize)
    ensures
        n == echo_items(*list).len(),
{
    list.as_slice().len()
}

/// `heapless::Vec::as_slice`, for one item: a copy of the item at `index`.
#[verifier::external_body]
pub(crate) fn echo_item(list: &heapless::Vec<(String, i8, u8), 10>, index: usize) -> (item: (
    String,
    i8,
    u8,
))
    requires
        index < echo_items(*list).len(),
    ensures
        (item.0@, item.1, item.2) == echo_items(*list)[index as int],
{
    list.as_slice()[index].clone()
}

} // verus!
