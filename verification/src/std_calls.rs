//! Calls into std that vstd gives no specification, each with the contract
//! that std's documentation supports.
use vstd::prelude::*;

verus! {

/// `Vec::capacity`. Its documentation promises at least the vector's
/// length; what more the allocator gave is not stated.
#[verifier::external_body]
pub(crate) fn vec_capacity<T>(v: &Vec<T>) -> (c: usize)
    ensures
        c >= v@.len(),
{
    v.capacity()
}

/// `Vec::try_reserve_exact`. Its documentation promises that the contents
/// are unchanged; whether the allocator grants the reservation is not stated.
#[verifier::external_body]
pub(crate) fn vec_try_reserve_exact<T>(v: &mut Vec<T>, additional: usize) -> (r: Result<
    (),
    std::collections::TryReserveError,
>)
    ensures
        final(v)@ == old(v)@,
{
    v.try_reserve_exact(additional)
}

/// `String::capacity`. Its documentation promises at least the string's
/// byte length; what more the allocator gave is not stated.
#[verifier::external_body]
pub(crate) fn string_capacity(s: &String) -> (c: usize)
    ensures
        c >= vstd::utf8::encode_utf8(s@).len(),
{
    s.capacity()
}

/// `String::try_reserve_exact`. Its documentation promises that the
/// contents are unchanged; whether the allocator grants the reservation is
/// not stated.
#[verifier::external_body]
pub(crate) fn string_try_reserve_exact(s: &mut String, additional: usize) -> (r: Result<
    (),
    std::collections::TryReserveError,
>)
    ensures
        final(s)@ == old(s)@,
{
    s.try_reserve_exact(additional)
}

/// `String::try_reserve`. Its documentation promises that the contents are
/// unchanged; whether the allocator grants the reservation is not stated.
#[verifier::external_body]
pub(crate) fn string_try_reserve(s: &mut String, additional: usize) -> (r: Result<
    (),
    std::collections::TryReserveError,
>)
    ensures
        final(s)@ == old(s)@,
{
    s.try_reserve(additional)
}

/// `&bytes[start..]`: the bytes from `start` on, as slicing by a range
/// from `start` is documented to give.
#[verifier::external_body]
pub(crate) fn slice_from(bytes: &[u8], start: usize) -> (r: &[u8])
    requires
        start <= bytes@.len(),
    ensures
        r@ == bytes@.subrange(start as int, bytes@.len() as int),
{
    &bytes[start..]
}

} // verus!
