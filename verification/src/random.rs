//! Draws from the operating system's random source.

use vstd::prelude::*;
use rand::distributions::Distribution;
use rand::distributions::Uniform;
use rand::RngCore;
use rand::rngs::OsRng;
use rand::seq::IteratorRandom;
use rand::seq::SliceRandom;

verus! {

/// `RngCore::next_u64` on `OsRng`: sixty-four fresh random bits. Nothing is claimed of the
/// value. `OsRng` stops the process if the operating system has no random source to offer.
#[verifier::external_body]
pub(crate) fn random_u64() -> u64 {
    OsRng.next_u64()
}

/// `RngCore::fill_bytes` on `OsRng`, on a fresh buffer of `len` bytes. Only the length of the
/// result is claimed.
#[verifier::external_body]
pub(crate) fn random_bytes(len: usize) -> (out: Vec<u8>)
    ensures
        out@.len() == len,
{
    let mut out = vec![0u8; len];
    OsRng.fill_bytes(&mut out);
    out
}

/// `Uniform::from(low..high)` sampled once with `OsRng`: a value of the half-open range.
/// `Uniform::new` panics on an empty range, which the precondition leaves out.
#[verifier::external_body]
pub(crate) fn random_in_range(low: usize, high: usize) -> (r: usize)
    requires
        low < high,
    ensures
        low <= r < high,
{
    Uniform::from(low..high).sample(&mut OsRng)
}

/// `IteratorRandom::choose` on the range `0..len` with `OsRng`: one of the indices, or `None`
/// where there is none to choose from.
#[verifier::external_body]
pub(crate) fn choose_index(len: usize) -> (r: Option<usize>)
    ensures
        len == 0 ==> r is None,
        len > 0 ==> r is Some && r->0 < len,
{
    (0..len).choose(&mut OsRng)
}

/// `SliceRandom::shuffle` with `OsRng`: the same items in some order.
#[verifier::external_body]
pub(crate) fn shuffle_in_place(items: &mut Vec<usize>)
    ensures
        final(items)@.to_multiset() == old(items)@.to_multiset(),
{
    items.shuffle(&mut OsRng)
}

} // verus!
