//! Matching the discriminator bytes that start an account's data.
use vstd::prelude::*;

verus! {

/// A type whose accounts start with a fixed byte string.
pub trait Discriminator {
    const DISCRIMINATOR: &'static [u8];
}

/// Compares the first `len` bytes of `data` with the discriminator, which is `len`
/// bytes long.
pub fn simd_compare_discriminator(data: &[u8], discriminator: &[u8], len: usize) -> (r: bool)
    requires
        len == discriminator@.len(),
        len <= data@.len(),
    ensures
        r == (data@.take(len as int) == discriminator@),
{
    let mut i: usize = 0;
    while i < len
        invariant
            i <= len,
            len == discriminator@.len(),
            len <= data@.len(),
            data@.take(i as int) == discriminator@.take(i as int),
        decreases len - i,
    {
        if data[i] != discriminator[i] {
            assert(data@.take(len as int)[i as int] != discriminator@[i as int]);
            return false;
        }
        assert(data@.take(i + 1) =~= data@.take(i as int).push(data@[i as int]));
        assert(discriminator@.take(i + 1) =~= discriminator@.take(i as int).push(discriminator@[i as int]));
        i = i + 1;
    }
    assert(discriminator@.take(len as int) =~= discriminator@);
    true
}

/// Whether `data` starts with the discriminator of `T`. The caller has checked that
/// `data` holds at least as many bytes as the discriminator.
pub fn discriminator_matches<T: Discriminator>(data: &[u8]) -> (r: bool)
    requires
        T::DISCRIMINATOR@.len() <= data@.len(),
    ensures
        r == (data@.take(T::DISCRIMINATOR@.len() as int) == T::DISCRIMINATOR@),
{
    let discriminator = T::DISCRIMINATOR;
    let len = discriminator.len();
    if len == 0 {
        assert(data@.take(0) =~= discriminator@);
        true
    } else {
        simd_compare_discriminator(data, discriminator, len)
    }
}

} // verus!
