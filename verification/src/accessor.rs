//! Zero-copy reading of borsh-encoded values.
//!
//! Each accessor type knows how many bytes its encoding takes at the start of a
//! buffer (`len`) and how to read a value out of a buffer (`convert`).
use crate::le::{le_signed, le_value, lemma_le_value_bound, lemma_pow256_values, pow256, read_le};
use vstd::prelude::*;
use vstd::utf8::*;

verus! {

/// An account address: 32 raw bytes.
pub type Pubkey = [u8; 32];

/// A type whose borsh encoding can be read in place from a byte buffer.
pub trait BorshAccessor<'a>: Sized + View where Self: 'a {
    /// `len` can compute the length of the element encoded at the start of `data`.
    spec fn len_ok(data: Seq<u8>) -> bool;

    /// The number of bytes taken by the element encoded at the start of `data`.
    spec fn encoded_len(data: Seq<u8>) -> nat;

    /// `convert` can read a value from `data`.
    spec fn convert_ok(data: Seq<u8>) -> bool;

    /// The value that `convert` reads from `data`.
    spec fn decoded(data: Seq<u8>) -> Self::V;

    fn len(data: &'a [u8]) -> (r: usize)
        requires
            Self::len_ok(data@),
        ensures
            r == Self::encoded_len(data@),
    ;

    fn convert(data: &'a [u8]) -> (r: Self)
        requires
            Self::convert_ok(data@),
        ensures
            r@ == Self::decoded(data@),
    ;
}

/// The string slice that `core::str::from_utf8` makes of `bytes`.
/// Claimed: it succeeds exactly on valid UTF-8, and the characters it gives are
/// the UTF-8 decoding of the bytes.
#[verifier::external_body]
fn str_from_utf8<'a>(bytes: &'a [u8]) -> (r: Option<&'a str>)
    ensures
        r is Some <==> valid_utf8(bytes@),
        r matches Some(s) ==> s@ == decode_utf8(bytes@),
{
    core::str::from_utf8(bytes).ok()
}

/// The array reference that `<&[u8; 32]>::try_from` makes of a slice of exactly 32
/// bytes. Claimed: the array holds the same bytes.
#[verifier::external_body]
fn pubkey_ref<'a>(bytes: &'a [u8]) -> (r: &'a Pubkey)
    requires
        bytes@.len() == 32,
    ensures
        r@ == bytes@,
{
    bytes.try_into().unwrap()
}

/// The length prefix of a borsh string or vector: the first four bytes, little endian.
pub open spec fn prefix_u32(data: Seq<u8>) -> nat {
    le_value(data.take(4))
}

/// Reads the four-byte little-endian prefix.
pub fn read_prefix(data: &[u8]) -> (r: usize)
    requires
        data@.len() >= 4,
    ensures
        r == prefix_u32(data@),
        r <= u32::MAX,
{
    proof {
        lemma_le_value_bound(data@.take(4));
        lemma_pow256_values();
    }
    read_le(data, 4) as usize
}

impl<'a> BorshAccessor<'a> for &'a str {
    open spec fn len_ok(data: Seq<u8>) -> bool {
        data.len() >= 4 && 4 + prefix_u32(data) <= usize::MAX
    }

    open spec fn encoded_len(data: Seq<u8>) -> nat {
        4 + prefix_u32(data)
    }

    open spec fn convert_ok(data: Seq<u8>) -> bool {
        data.len() >= 4 && valid_utf8(data.skip(4))
    }

    open spec fn decoded(data: Seq<u8>) -> Seq<char> {
        decode_utf8(data.skip(4))
    }

    fn len(data: &'a [u8]) -> (r: usize) {
        4 + read_prefix(data)
    }

    fn convert(data: &'a [u8]) -> (r: Self) {
        let rest = vstd::slice::slice_subrange(data, 4, data.len());
        assert(rest@ =~= data@.skip(4));
        match str_from_utf8(rest) {
            Some(s) => s,
            None => {
                assert(false);
                ""
            },
        }
    }
}

impl<'a> BorshAccessor<'a> for &'a Pubkey {
    open spec fn len_ok(data: Seq<u8>) -> bool {
        true
    }

    open spec fn encoded_len(data: Seq<u8>) -> nat {
        32
    }

    open spec fn convert_ok(data: Seq<u8>) -> bool {
        data.len() >= 32
    }

    open spec fn decoded(data: Seq<u8>) -> Seq<u8> {
        data.take(32)
    }

    fn len(_data: &'a [u8]) -> (r: usize) {
        32
    }

    fn convert(data: &'a [u8]) -> (r: Self) {
        pubkey_ref(vstd::slice::slice_subrange(data, 0, 32))
    }
}

impl<'a> BorshAccessor<'a> for bool {
    open spec fn len_ok(data: Seq<u8>) -> bool {
        true
    }

    open spec fn encoded_len(data: Seq<u8>) -> nat {
        1
    }

    open spec fn convert_ok(data: Seq<u8>) -> bool {
        data.len() >= 1
    }

    open spec fn decoded(data: Seq<u8>) -> bool {
        data[0] != 0
    }

    fn len(_data: &'a [u8]) -> (r: usize) {
        1
    }

    fn convert(data: &'a [u8]) -> (r: Self) {
        data[0] != 0
    }
}

impl<'a> BorshAccessor<'a> for u8 {
    open spec fn len_ok(data: Seq<u8>) -> bool {
        true
    }

    open spec fn encoded_len(data: Seq<u8>) -> nat {
        1
    }

    open spec fn convert_ok(data: Seq<u8>) -> bool {
        data.len() >= 1
    }

    open spec fn decoded(data: Seq<u8>) -> u8 {
        le_value(data.take(1)) as u8
    }

    fn len(_data: &'a [u8]) -> (r: usize) {
        1
    }

    fn convert(data: &'a [u8]) -> (r: Self) {
        proof {
            lemma_le_value_bound(data@.take(1));
            lemma_pow256_values();
        }
        read_le(data, 1) as u8
    }
}

impl<'a> BorshAccessor<'a> for u16 {
    open spec fn len_ok(data: Seq<u8>) -> bool {
        true
    }

    open spec fn encoded_len(data: Seq<u8>) -> nat {
        2
    }

    open spec fn convert_ok(data: Seq<u8>) -> bool {
        data.len() >= 2
    }

    open spec fn decoded(data: Seq<u8>) -> u16 {
        le_value(data.take(2)) as u16
    }

    fn len(_data: &'a [u8]) -> (r: usize) {
        2
    }

    fn convert(data: &'a [u8]) -> (r: Self) {
        proof {
            lemma_le_value_bound(data@.take(2));
            lemma_pow256_values();
        }
        read_le(data, 2) as u16
    }
}

impl<'a> BorshAccessor<'a> for u32 {
    open spec fn len_ok(data: Seq<u8>) -> bool {
        true
    }

    open spec fn encoded_len(data: Seq<u8>) -> nat {
        4
    }

    open spec fn convert_ok(data: Seq<u8>) -> bool {
        data.len() >= 4
    }

    open spec fn decoded(data: Seq<u8>) -> u32 {
        le_value(data.take(4)) as u32
    }

    fn len(_data: &'a [u8]) -> (r: usize) {
        4
    }

    fn convert(data: &'a [u8]) -> (r: Self) {
        proof {
            lemma_le_value_bound(data@.take(4));
            lemma_pow256_values();
        }
        read_le(data, 4) as u32
    }
}

impl<'a> BorshAccessor<'a> for u64 {
    open spec fn len_ok(data: Seq<u8>) -> bool {
        true
    }

    open spec fn encoded_len(data: Seq<u8>) -> nat {
        8
    }

    open spec fn convert_ok(data: Seq<u8>) -> bool {
        data.len() >= 8
    }

    open spec fn decoded(data: Seq<u8>) -> u64 {
        le_value(data.take(8)) as u64
    }

    fn len(_data: &'a [u8]) -> (r: usize) {
        8
    }

    fn convert(data: &'a [u8]) -> (r: Self) {
        proof {
            lemma_le_value_bound(data@.take(8));
            lemma_pow256_values();
        }
        read_le(data, 8) as u64
    }
}

impl<'a> BorshAccessor<'a> for u128 {
    open spec fn len_ok(data: Seq<u8>) -> bool {
        true
    }

    open spec fn encoded_len(data: Seq<u8>) -> nat {
        16
    }

    open spec fn convert_ok(data: Seq<u8>) -> bool {
        data.len() >= 16
    }

    open spec fn decoded(data: Seq<u8>) -> u128 {
        le_value(data.take(16)) as u128
    }

    fn len(_data: &'a [u8]) -> (r: usize) {
        16
    }

    fn convert(data: &'a [u8]) -> (r: Self) {
        read_le(data, 16)
    }
}

impl<'a> BorshAccessor<'a> for i8 {
    open spec fn len_ok(data: Seq<u8>) -> bool {
        true
    }

    open spec fn encoded_len(data: Seq<u8>) -> nat {
        1
    }

    open spec fn convert_ok(data: Seq<u8>) -> bool {
        data.len() >= 1
    }

    open spec fn decoded(data: Seq<u8>) -> i8 {
        le_signed(data.take(1)) as i8
    }

    fn len(_data: &'a [u8]) -> (r: usize) {
        1
    }

    fn convert(data: &'a [u8]) -> (r: Self) {
        proof {
            lemma_le_value_bound(data@.take(1));
            lemma_pow256_values();
            assert(pow256(0) == 1);
        }
        let u = read_le(data, 1);
        if u < 0x80 {
            u as i8
        } else {
            (u as i16 - 0x100) as i8
        }
    }
}

impl<'a> BorshAccessor<'a> for i16 {
    open spec fn len_ok(data: Seq<u8>) -> bool {
        true
    }

    open spec fn encoded_len(data: Seq<u8>) -> nat {
        2
    }

    open spec fn convert_ok(data: Seq<u8>) -> bool {
        data.len() >= 2
    }

    open spec fn decoded(data: Seq<u8>) -> i16 {
        le_signed(data.take(2)) as i16
    }

    fn len(_data: &'a [u8]) -> (r: usize) {
        2
    }

    fn convert(data: &'a [u8]) -> (r: Self) {
        proof {
            lemma_le_value_bound(data@.take(2));
            lemma_pow256_values();
        }
        let u = read_le(data, 2);
        if u < 0x8000 {
            u as i16
        } else {
            (u as i32 - 0x1_0000) as i16
        }
    }
}

impl<'a> BorshAccessor<'a> for i32 {
    open spec fn len_ok(data: Seq<u8>) -> bool {
        true
    }

    open spec fn encoded_len(data: Seq<u8>) -> nat {
        4
    }

    open spec fn convert_ok(data: Seq<u8>) -> bool {
        data.len() >= 4
    }

    open spec fn decoded(data: Seq<u8>) -> i32 {
        le_signed(data.take(4)) as i32
    }

    fn len(_data: &'a [u8]) -> (r: usize) {
        4
    }

    fn convert(data: &'a [u8]) -> (r: Self) {
        proof {
            lemma_le_value_bound(data@.take(4));
            lemma_pow256_values();
            reveal_with_fuel(pow256, 4);
        }
        let u = read_le(data, 4);
        if u < 0x8000_0000 {
            u as i32
        } else {
            (u as i64 - 0x1_0000_0000) as i32
        }
    }
}

impl<'a> BorshAccessor<'a> for i64 {
    open spec fn len_ok(data: Seq<u8>) -> bool {
        true
    }

    open spec fn encoded_len(data: Seq<u8>) -> nat {
        8
    }

    open spec fn convert_ok(data: Seq<u8>) -> bool {
        data.len() >= 8
    }

    open spec fn decoded(data: Seq<u8>) -> i64 {
        le_signed(data.take(8)) as i64
    }

    fn len(_data: &'a [u8]) -> (r: usize) {
        8
    }

    fn convert(data: &'a [u8]) -> (r: Self) {
        proof {
            lemma_le_value_bound(data@.take(8));
            lemma_pow256_values();
            reveal_with_fuel(pow256, 8);
        }
        let u = read_le(data, 8);
        if u < 0x8000_0000_0000_0000 {
            u as i64
        } else {
            (u as i128 - 0x1_0000_0000_0000_0000) as i64
        }
    }
}

impl<'a> BorshAccessor<'a> for i128 {
    open spec fn len_ok(data: Seq<u8>) -> bool {
        true
    }

    open spec fn encoded_len(data: Seq<u8>) -> nat {
        16
    }

    open spec fn convert_ok(data: Seq<u8>) -> bool {
        data.len() >= 16
    }

    open spec fn decoded(data: Seq<u8>) -> i128 {
        le_signed(data.take(16)) as i128
    }

    fn len(_data: &'a [u8]) -> (r: usize) {
        16
    }

    fn convert(data: &'a [u8]) -> (r: Self) {
        proof {
            lemma_le_value_bound(data@.take(16));
            lemma_pow256_values();
        }
        let u = read_le(data, 16);
        if u < 0x8000_0000_0000_0000_0000_0000_0000_0000 {
            u as i128
        } else {
            -((u128::MAX - u) as i128) - 1
        }
    }
}

} // verus!
