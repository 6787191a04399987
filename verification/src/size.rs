//! The space an account needs to hold a value, for initialization.
use crate::accessor::{BorshAccessor, Pubkey};
use vstd::prelude::*;

verus! {

/// Defines the space of an account for initialization.
pub trait BorshSize {
    const SIZE: usize;
}

impl BorshSize for i8 {
    const SIZE: usize = 1;
}

impl BorshSize for u8 {
    const SIZE: usize = 1;
}

impl BorshSize for bool {
    const SIZE: usize = 1;
}

impl BorshSize for i16 {
    const SIZE: usize = 2;
}

impl BorshSize for u16 {
    const SIZE: usize = 2;
}

impl BorshSize for i32 {
    const SIZE: usize = 4;
}

impl BorshSize for u32 {
    const SIZE: usize = 4;
}

impl BorshSize for i64 {
    const SIZE: usize = 8;
}

impl BorshSize for u64 {
    const SIZE: usize = 8;
}

impl BorshSize for i128 {
    const SIZE: usize = 16;
}

impl BorshSize for u128 {
    const SIZE: usize = 16;
}

impl BorshSize for Pubkey {
    const SIZE: usize = 32;
}

impl<T: BorshSize> BorshSize for Option<T> {
    const SIZE: usize = 1 + T::SIZE;
}

/// The larger of two sizes.
pub fn max(a: usize, b: usize) -> (r: usize)
    ensures
        r == if a < b { b } else { a },
{
    if a < b {
        b
    } else {
        a
    }
}

/// The space reserved for a fixed-size type is the length of its encoding.
pub proof fn law_size_matches_encoding(data: Seq<u8>)
    ensures
        <u8 as BorshSize>::SIZE == <u8 as BorshAccessor>::encoded_len(data),
        <i8 as BorshSize>::SIZE == <i8 as BorshAccessor>::encoded_len(data),
        <bool as BorshSize>::SIZE == <bool as BorshAccessor>::encoded_len(data),
        <u16 as BorshSize>::SIZE == <u16 as BorshAccessor>::encoded_len(data),
        <i16 as BorshSize>::SIZE == <i16 as BorshAccessor>::encoded_len(data),
        <u32 as BorshSize>::SIZE == <u32 as BorshAccessor>::encoded_len(data),
        <i32 as BorshSize>::SIZE == <i32 as BorshAccessor>::encoded_len(data),
        <u64 as BorshSize>::SIZE == <u64 as BorshAccessor>::encoded_len(data),
        <i64 as BorshSize>::SIZE == <i64 as BorshAccessor>::encoded_len(data),
        <u128 as BorshSize>::SIZE == <u128 as BorshAccessor>::encoded_len(data),
        <i128 as BorshSize>::SIZE == <i128 as BorshAccessor>::encoded_len(data),
        <Pubkey as BorshSize>::SIZE == <&Pubkey as BorshAccessor>::encoded_len(data),
{
}

} // verus!
