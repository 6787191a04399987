//! What reading gives back of writing, and how the sizes relate to the encodings.
use crate::accessor::{prefix_u32, BorshAccessor};
use crate::le::{
    le_bytes, le_signed_bytes, le_value, lemma_le_bytes_value, lemma_le_signed_roundtrip,
    lemma_pow256_values, pow256,
};
use crate::vector::{BorshVector, IndexRange};
use crate::writer::{str_written, BorshWriter};
use vstd::prelude::*;
use vstd::utf8::{encode_utf8, encode_utf8_decode_utf8, encode_utf8_valid_utf8};

verus! {

proof fn lemma_unsigned_written(data: Seq<u8>, x: nat, n: nat)
    requires
        x < pow256(n),
        data.len() >= n,
    ensures
        (le_bytes(x, n) + data.skip(n as int)).take(n as int) == le_bytes(x, n),
        le_value((le_bytes(x, n) + data.skip(n as int)).take(n as int)) == x,
        (le_bytes(x, n) + data.skip(n as int)).skip(n as int) == data.skip(n as int),
        (le_bytes(x, n) + data.skip(n as int)).len() == data.len(),
{
    lemma_le_bytes_value(x, n);
    let w = le_bytes(x, n) + data.skip(n as int);
    assert(w.take(n as int) =~= le_bytes(x, n));
    assert(w.skip(n as int) =~= data.skip(n as int));
}

proof fn lemma_signed_written(data: Seq<u8>, x: int, n: nat)
    requires
        n > 0,
        -128 * pow256((n - 1) as nat) <= x < 128 * pow256((n - 1) as nat),
        data.len() >= n,
    ensures
        crate::le::le_signed((le_signed_bytes(x, n) + data.skip(n as int)).take(n as int)) == x,
        (le_signed_bytes(x, n) + data.skip(n as int)).skip(n as int) == data.skip(n as int),
        (le_signed_bytes(x, n) + data.skip(n as int)).len() == data.len(),
{
    lemma_le_signed_roundtrip(x, n);
    let w = le_signed_bytes(x, n) + data.skip(n as int);
    assert(w.take(n as int) =~= le_signed_bytes(x, n));
    assert(w.skip(n as int) =~= data.skip(n as int));
}

/// Writing an unsigned number over a buffer and reading the buffer back gives the
/// number; the buffer keeps its length and the bytes after the number.
pub proof fn law_unsigned_write_then_read(data: Seq<u8>, a: u8, b: u16, c: u32, d: u64, e: u128)
    requires
        data.len() >= 16,
    ensures
        <u8 as BorshAccessor>::decoded(<u8 as BorshWriter>::written(data, a)) == a,
        <u16 as BorshAccessor>::decoded(<u16 as BorshWriter>::written(data, b)) == b,
        <u32 as BorshAccessor>::decoded(<u32 as BorshWriter>::written(data, c)) == c,
        <u64 as BorshAccessor>::decoded(<u64 as BorshWriter>::written(data, d)) == d,
        <u128 as BorshAccessor>::decoded(<u128 as BorshWriter>::written(data, e)) == e,
        <u8 as BorshWriter>::written(data, a).skip(1) == data.skip(1),
        <u16 as BorshWriter>::written(data, b).skip(2) == data.skip(2),
        <u32 as BorshWriter>::written(data, c).skip(4) == data.skip(4),
        <u64 as BorshWriter>::written(data, d).skip(8) == data.skip(8),
        <u128 as BorshWriter>::written(data, e).skip(16) == data.skip(16),
        <u8 as BorshWriter>::written(data, a).len() == data.len(),
        <u16 as BorshWriter>::written(data, b).len() == data.len(),
        <u32 as BorshWriter>::written(data, c).len() == data.len(),
        <u64 as BorshWriter>::written(data, d).len() == data.len(),
        <u128 as BorshWriter>::written(data, e).len() == data.len(),
{
    lemma_pow256_values();
    lemma_unsigned_written(data, a as nat, 1);
    lemma_unsigned_written(data, b as nat, 2);
    lemma_unsigned_written(data, c as nat, 4);
    lemma_unsigned_written(data, d as nat, 8);
    lemma_unsigned_written(data, e as nat, 16);
}

/// Writing a signed number over a buffer and reading the buffer back gives the number;
/// the buffer keeps its length and the bytes after the number.
pub proof fn law_signed_write_then_read(data: Seq<u8>, a: i8, b: i16, c: i32, d: i64, e: i128)
    requires
        data.len() >= 16,
    ensures
        <i8 as BorshAccessor>::decoded(<i8 as BorshWriter>::written(data, a)) == a,
        <i16 as BorshAccessor>::decoded(<i16 as BorshWriter>::written(data, b)) == b,
        <i32 as BorshAccessor>::decoded(<i32 as BorshWriter>::written(data, c)) == c,
        <i64 as BorshAccessor>::decoded(<i64 as BorshWriter>::written(data, d)) == d,
        <i128 as BorshAccessor>::decoded(<i128 as BorshWriter>::written(data, e)) == e,
        <i8 as BorshWriter>::written(data, a).skip(1) == data.skip(1),
        <i16 as BorshWriter>::written(data, b).skip(2) == data.skip(2),
        <i32 as BorshWriter>::written(data, c).skip(4) == data.skip(4),
        <i64 as BorshWriter>::written(data, d).skip(8) == data.skip(8),
        <i128 as BorshWriter>::written(data, e).skip(16) == data.skip(16),
        <i8 as BorshWriter>::written(data, a).len() == data.len(),
        <i16 as BorshWriter>::written(data, b).len() == data.len(),
        <i32 as BorshWriter>::written(data, c).len() == data.len(),
        <i64 as BorshWriter>::written(data, d).len() == data.len(),
        <i128 as BorshWriter>::written(data, e).len() == data.len(),
{
    lemma_pow256_values();
    reveal_with_fuel(pow256, 8);
    lemma_signed_written(data, a as int, 1);
    lemma_signed_written(data, b as int, 2);
    lemma_signed_written(data, c as int, 4);
    lemma_signed_written(data, d as int, 8);
    lemma_signed_written(data, e as int, 16);
}

/// Writing a string over a buffer that held one, then reading the string with the
/// length the buffer now announces, gives the written string.
pub proof fn law_str_write_then_read(data: Seq<u8>, el: &str)
    requires
        <&str as BorshWriter>::write_ok(data, el),
        encode_utf8(el@).len() <= u32::MAX,
    ensures
        ({
            let w = <&str as BorshWriter>::written(data, el);
            let n = encode_utf8(el@).len();
            &&& w.len() == data.len()
            &&& prefix_u32(w) == n
            &&& <&str as BorshAccessor>::encoded_len(w) == 4 + n
            &&& <&str as BorshAccessor>::convert_ok(w.take(4 + n as int))
            &&& <&str as BorshAccessor>::decoded(w.take(4 + n as int)) == el@
        }),
{
    let bytes = encode_utf8(el@);
    let n = bytes.len();
    let w = str_written(data, bytes);
    lemma_pow256_values();
    lemma_le_bytes_value(n, 4);
    assert((n as u32) as nat == n);
    let head = le_bytes(n, 4) + bytes;
    assert(w.take(4 + n as int) =~= head);
    assert(w.take(4) =~= le_bytes(n, 4));
    assert(w.take(4 + n as int).take(4) =~= le_bytes(n, 4));
    assert(w.take(4 + n as int).skip(4) =~= bytes);
    encode_utf8_decode_utf8(el@);
    encode_utf8_valid_utf8(el@);
}

/// Selecting every position of a vector gives its elements in order: element `i` of
/// `get(..)` is what `at(i)` reads.
pub proof fn law_get_all_is_at<'a, T: BorshAccessor<'a>>(
    data: Seq<u8>,
    all: core::ops::RangeFull,
    k: nat,
)
    ensures
        BorshVector::<'a, T>::selected(data, all, k).len() == k,
        forall|i: int|
            0 <= i < k ==> #[trigger] BorshVector::<'a, T>::selected(data, all, k)[i]
                == BorshVector::<'a, T>::element(data, i as nat),
    decreases k,
{
    if k > 0 {
        law_get_all_is_at::<'a, T>(data, all, (k - 1) as nat);
    }
}

/// Selecting a single position of a vector gives the element that `at` reads there,
/// alone, or nothing when the vector has no element there: `get(i..=i)` and
/// `get(i..i + 1)` hold `at(i)`'s element, or are empty exactly when `at(i)` is
/// `None`.
pub proof fn law_get_one_is_at<'a, T: BorshAccessor<'a>, R: IndexRange>(data: Seq<u8>, range: R, i: nat, k: nat)
    requires
        forall|j: int| #[trigger] range.includes(j) <==> j == i,
    ensures
        BorshVector::<'a, T>::selected(data, range, k) == if i < k {
            seq![BorshVector::<'a, T>::element(data, i)]
        } else {
            Seq::empty()
        },
    decreases k,
{
    if k > 0 {
        law_get_one_is_at::<'a, T, R>(data, range, i, (k - 1) as nat);
        assert(range.includes((k - 1) as int) <==> (k - 1) as int == i as int);
        if i < k - 1 {
            assert(!range.includes((k - 1) as int));
        }
    }
}

} // verus!
