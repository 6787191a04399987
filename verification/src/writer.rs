//! In-place writing of borsh-encoded values.
use crate::accessor::{prefix_u32, read_prefix, BorshAccessor, Pubkey};
use crate::le::{
    le_bytes, le_signed, le_signed_bytes, le_value, lemma_le_bytes_len, lemma_le_bytes_value,
    lemma_le_signed_roundtrip, lemma_pow256_values, pow256, write_le,
};
use vstd::prelude::*;
use vstd::utf8::{decode_utf8, encode_utf8, encode_utf8_decode_utf8};

verus! {

/// A type whose borsh encoding can be written in place over a byte buffer.
pub trait BorshWriter: Sized {
    /// `write` accepts to write `el` over `data`.
    spec fn write_ok(data: Seq<u8>, el: Self) -> bool;

    /// The buffer after `el` was written over `data`.
    spec fn written(data: Seq<u8>, el: Self) -> Seq<u8>;

    fn write(data: &mut [u8], el: Self)
        requires
            Self::write_ok(old(data)@, el),
        ensures
            final(data)@ == Self::written(old(data)@, el),
    ;
}

/// The buffer after a string of `n` bytes replaced the length-prefixed string at the
/// start of `data`: the new prefix and bytes, then, when they do not fill the buffer,
/// what followed the old string, moved to just after the new one.
pub open spec fn str_written(data: Seq<u8>, bytes: Seq<u8>) -> Seq<u8> {
    let n = bytes.len();
    let head = le_bytes((n as u32) as nat, 4) + bytes;
    if 4 + n < data.len() {
        let old_end = 4 + prefix_u32(data);
        head + data.subrange(old_end as int, data.len() as int) + data.subrange(
            data.len() - (old_end - (4 + n)),
            data.len() as int,
        )
    } else {
        head
    }
}

impl<'s> BorshWriter for &'s str {
    open spec fn write_ok(data: Seq<u8>, el: Self) -> bool {
        let n = encode_utf8(el@).len();
        &&& data.len() >= 4
        &&& 4 + n <= data.len()
        &&& 4 + n < data.len() ==> 4 + prefix_u32(data) <= data.len() && n <= prefix_u32(data)
    }

    open spec fn written(data: Seq<u8>, el: Self) -> Seq<u8> {
        str_written(data, encode_utf8(el@))
    }

    fn write(data: &mut [u8], el: Self) {
        let ghost old_data = data@;
        let old_len = read_prefix(data);
        let bytes = el.as_bytes();
        let new_len = bytes.len();
        let total = data.len();
        if 4 + new_len < total {
            // move what follows the old string to just after the new one
            let src = 4 + old_len;
            let dst = 4 + new_len;
            let count = total - src;
            let mut k: usize = 0;
            while k < count
                invariant
                    dst <= src <= total,
                    count == total - src,
                    k <= count,
                    data@.len() == total,
                    total == old_data.len(),
                    forall|j: int| 0 <= j < dst ==> data@[j] == old_data[j],
                    forall|j: int| dst <= j < dst + k ==> data@[j] == old_data[src + (j - dst)],
                    forall|j: int| dst + k <= j < total ==> data@[j] == old_data[j],
                decreases count - k,
            {
                let b = data[src + k];
                data[dst + k] = b;
                k = k + 1;
            }
        }
        let ghost moved = data@;
        proof {
            if 4 + new_len < total {
                let src = 4 + old_len;
                let dst = 4 + new_len;
                assert forall|j: int| dst <= j < total implies moved[j] == str_written(
                    old_data,
                    bytes@,
                )[j] by {
                    lemma_le_bytes_len((new_len as u32) as nat, 4);
                }
            }
        }
        let prefix_value = #[verifier::truncate] (new_len as u32);
        proof {
            lemma_le_bytes_len(prefix_value as nat, 4);
        }
        u32::write(data, prefix_value);
        let ghost prefixed = data@;
        assert(prefixed.len() == total);
        assert(forall|j: int| 4 <= j < total ==> prefixed[j] == moved[j]);
        let mut k: usize = 0;
        while k < new_len
            invariant
                k <= new_len,
                4 + new_len <= total,
                bytes@.len() == new_len,
                data@.len() == total,
                prefixed.len() == total,
                forall|j: int| 0 <= j < 4 ==> data@[j] == prefixed[j],
                forall|j: int| 4 <= j < 4 + k ==> data@[j] == bytes@[j - 4],
                forall|j: int| 4 + k <= j < total ==> data@[j] == prefixed[j],
            decreases new_len - k,
        {
            data[4 + k] = bytes[k];
            k = k + 1;
        }
        proof {
            let expected = str_written(old_data, bytes@);
            let head = le_bytes(prefix_value as nat, 4) + bytes@;
            assert(expected.len() == total);
            assert(prefixed =~= le_bytes(prefix_value as nat, 4) + moved.skip(4));
            assert forall|j: int| 0 <= j < total implies data@[j] == expected[j] by {
                if j < 4 {
                    assert(expected[j] == head[j]);
                    assert(prefixed[j] == le_bytes(prefix_value as nat, 4)[j]);
                } else if j < 4 + new_len {
                    assert(expected[j] == head[j]);
                } else {
                    assert(data@[j] == moved[j]);
                }
            }
            assert(data@ =~= expected);
        }
    }
}

impl<'s> BorshWriter for &'s Pubkey {
    open spec fn write_ok(data: Seq<u8>, el: Self) -> bool {
        data.len() == 32
    }

    open spec fn written(data: Seq<u8>, el: Self) -> Seq<u8> {
        el@
    }

    fn write(data: &mut [u8], el: Self) {
        let mut k: usize = 0;
        while k < 32
            invariant
                data@.len() == 32,
                el@.len() == 32,
                forall|j: int| 0 <= j < k ==> data@[j] == el@[j],
            decreases 32 - k,
        {
            data[k] = el[k];
            k = k + 1;
        }
        assert(data@ =~= el@);
    }
}

impl BorshWriter for u8 {
    open spec fn write_ok(data: Seq<u8>, el: Self) -> bool {
        data.len() >= 1
    }

    open spec fn written(data: Seq<u8>, el: Self) -> Seq<u8> {
        le_bytes(el as nat, 1) + data.skip(1)
    }

    fn write(data: &mut [u8], el: Self) {
        write_le(data, el as u128, 1);
    }
}

impl BorshWriter for u16 {
    open spec fn write_ok(data: Seq<u8>, el: Self) -> bool {
        data.len() >= 2
    }

    open spec fn written(data: Seq<u8>, el: Self) -> Seq<u8> {
        le_bytes(el as nat, 2) + data.skip(2)
    }

    fn write(data: &mut [u8], el: Self) {
        write_le(data, el as u128, 2);
    }
}

impl BorshWriter for u32 {
    open spec fn write_ok(data: Seq<u8>, el: Self) -> bool {
        data.len() >= 4
    }

    open spec fn written(data: Seq<u8>, el: Self) -> Seq<u8> {
        le_bytes(el as nat, 4) + data.skip(4)
    }

    fn write(data: &mut [u8], el: Self) {
        write_le(data, el as u128, 4);
    }
}

impl BorshWriter for u64 {
    open spec fn write_ok(data: Seq<u8>, el: Self) -> bool {
        data.len() >= 8
    }

    open spec fn written(data: Seq<u8>, el: Self) -> Seq<u8> {
        le_bytes(el as nat, 8) + data.skip(8)
    }

    fn write(data: &mut [u8], el: Self) {
        write_le(data, el as u128, 8);
    }
}

impl BorshWriter for u128 {
    open spec fn write_ok(data: Seq<u8>, el: Self) -> bool {
        data.len() >= 16
    }

    open spec fn written(data: Seq<u8>, el: Self) -> Seq<u8> {
        le_bytes(el as nat, 16) + data.skip(16)
    }

    fn write(data: &mut [u8], el: Self) {
        write_le(data, el, 16);
    }
}

/// The two's complement bits of `x`, as an unsigned number of `n` bytes.
fn twos_complement(x: i128, n: usize) -> (r: u128)
    requires
        1 <= n <= 16,
        -128 * pow256((n - 1) as nat) <= x < 128 * pow256((n - 1) as nat),
    ensures
        le_signed_bytes(x as int, n as nat) == le_bytes(r as nat, n as nat),
{
    proof {
        lemma_pow256_values();
        crate::le::lemma_pow256_mono((n - 1) as nat, 15);
        crate::le::lemma_pow256_mono(n as nat, 16);
        assert(pow256(n as nat) == 256 * pow256((n - 1) as nat));
    }
    if x >= 0 {
        x as u128
    } else {
        // x + 256^n, computed without leaving the u128 range
        let m: u128 = (-(x + 1)) as u128;
        proof {
            assert(m < pow256(n as nat));
        }
        let base: u128 = if n == 16 {
            u128::MAX
        } else {
            let mut p: u128 = 1;
            let mut i: usize = 0;
            while i < n
                invariant
                    i <= n < 16,
                    p == pow256(i as nat),
                    pow256(15) == 0x100_0000_0000_0000_0000_0000_0000_0000,
                decreases n - i,
            {
                proof {
                    crate::le::lemma_pow256_mono(i as nat, 14);
                    assert(pow256((i + 1) as nat) == 256 * pow256(i as nat));
                }
                p = p * 256;
                i = i + 1;
            }
            p - 1
        };
        assert(base == pow256(n as nat) - 1);
        base - m
    }
}

impl BorshWriter for i8 {
    open spec fn write_ok(data: Seq<u8>, el: Self) -> bool {
        data.len() >= 1
    }

    open spec fn written(data: Seq<u8>, el: Self) -> Seq<u8> {
        le_signed_bytes(el as int, 1) + data.skip(1)
    }

    fn write(data: &mut [u8], el: Self) {
        proof {
            assert(pow256(0) == 1);
        }
        let u = twos_complement(el as i128, 1);
        write_le(data, u, 1);
    }
}

impl BorshWriter for i16 {
    open spec fn write_ok(data: Seq<u8>, el: Self) -> bool {
        data.len() >= 2
    }

    open spec fn written(data: Seq<u8>, el: Self) -> Seq<u8> {
        le_signed_bytes(el as int, 2) + data.skip(2)
    }

    fn write(data: &mut [u8], el: Self) {
        proof {
            lemma_pow256_values();
        }
        let u = twos_complement(el as i128, 2);
        write_le(data, u, 2);
    }
}

impl BorshWriter for i32 {
    open spec fn write_ok(data: Seq<u8>, el: Self) -> bool {
        data.len() >= 4
    }

    open spec fn written(data: Seq<u8>, el: Self) -> Seq<u8> {
        le_signed_bytes(el as int, 4) + data.skip(4)
    }

    fn write(data: &mut [u8], el: Self) {
        proof {
            reveal_with_fuel(pow256, 4);
        }
        let u = twos_complement(el as i128, 4);
        write_le(data, u, 4);
    }
}

impl BorshWriter for i64 {
    open spec fn write_ok(data: Seq<u8>, el: Self) -> bool {
        data.len() >= 8
    }

    open spec fn written(data: Seq<u8>, el: Self) -> Seq<u8> {
        le_signed_bytes(el as int, 8) + data.skip(8)
    }

    fn write(data: &mut [u8], el: Self) {
        proof {
            reveal_with_fuel(pow256, 8);
        }
        let u = twos_complement(el as i128, 8);
        write_le(data, u, 8);
    }
}

impl BorshWriter for i128 {
    open spec fn write_ok(data: Seq<u8>, el: Self) -> bool {
        data.len() >= 16
    }

    open spec fn written(data: Seq<u8>, el: Self) -> Seq<u8> {
        le_signed_bytes(el as int, 16) + data.skip(16)
    }

    fn write(data: &mut [u8], el: Self) {
        proof {
            lemma_pow256_values();
        }
        let u = twos_complement(el, 16);
        write_le(data, u, 16);
    }
}

} // verus!
