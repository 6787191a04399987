//! Little-endian integer encoding, the number layout used by borsh.
use vstd::prelude::*;

verus! {

/// `256^n`.
pub open spec fn pow256(n: nat) -> nat
    decreases n,
{
    if n == 0 {
        1
    } else {
        256 * pow256((n - 1) as nat)
    }
}

/// The unsigned number that the bytes `s` encode, least significant byte first.
pub open spec fn le_value(s: Seq<u8>) -> nat
    decreases s.len(),
{
    if s.len() == 0 {
        0
    } else {
        s[0] as nat + 256 * le_value(s.drop_first())
    }
}

/// The `n` least significant bytes of `x`, least significant first.
pub open spec fn le_bytes(x: nat, n: nat) -> Seq<u8>
    decreases n,
{
    if n == 0 {
        Seq::empty()
    } else {
        seq![(x % 256) as u8] + le_bytes(x / 256, (n - 1) as nat)
    }
}

/// The two's complement reading of the `n` bytes of `s`.
pub open spec fn le_signed(s: Seq<u8>) -> int {
    if s.len() == 0 {
        0
    } else if le_value(s) < 128 * pow256((s.len() - 1) as nat) {
        le_value(s) as int
    } else {
        le_value(s) - pow256(s.len())
    }
}

/// The `n` bytes of the two's complement encoding of `x`.
pub open spec fn le_signed_bytes(x: int, n: nat) -> Seq<u8> {
    if x < 0 {
        le_bytes((x + pow256(n)) as nat, n)
    } else {
        le_bytes(x as nat, n)
    }
}

pub proof fn lemma_pow256_values()
    ensures
        pow256(1) == 0x100,
        pow256(2) == 0x1_0000,
        pow256(4) == 0x1_0000_0000,
        pow256(8) == 0x1_0000_0000_0000_0000,
        pow256(15) == 0x100_0000_0000_0000_0000_0000_0000_0000,
        pow256(16) == 0x1_0000_0000_0000_0000_0000_0000_0000_0000,
{
    reveal_with_fuel(pow256, 17);
}

pub proof fn lemma_pow256_mono(a: nat, b: nat)
    requires
        a <= b,
    ensures
        pow256(a) <= pow256(b),
    decreases b,
{
    if a < b {
        lemma_pow256_mono(a, (b - 1) as nat);
    }
}

/// The value of `n` bytes is below `256^n`.
pub proof fn lemma_le_value_bound(s: Seq<u8>)
    ensures
        le_value(s) < pow256(s.len()),
    decreases s.len(),
{
    if s.len() > 0 {
        lemma_le_value_bound(s.drop_first());
        let r = le_value(s.drop_first());
        let p = pow256((s.len() - 1) as nat);
        assert(s[0] as nat + 256 * r < 256 * p) by (nonlinear_arith)
            requires
                r < p,
                s[0] < 256,
        ;
    }
}

/// Encoding a number that fits and reading it back gives the number.
pub proof fn lemma_le_bytes_value(x: nat, n: nat)
    requires
        x < pow256(n),
    ensures
        le_bytes(x, n).len() == n,
        le_value(le_bytes(x, n)) == x,
    decreases n,
{
    if n > 0 {
        let p = pow256((n - 1) as nat);
        assert(x / 256 < p) by (nonlinear_arith)
            requires
                x < 256 * p,
        ;
        lemma_le_bytes_value(x / 256, (n - 1) as nat);
        let s = le_bytes(x, n);
        assert(s.drop_first() =~= le_bytes(x / 256, (n - 1) as nat));
        assert(x == (x % 256) + 256 * (x / 256)) by (nonlinear_arith);
    }
}

/// Reading bytes and encoding the value again gives the bytes.
pub proof fn lemma_le_value_bytes(s: Seq<u8>)
    ensures
        le_bytes(le_value(s), s.len()) == s,
    decreases s.len(),
{
    if s.len() > 0 {
        lemma_le_value_bytes(s.drop_first());
        let r = le_value(s.drop_first());
        let v = le_value(s);
        assert(v % 256 == s[0] as nat && v / 256 == r) by (nonlinear_arith)
            requires
                v == s[0] as nat + 256 * r,
                s[0] < 256,
        ;
        assert(le_bytes(v, s.len()) =~= s);
    }
}

pub proof fn lemma_le_bytes_len(x: nat, n: nat)
    ensures
        le_bytes(x, n).len() == n,
    decreases n,
{
    if n > 0 {
        lemma_le_bytes_len(x / 256, (n - 1) as nat);
    }
}

/// Two's complement: encoding a number in range and reading it back gives the number.
pub proof fn lemma_le_signed_roundtrip(x: int, n: nat)
    requires
        n > 0,
        -128 * pow256((n - 1) as nat) <= x < 128 * pow256((n - 1) as nat),
    ensures
        le_signed_bytes(x, n).len() == n,
        le_signed(le_signed_bytes(x, n)) == x,
{
    assert(pow256(n) == 256 * pow256((n - 1) as nat));
    if x < 0 {
        lemma_le_bytes_value((x + pow256(n)) as nat, n);
    } else {
        lemma_le_bytes_value(x as nat, n);
    }
}

/// Reads the unsigned little-endian number held by the first `n` bytes of `data`.
pub fn read_le(data: &[u8], n: usize) -> (r: u128)
    requires
        n <= 16,
        n <= data@.len(),
    ensures
        r == le_value(data@.take(n as int)),
{
    let mut acc: u128 = 0;
    let mut i: usize = n;
    proof {
        lemma_pow256_values();
        assert(data@.subrange(n as int, n as int) =~= Seq::<u8>::empty());
    }
    while i > 0
        invariant
            i <= n,
            n <= 16,
            n <= data@.len(),
            acc == le_value(data@.subrange(i as int, n as int)),
            acc < pow256((n - i) as nat),
            pow256(16) == 0x1_0000_0000_0000_0000_0000_0000_0000_0000,
        decreases i,
    {
        i = i - 1;
        let b = data[i];
        proof {
            let k = (n - i - 1) as nat;
            lemma_pow256_mono(k + 1, 16);
            assert(pow256(k + 1) == 256 * pow256(k));
            assert(acc * 256 + b < pow256(k + 1)) by (nonlinear_arith)
                requires
                    acc < pow256(k),
                    b < 256,
                    pow256(k + 1) == 256 * pow256(k),
            ;
            let s = data@.subrange(i as int, n as int);
            assert(s.drop_first() =~= data@.subrange(i + 1, n as int));
        }
        acc = acc * 256 + b as u128;
    }
    proof {
        assert(data@.subrange(0, n as int) =~= data@.take(n as int));
    }
    acc
}

/// Writes the `n` least significant bytes of `x`, least significant first, over the
/// start of `data`.
pub fn write_le(data: &mut [u8], x: u128, n: usize)
    requires
        n <= 16,
        n <= old(data)@.len(),
    ensures
        final(data)@ == le_bytes(x as nat, n as nat) + old(data)@.skip(n as int),
{
    let mut v: u128 = x;
    let mut i: usize = 0;
    proof {
        lemma_le_bytes_len(x as nat, n as nat);
    }
    while i < n
        invariant
            i <= n,
            n <= data@.len(),
            data@.len() == old(data)@.len(),
            data@.take(i as int) + le_bytes(v as nat, (n - i) as nat) == le_bytes(x as nat, n as nat),
            data@.skip(i as int) == old(data)@.skip(i as int),
        decreases n - i,
    {
        let ghost prev = data@;
        let b = (v % 256) as u8;
        data[i] = b;
        proof {
            let rest = le_bytes(v as nat / 256, (n - i - 1) as nat);
            assert(le_bytes(v as nat, (n - i) as nat) =~= seq![b] + rest);
            assert(data@.take(i + 1) =~= prev.take(i as int).push(b));
            assert(data@.take(i + 1) + rest =~= prev.take(i as int) + le_bytes(v as nat, (n - i) as nat));
            assert(data@.skip(i + 1) =~= prev.skip(i + 1));
            assert(prev.skip(i + 1) =~= prev.skip(i as int).skip(1));
            assert(old(data)@.skip(i + 1) =~= old(data)@.skip(i as int).skip(1));
        }
        v = v / 256;
        i = i + 1;
    }
    proof {
        assert(le_bytes(v as nat, 0) =~= Seq::<u8>::empty());
        assert(data@ =~= data@.take(n as int) + data@.skip(n as int));
    }
}

} // verus!
