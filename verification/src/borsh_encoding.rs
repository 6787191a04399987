//! The borsh encoding of values of the supported types, and the laws that tie the
//! ends and field offsets that the layout reads from the data to the encoded lengths
//! of the values stored there.
use crate::borsh_layout::{end_of, fixed_len, prefix_at, prefix_end, repeat_end, SupportedType};
use crate::le::{le_bytes, lemma_le_bytes_value, pow256};
use vstd::prelude::*;

verus! {

/// A value of a supported type.
pub enum BorshValue {
    /// A number, a boolean or an address, by the bytes of its fixed-length encoding.
    Fixed(Seq<u8>),
    /// A string, by the bytes of its UTF-8 encoding.
    Text(Seq<u8>),
    /// An option.
    Opt(Option<Box<BorshValue>>),
    /// The elements of a vector or an array, or the fields of a struct, in order.
    Items(Seq<BorshValue>),
}

/// The four-byte little-endian count that precedes a string or a vector.
pub open spec fn length_prefix(n: nat) -> Seq<u8> {
    le_bytes(n, 4)
}

/// The borsh encoding of `v` as a value of type `t`; `None` when `v` is not a value
/// of `t`, or when a count does not fit in four bytes.
pub open spec fn encoding(t: SupportedType, v: BorshValue) -> Option<Seq<u8>>
    decreases v, 0int,
{
    match t {
        SupportedType::String => match v {
            BorshValue::Text(b) => if b.len() < pow256(4) {
                Some(length_prefix(b.len()) + b)
            } else {
                None
            },
            _ => None,
        },
        SupportedType::Option(inner) => match v {
            BorshValue::Opt(o) => match o {
                None => Some(seq![0u8]),
                Some(x) => match encoding(*inner, *x) {
                    Some(b) => Some(seq![1u8] + b),
                    None => None,
                },
            },
            _ => None,
        },
        SupportedType::Vec(inner) => match v {
            BorshValue::Items(xs) => if xs.len() < pow256(4) {
                match items_encoding(*inner, xs, 0) {
                    Some(b) => Some(length_prefix(xs.len()) + b),
                    None => None,
                }
            } else {
                None
            },
            _ => None,
        },
        SupportedType::Array(inner, n) => match v {
            BorshValue::Items(xs) => if xs.len() == n {
                items_encoding(*inner, xs, 0)
            } else {
                None
            },
            _ => None,
        },
        SupportedType::Defined(_, fields) => match v {
            BorshValue::Items(xs) => if xs.len() == fields@.len() {
                fields_encoding(fields@, xs, xs.len() as int)
            } else {
                None
            },
            _ => None,
        },
        _ => match v {
            BorshValue::Fixed(b) => if fixed_len(t) == Some(b.len()) {
                Some(b)
            } else {
                None
            },
            _ => None,
        },
    }
}

/// The encodings of the elements `xs[i..]`, each of type `t`, one after the other.
pub open spec fn items_encoding(t: SupportedType, xs: Seq<BorshValue>, i: int) -> Option<Seq<u8>>
    decreases xs, xs.len() - i,
{
    if i < 0 || i >= xs.len() {
        Some(Seq::empty())
    } else {
        match encoding(t, xs[i]) {
            Some(b) => match items_encoding(t, xs, i + 1) {
                Some(rest) => Some(b + rest),
                None => None,
            },
            None => None,
        }
    }
}

/// The encodings of the first `k` fields `xs`, of types `fs`, one after the other.
pub open spec fn fields_encoding(fs: Seq<SupportedType>, xs: Seq<BorshValue>, k: int) -> Option<Seq<u8>>
    decreases xs, k,
{
    if k <= 0 || k > xs.len() {
        Some(Seq::empty())
    } else {
        match fields_encoding(fs, xs, k - 1) {
            Some(p) => match encoding(fs[k - 1], xs[k - 1]) {
                Some(b) => Some(p + b),
                None => None,
            },
            None => None,
        }
    }
}

/// Whether `data` holds `b` from `off` on.
pub open spec fn holds_at(data: Seq<u8>, off: int, b: Seq<u8>) -> bool {
    0 <= off && off + b.len() <= data.len() && data.subrange(off, off + b.len()) == b
}

proof fn lemma_holds_split(data: Seq<u8>, off: int, a: Seq<u8>, b: Seq<u8>)
    requires
        holds_at(data, off, a + b),
    ensures
        holds_at(data, off, a),
        holds_at(data, off + a.len(), b),
{
    assert(data.subrange(off, off + a.len()) =~= (a + b).subrange(0, a.len() as int));
    assert((a + b).subrange(0, a.len() as int) =~= a);
    assert(data.subrange(off + a.len(), off + a.len() + b.len()) =~= (a + b).subrange(
        a.len() as int,
        (a + b).len() as int,
    ));
    assert((a + b).subrange(a.len() as int, (a + b).len() as int) =~= b);
}

proof fn lemma_end(t: SupportedType, v: BorshValue, data: Seq<u8>, off: int)
    requires
        encoding(t, v) matches Some(b) && holds_at(data, off, b),
    ensures
        end_of(t, data, off) == Some(off + encoding(t, v)->0.len()),
    decreases v, 0int,
{
    let b = encoding(t, v)->0;
    match t {
        SupportedType::String => {
            let s = v->Text_0;
            lemma_le_bytes_value(s.len(), 4);
            lemma_holds_split(data, off, length_prefix(s.len()), s);
            assert(data.subrange(off, off + 4).take(4) =~= length_prefix(s.len()));
            assert(prefix_at(data, off) == s.len());
        },
        SupportedType::Option(inner) => {
            assert(data[off] == b[0]) by {
                assert(data.subrange(off, off + b.len())[0] == data[off]);
            }
            match v->Opt_0 {
                None => {},
                Some(x) => {
                    let e = encoding(*inner, *x)->0;
                    lemma_holds_split(data, off, seq![1u8], e);
                    lemma_end(*inner, *x, data, off + 1);
                },
            }
        },
        SupportedType::Vec(inner) => {
            let xs = v->Items_0;
            let rest = items_encoding(*inner, xs, 0)->0;
            lemma_le_bytes_value(xs.len(), 4);
            lemma_holds_split(data, off, length_prefix(xs.len()), rest);
            assert(data.subrange(off, off + 4).take(4) =~= length_prefix(xs.len()));
            assert(prefix_at(data, off) == xs.len());
            lemma_items(*inner, xs, 0, data, off + 4);
        },
        SupportedType::Array(inner, n) => {
            let xs = v->Items_0;
            lemma_items(*inner, xs, 0, data, off);
        },
        SupportedType::Defined(_, fields) => {
            let xs = v->Items_0;
            lemma_fields(fields@, xs, xs.len() as int, data, off);
        },
        _ => {},
    }
}

proof fn lemma_items(t: SupportedType, xs: Seq<BorshValue>, i: int, data: Seq<u8>, off: int)
    requires
        0 <= i <= xs.len(),
        items_encoding(t, xs, i) matches Some(b) && holds_at(data, off, b),
    ensures
        repeat_end(t, data, off, (xs.len() - i) as nat) == Some(off + items_encoding(t, xs, i)->0.len()),
    decreases xs, xs.len() - i,
{
    if i < xs.len() {
        let e = encoding(t, xs[i])->0;
        let rest = items_encoding(t, xs, i + 1)->0;
        lemma_holds_split(data, off, e, rest);
        lemma_end(t, xs[i], data, off);
        lemma_items(t, xs, i + 1, data, off + e.len());
        assert((xs.len() - i - 1) as nat == ((xs.len() - i) as nat - 1) as nat);
    }
}

proof fn lemma_fields(fs: Seq<SupportedType>, xs: Seq<BorshValue>, k: int, data: Seq<u8>, off: int)
    requires
        0 <= k <= xs.len(),
        xs.len() == fs.len(),
        fields_encoding(fs, xs, k) matches Some(b) && holds_at(data, off, b),
    ensures
        prefix_end(fs, data, off, k) == Some(off + fields_encoding(fs, xs, k)->0.len()),
    decreases xs, k,
{
    if k > 0 {
        let p = fields_encoding(fs, xs, k - 1)->0;
        let e = encoding(fs[k - 1], xs[k - 1])->0;
        lemma_holds_split(data, off, p, e);
        lemma_fields(fs, xs, k - 1, data, off);
        lemma_end(fs[k - 1], xs[k - 1], data, off + p.len());
    }
}

proof fn lemma_fields_prefix(fs: Seq<SupportedType>, xs: Seq<BorshValue>, k: int, n: int)
    requires
        0 <= k <= n <= xs.len(),
        fields_encoding(fs, xs, n) is Some,
    ensures
        fields_encoding(fs, xs, k) matches Some(p) && p.len() <= fields_encoding(fs, xs, n)->0.len()
            && fields_encoding(fs, xs, n)->0.subrange(0, p.len() as int) == p,
    decreases n - k,
{
    if k < n {
        lemma_fields_prefix(fs, xs, k, n - 1);
        let p = fields_encoding(fs, xs, k)->0;
        let m = fields_encoding(fs, xs, n - 1)->0;
        let whole = fields_encoding(fs, xs, n)->0;
        assert(whole.subrange(0, m.len() as int) =~= m);
        assert(whole.subrange(0, p.len() as int) =~= m.subrange(0, p.len() as int));
    } else {
        let p = fields_encoding(fs, xs, k)->0;
        assert(p.subrange(0, p.len() as int) =~= p);
    }
}

/// Where a value ends: when the bytes from `off` on are the borsh encoding of a value
/// of type `t`, the end that the layout finds for `t` at `off` is `off` plus the
/// length of that encoding.
pub proof fn law_end_is_encoded_length(t: SupportedType, v: BorshValue, data: Seq<u8>, off: int)
    requires
        encoding(t, v) matches Some(b) && holds_at(data, off, b),
    ensures
        end_of(t, data, off) == Some(off + encoding(t, v)->0.len()),
{
    lemma_end(t, v, data, off);
}

/// Field offsets: when `data` is the borsh encoding of a struct whose fields have
/// types `fs` and values `xs`, the first field starts at 0, each next field starts
/// where the one before starts plus the length of that field's encoding, and the
/// last one ends at the end of the data.
pub proof fn law_field_offsets_follow_encoded_lengths(fs: Seq<SupportedType>, xs: Seq<BorshValue>, data: Seq<u8>)
    requires
        xs.len() == fs.len(),
        fields_encoding(fs, xs, fs.len() as int) == Some(data),
    ensures
        prefix_end(fs, data, 0, 0) == Some(0int),
        forall|k: int|
            0 <= k < fs.len() ==> #[trigger] encoding(fs[k], xs[k]) is Some && prefix_end(fs, data, 0, k + 1)
                == Some(prefix_end(fs, data, 0, k)->0 + encoding(fs[k], xs[k])->0.len()),
        prefix_end(fs, data, 0, fs.len() as int) == Some(data.len() as int),
{
    let n = fs.len() as int;
    assert(data.subrange(0, data.len() as int) =~= data);
    lemma_fields(fs, xs, n, data, 0);
    assert forall|k: int| 0 <= k < fs.len() implies #[trigger] encoding(fs[k], xs[k]) is Some && prefix_end(
        fs,
        data,
        0,
        k + 1,
    ) == Some(prefix_end(fs, data, 0, k)->0 + encoding(fs[k], xs[k])->0.len()) by {
        lemma_fields_prefix(fs, xs, k, n);
        lemma_fields_prefix(fs, xs, k + 1, n);
        let p = fields_encoding(fs, xs, k)->0;
        let q = fields_encoding(fs, xs, k + 1)->0;
        assert(data.subrange(0, p.len() as int) == p);
        assert(data.subrange(0, q.len() as int) == q);
        lemma_fields(fs, xs, k, data, 0);
        lemma_fields(fs, xs, k + 1, data, 0);
    }
}

/// A field of fixed length reads back its value: the accessors of these types decode
/// the first bytes from the field's offset, as many as the type's length, and those
/// bytes are the value's encoding.
pub proof fn law_fixed_field_reads_its_bytes(t: SupportedType, v: BorshValue, data: Seq<u8>, off: int)
    requires
        fixed_len(t) is Some,
        encoding(t, v) matches Some(b) && holds_at(data, off, b),
    ensures
        v == BorshValue::Fixed(encoding(t, v)->0),
        data.skip(off).take(fixed_len(t)->0 as int) == encoding(t, v)->0,
{
    let b = encoding(t, v)->0;
    assert(data.skip(off).take(b.len() as int) =~= data.subrange(off, off + b.len()));
}

/// A string field reads back its text: the string accessor, given the bytes from the
/// field's offset to its end, decodes the string's UTF-8 bytes, and the length it
/// finds from the offset is the length of the encoding.
pub proof fn law_string_field_reads_back(text: Seq<u8>, data: Seq<u8>, off: int)
    requires
        encoding(SupportedType::String, BorshValue::Text(text)) matches Some(b) && holds_at(data, off, b),
    ensures
        <&str as crate::accessor::BorshAccessor>::decoded(data.subrange(off, off + 4 + text.len()))
            == vstd::utf8::decode_utf8(text),
        <&str as crate::accessor::BorshAccessor>::encoded_len(data.skip(off)) == 4 + text.len(),
{
    let b = encoding(SupportedType::String, BorshValue::Text(text))->0;
    lemma_le_bytes_value(text.len(), 4);
    assert(data.subrange(off, off + 4 + text.len()).skip(4) =~= text);
    assert(data.skip(off).take(4) =~= length_prefix(text.len()));
}

/// A vector field reads back its length: the vector accessor over the bytes from the
/// field's offset announces as many elements as the vector value has.
pub proof fn law_vector_field_count<'a, T: crate::accessor::BorshAccessor<'a>>(
    inner: SupportedType,
    xs: Seq<BorshValue>,
    data: Seq<u8>,
    off: int,
)
    requires
        encoding(SupportedType::Vec(Box::new(inner)), BorshValue::Items(xs)) matches Some(b) && holds_at(
            data,
            off,
            b,
        ),
    ensures
        crate::vector::BorshVector::<'a, T>::count(data.skip(off)) == xs.len(),
{
    let rest = items_encoding(inner, xs, 0)->0;
    lemma_le_bytes_value(xs.len(), 4);
    lemma_holds_split(data, off, length_prefix(xs.len()), rest);
    assert(data.skip(off).take(4) =~= length_prefix(xs.len()));
}

} // verus!
