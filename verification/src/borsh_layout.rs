//! Where the fields of a borsh-encoded struct start, as the zero-copy accessors that
//! the borsh attribute macro generates compute it: each field starts where the
//! previous one ends, and the length of a field is read from the data itself.
use crate::accessor::{prefix_u32, read_prefix};
use vstd::prelude::*;

verus! {

/// The field types that the borsh macro supports. A defined type is a struct that
/// the macro handles too, given by its name and the types of its fields.
pub enum SupportedType {
    Bool,
    U8,
    I8,
    U16,
    I16,
    U32,
    I32,
    U64,
    I64,
    U128,
    I128,
    String,
    Pubkey,
    Option(Box<SupportedType>),
    Vec(Box<SupportedType>),
    Array(Box<SupportedType>, usize),
    Defined(String, Vec<SupportedType>),
}

/// The number of bytes of a type whose encoding has a fixed length.
pub open spec fn fixed_len(t: SupportedType) -> Option<nat> {
    match t {
        SupportedType::Bool | SupportedType::U8 | SupportedType::I8 => Some(1),
        SupportedType::U16 | SupportedType::I16 => Some(2),
        SupportedType::U32 | SupportedType::I32 => Some(4),
        SupportedType::U64 | SupportedType::I64 => Some(8),
        SupportedType::U128 | SupportedType::I128 => Some(16),
        SupportedType::Pubkey => Some(32),
        _ => None,
    }
}

/// The four-byte little-endian length prefix at `off`.
pub open spec fn prefix_at(data: Seq<u8>, off: int) -> nat {
    prefix_u32(data.subrange(off, off + 4))
}

/// Where a value of type `t` that starts at `off` ends; `None` when finding it out
/// reads past the end of `data` (a length prefix, or the tag of an option).
pub open spec fn end_of(t: SupportedType, data: Seq<u8>, off: int) -> Option<int>
    decreases t, 0int,
{
    match t {
        SupportedType::String => if 0 <= off && off + 4 <= data.len() {
            Some(off + 4 + prefix_at(data, off))
        } else {
            None
        },
        SupportedType::Option(inner) => if 0 <= off < data.len() {
            if data[off] == 1 {
                end_of(*inner, data, off + 1)
            } else {
                Some(off + 1)
            }
        } else {
            None
        },
        SupportedType::Vec(inner) => if 0 <= off && off + 4 <= data.len() {
            repeat_end(*inner, data, off + 4, prefix_at(data, off))
        } else {
            None
        },
        SupportedType::Array(inner, n) => repeat_end(*inner, data, off, n as nat),
        SupportedType::Defined(_, fields) => prefix_end(fields@, data, off, fields@.len() as int),
        _ => match fixed_len(t) {
            Some(w) => Some(off + w),
            None => None,
        },
    }
}

/// Where `n` consecutive values of type `t` that start at `off` end.
pub open spec fn repeat_end(t: SupportedType, data: Seq<u8>, off: int, n: nat) -> Option<int>
    decreases t, n + 1,
{
    if n == 0 {
        Some(off)
    } else {
        match end_of(t, data, off) {
            Some(e) => repeat_end(t, data, e, (n - 1) as nat),
            None => None,
        }
    }
}

/// Where the first `k` fields of types `fs` end, the first starting at `off`.
pub open spec fn prefix_end(fs: Seq<SupportedType>, data: Seq<u8>, off: int, k: int) -> Option<int>
    decreases fs, k + 1,
{
    if k <= 0 || k > fs.len() {
        Some(off)
    } else {
        match prefix_end(fs, data, off, k - 1) {
            Some(p) => end_of(fs[k - 1], data, p),
            None => None,
        }
    }
}

/// An end that an offset of the machine can hold.
pub open spec fn fits(o: Option<int>) -> bool {
    o matches Some(e) && e <= usize::MAX
}

pub proof fn lemma_end_after(t: SupportedType, data: Seq<u8>, off: int)
    ensures
        end_of(t, data, off) matches Some(e) ==> e >= off,
    decreases t, 0int,
{
    match t {
        SupportedType::Option(inner) => {
            lemma_end_after(*inner, data, off + 1);
        },
        SupportedType::Vec(inner) => {
            if 0 <= off && off + 4 <= data.len() {
                lemma_repeat_after(*inner, data, off + 4, prefix_at(data, off));
            }
        },
        SupportedType::Array(inner, n) => {
            lemma_repeat_after(*inner, data, off, n as nat);
        },
        SupportedType::Defined(_, fields) => {
            lemma_prefix_after(fields@, data, off, fields@.len() as int);
        },
        _ => {},
    }
}

proof fn lemma_repeat_after(t: SupportedType, data: Seq<u8>, off: int, n: nat)
    ensures
        repeat_end(t, data, off, n) matches Some(e) ==> e >= off,
    decreases t, n + 1,
{
    if n > 0 {
        lemma_end_after(t, data, off);
        if let Some(e) = end_of(t, data, off) {
            lemma_repeat_after(t, data, e, (n - 1) as nat);
        }
    }
}

proof fn lemma_prefix_after(fs: Seq<SupportedType>, data: Seq<u8>, off: int, k: int)
    ensures
        prefix_end(fs, data, off, k) matches Some(e) ==> e >= off,
    decreases fs, k + 1,
{
    if k > 0 && k <= fs.len() {
        lemma_prefix_after(fs, data, off, k - 1);
        if let Some(p) = prefix_end(fs, data, off, k - 1) {
            lemma_end_after(fs[k - 1], data, p);
        }
    }
}

impl SupportedType {
    /// Where a value of this type that starts at `offset` ends: what the length
    /// expression that the macro generates for a field of this type computes.
    /// `None` when that would read past the end of `data`, or when the end does not
    /// fit in a `usize`.
    pub fn read_len(&self, data: &[u8], offset: usize) -> (r: Option<usize>)
        ensures
            match r {
                Some(e) => end_of(*self, data@, offset as int) == Some(e as int),
                None => !fits(end_of(*self, data@, offset as int)),
            },
        decreases self, 0int,
    {
        match self {
            SupportedType::Bool | SupportedType::U8 | SupportedType::I8 => offset.checked_add(1),
            SupportedType::U16 | SupportedType::I16 => offset.checked_add(2),
            SupportedType::U32 | SupportedType::I32 => offset.checked_add(4),
            SupportedType::U64 | SupportedType::I64 => offset.checked_add(8),
            SupportedType::U128 | SupportedType::I128 => offset.checked_add(16),
            SupportedType::Pubkey => offset.checked_add(32),
            SupportedType::String => {
                if data.len() < 4 || offset > data.len() - 4 {
                    return None;
                }
                let len = read_prefix(vstd::slice::slice_subrange(data, offset, offset + 4));
                let start = offset + 4;
                start.checked_add(len)
            },
            SupportedType::Option(inner) => {
                if offset >= data.len() {
                    return None;
                }
                if data[offset] == 1 {
                    inner.read_len(data, offset + 1)
                } else {
                    Some(offset + 1)
                }
            },
            SupportedType::Vec(inner) => {
                if data.len() < 4 || offset > data.len() - 4 {
                    return None;
                }
                let count = read_prefix(vstd::slice::slice_subrange(data, offset, offset + 4));
                Self::read_repeated(inner, data, offset + 4, count)
            },
            SupportedType::Array(inner, n) => Self::read_repeated(inner, data, offset, *n),
            SupportedType::Defined(name, fields) => {
                let mut cur = offset;
                let mut i: usize = 0;
                assert(prefix_end(fields@, data@, offset as int, 0) == Some(offset as int));
                while i < fields.len()
                    invariant
                        *self == SupportedType::Defined(*name, *fields),
                        i <= fields@.len(),
                        prefix_end(fields@, data@, offset as int, i as int) == Some(cur as int),
                    decreases fields@.len() - i,
                {
                    match fields[i].read_len(data, cur) {
                        Some(e) => {
                            cur = e;
                        },
                        None => {
                            proof {
                                lemma_end_after(fields@[i as int], data@, cur as int);
                                lemma_prefix_grow(
                                    fields@,
                                    data@,
                                    offset as int,
                                    i as int + 1,
                                    fields@.len() as int,
                                );
                            }
                            return None;
                        },
                    }
                    i = i + 1;
                }
                Some(cur)
            },
        }
    }

    fn read_repeated(inner: &Box<SupportedType>, data: &[u8], offset: usize, count: usize) -> (r:
        Option<usize>)
        ensures
            match r {
                Some(e) => repeat_end(**inner, data@, offset as int, count as nat) == Some(e as int),
                None => !fits(repeat_end(**inner, data@, offset as int, count as nat)),
            },
        decreases **inner, 1int,
    {
        let mut cur = offset;
        let mut k: usize = 0;
        while k < count
            invariant
                k <= count,
                repeat_end(**inner, data@, offset as int, count as nat) == repeat_end(
                    **inner,
                    data@,
                    cur as int,
                    (count - k) as nat,
                ),
            decreases count - k,
        {
            match inner.read_len(data, cur) {
                Some(e) => {
                    cur = e;
                },
                None => {
                    proof {
                        if let Some(e) = end_of(**inner, data@, cur as int) {
                            lemma_repeat_after(**inner, data@, e, (count - k - 1) as nat);
                        }
                    }
                    return None;
                },
            }
            k = k + 1;
        }
        Some(cur)
    }
}

proof fn lemma_prefix_grow(fs: Seq<SupportedType>, data: Seq<u8>, off: int, k: int, m: int)
    requires
        0 <= k <= m <= fs.len(),
        !fits(prefix_end(fs, data, off, k)),
    ensures
        !fits(prefix_end(fs, data, off, m)),
    decreases m - k,
{
    if k < m {
        lemma_prefix_grow(fs, data, off, k, m - 1);
        if let Some(p) = prefix_end(fs, data, off, m - 1) {
            lemma_end_after(fs[m - 1], data, p);
        }
    }
}

/// Where field `index` of a struct whose fields have types `fields` starts, when the
/// struct's encoding fills `data`: what the generated `<field>_offset` accessor
/// returns. `None` as for [`SupportedType::read_len`].
pub fn field_offset(fields: &Vec<SupportedType>, data: &[u8], index: usize) -> (r: Option<usize>)
    requires
        index < fields@.len(),
    ensures
        match r {
            Some(e) => prefix_end(fields@, data@, 0, index as int) == Some(e as int),
            None => !fits(prefix_end(fields@, data@, 0, index as int)),
        },
{
    let mut cur: usize = 0;
    let mut i: usize = 0;
    while i < index
        invariant
            i <= index < fields@.len(),
            prefix_end(fields@, data@, 0, i as int) == Some(cur as int),
        decreases index - i,
    {
        match fields[i].read_len(data, cur) {
            Some(e) => {
                cur = e;
            },
            None => {
                proof {
                    lemma_prefix_grow(fields@, data@, 0, i as int + 1, index as int);
                }
                return None;
            },
        }
        i = i + 1;
    }
    Some(cur)
}

/// A string field ends where the string accessor says its encoding ends.
pub proof fn law_string_layout_matches_accessor(data: Seq<u8>)
    requires
        data.len() >= 4,
    ensures
        end_of(SupportedType::String, data, 0) == Some(
            <&str as crate::accessor::BorshAccessor>::encoded_len(data) as int,
        ),
{
    assert(data.subrange(0, 4).take(4) =~= data.take(4));
    assert(prefix_at(data, 0) == prefix_u32(data));
}

} // verus!
