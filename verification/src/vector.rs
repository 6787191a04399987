//! In-place reading of borsh vectors: a four-byte little-endian element count
//! followed by the elements, one after the other.
use crate::accessor::{prefix_u32, read_prefix, BorshAccessor};
use core::marker::PhantomData;
use vstd::prelude::*;

verus! {

#[verifier::external_type_specification]
#[verifier::external_body]
pub struct ExRangeFull(core::ops::RangeFull);

#[verifier::external_type_specification]
#[verifier::external_body]
#[verifier::reject_recursive_types(Idx)]
pub struct ExRangeFrom<Idx>(core::ops::RangeFrom<Idx>);

#[verifier::external_type_specification]
#[verifier::external_body]
#[verifier::reject_recursive_types(Idx)]
pub struct ExRangeTo<Idx>(core::ops::RangeTo<Idx>);

#[verifier::external_type_specification]
#[verifier::external_body]
#[verifier::reject_recursive_types(Idx)]
pub struct ExRangeToInclusive<Idx>(core::ops::RangeToInclusive<Idx>);

/// The `start` field of a `start..` range.
pub uninterp spec fn range_from_start(r: core::ops::RangeFrom<usize>) -> usize;

/// The `end` field of a `..end` range.
pub uninterp spec fn range_to_end(r: core::ops::RangeTo<usize>) -> usize;

/// The `end` field of a `..=end` range.
pub uninterp spec fn range_to_inclusive_end(r: core::ops::RangeToInclusive<usize>) -> usize;

/// Reads the public field `start` of a `core::ops::RangeFrom`.
#[verifier::external_body]
fn start_of(r: &core::ops::RangeFrom<usize>) -> (s: usize)
    ensures
        s == range_from_start(*r),
{
    r.start
}

/// Reads the public field `end` of a `core::ops::RangeTo`.
#[verifier::external_body]
fn end_of_range_to(r: &core::ops::RangeTo<usize>) -> (e: usize)
    ensures
        e == range_to_end(*r),
{
    r.end
}

/// Reads the public field `end` of a `core::ops::RangeToInclusive`.
#[verifier::external_body]
fn end_of_range_to_inclusive(r: &core::ops::RangeToInclusive<usize>) -> (e: usize)
    ensures
        e == range_to_inclusive_end(*r),
{
    r.end
}

/// A set of element positions.
pub trait IndexRange {
    spec fn includes(&self, i: int) -> bool;

    fn contains_index(&self, i: usize) -> (r: bool)
        ensures
            r == self.includes(i as int),
    ;
}

impl IndexRange for core::ops::RangeFull {
    open spec fn includes(&self, i: int) -> bool {
        true
    }

    fn contains_index(&self, i: usize) -> (r: bool) {
        true
    }
}

impl IndexRange for core::ops::RangeInclusive<usize> {
    open spec fn includes(&self, i: int) -> bool {
        self@.start <= i && if self@.exhausted {
            i < self@.end
        } else {
            i <= self@.end
        }
    }

    fn contains_index(&self, i: usize) -> (r: bool) {
        self.contains(&i)
    }
}

impl IndexRange for core::ops::RangeFrom<usize> {
    open spec fn includes(&self, i: int) -> bool {
        range_from_start(*self) <= i
    }

    fn contains_index(&self, i: usize) -> (r: bool) {
        start_of(self) <= i
    }
}

impl IndexRange for core::ops::RangeTo<usize> {
    open spec fn includes(&self, i: int) -> bool {
        i < range_to_end(*self)
    }

    fn contains_index(&self, i: usize) -> (r: bool) {
        i < end_of_range_to(self)
    }
}

impl IndexRange for core::ops::RangeToInclusive<usize> {
    open spec fn includes(&self, i: int) -> bool {
        i <= range_to_inclusive_end(*self)
    }

    fn contains_index(&self, i: usize) -> (r: bool) {
        i <= end_of_range_to_inclusive(self)
    }
}

impl IndexRange for core::ops::Range<usize> {
    open spec fn includes(&self, i: int) -> bool {
        self.start <= i < self.end
    }

    fn contains_index(&self, i: usize) -> (r: bool) {
        self.start <= i && i < self.end
    }
}

/// A borsh vector read in place from a byte buffer.
pub struct BorshVector<'a, T> where T: BorshAccessor<'a> {
    inner: &'a [u8],
    _phantom: PhantomData<T>,
}

impl<'a, T> View for BorshVector<'a, T> where T: BorshAccessor<'a> {
    type V = Seq<u8>;

    closed spec fn view(&self) -> Seq<u8> {
        self.inner@
    }
}

impl<'a, T> BorshVector<'a, T> where T: BorshAccessor<'a> {
    /// The number of elements that the buffer announces.
    pub open spec fn count(data: Seq<u8>) -> nat {
        prefix_u32(data)
    }

    /// The position of element `k`: after the count and the `k` elements before it.
    pub open spec fn elem_offset(data: Seq<u8>, k: nat) -> int
        decreases k,
    {
        if k == 0 {
            4
        } else {
            let o = Self::elem_offset(data, (k - 1) as nat);
            o + T::encoded_len(data.skip(o))
        }
    }

    /// The lengths of the first `k` elements can be computed in the buffer.
    pub open spec fn elem_lens_ok(data: Seq<u8>, k: nat) -> bool {
        forall|j: nat|
            #![trigger Self::elem_offset(data, j)]
            j < k ==> {
                &&& Self::elem_offset(data, j) <= data.len()
                &&& T::len_ok(data.skip(Self::elem_offset(data, j)))
                &&& Self::elem_offset(data, j + 1) <= usize::MAX
            }
    }

    /// Element `j` lies within the buffer and can be read.
    pub open spec fn elem_readable(data: Seq<u8>, j: nat) -> bool {
        &&& Self::elem_offset(data, j + 1) <= data.len()
        &&& T::convert_ok(data.subrange(Self::elem_offset(data, j), Self::elem_offset(data, j + 1)))
    }

    /// The value of element `j`.
    pub open spec fn element(data: Seq<u8>, j: nat) -> T::V {
        T::decoded(data.subrange(Self::elem_offset(data, j), Self::elem_offset(data, j + 1)))
    }

    /// The values, in order, of those of the first `k` elements whose position is in `range`.
    pub open spec fn selected<R: IndexRange>(data: Seq<u8>, range: R, k: nat) -> Seq<T::V>
        decreases k,
    {
        if k == 0 {
            Seq::empty()
        } else {
            let prev = Self::selected(data, range, (k - 1) as nat);
            if range.includes(k - 1) {
                prev.push(Self::element(data, (k - 1) as nat))
            } else {
                prev
            }
        }
    }

    /// The buffer holds a vector whose whole length can be computed.
    pub open spec fn len_computable(data: Seq<u8>) -> bool {
        data.len() >= 4 && Self::elem_lens_ok(data, Self::count(data))
    }

    pub fn new(inner: &'a [u8]) -> (r: Self)
        ensures
            r@ == inner@,
    {
        Self { inner, _phantom: PhantomData }
    }

    /// The elements whose position is in `range`, in order.
    pub fn get<R: IndexRange>(&self, range: R) -> (r: Vec<T>)
        requires
            Self::len_computable(self@),
            forall|j: nat|
                j < Self::count(self@) && range.includes(j as int) ==> Self::elem_readable(
                    self@,
                    j,
                ),
        ensures
            r@.map_values(|t: T| t@) == Self::selected(self@, range, Self::count(self@)),
    {
        let data: &'a [u8] = self.inner;
        let elements_nb = read_prefix(data);
        let mut offset: usize = 4;
        let mut out: Vec<T> = Vec::new();
        let mut i: usize = 0;
        while i < elements_nb
            invariant
                data@ == self@,
                elements_nb == Self::count(data@),
                Self::len_computable(data@),
                forall|j: nat|
                    j < Self::count(data@) && range.includes(j as int) ==> Self::elem_readable(
                        data@,
                        j,
                    ),
                i <= elements_nb,
                offset == Self::elem_offset(data@, i as nat),
                out@.map_values(|t: T| t@) == Self::selected(data@, range, i as nat),
            decreases elements_nb - i,
        {
            let ghost o = Self::elem_offset(data@, i as nat);
            assert(o <= data@.len() && T::len_ok(data@.skip(o)) && Self::elem_offset(
                data@,
                (i + 1) as nat,
            ) <= usize::MAX);
            let rest = vstd::slice::slice_subrange(data, offset, data.len());
            assert(rest@ =~= data@.skip(o));
            let len = T::len(rest);
            if range.contains_index(i) {
                assert(Self::elem_readable(data@, i as nat));
                let el = T::convert(vstd::slice::slice_subrange(data, offset, offset + len));
                let ghost prev = out@;
                out.push(el);
                assert(out@.map_values(|t: T| t@) =~= prev.map_values(|t: T| t@).push(el@));
            }
            offset = offset + len;
            i = i + 1;
        }
        out
    }

    /// The element at position `index`, if the vector has one there.
    pub fn at(&self, index: usize) -> (r: Option<T>)
        requires
            self@.len() >= 4,
            index < Self::count(self@) ==> Self::elem_lens_ok(self@, (index + 1) as nat)
                && Self::elem_readable(self@, index as nat),
        ensures
            r is Some <==> index < Self::count(self@),
            r matches Some(v) ==> v@ == Self::element(self@, index as nat),
    {
        let data: &'a [u8] = self.inner;
        let elements_nb = read_prefix(data);
        if index >= elements_nb {
            return None;
        }
        let mut offset: usize = 4;
        let mut i: usize = 0;
        while i < index
            invariant
                data@ == self@,
                index < Self::count(data@),
                Self::elem_lens_ok(data@, (index + 1) as nat),
                i <= index,
                offset == Self::elem_offset(data@, i as nat),
            decreases index - i,
        {
            let ghost o = Self::elem_offset(data@, i as nat);
            assert(o <= data@.len() && T::len_ok(data@.skip(o)) && Self::elem_offset(
                data@,
                (i + 1) as nat,
            ) <= usize::MAX);
            let rest = vstd::slice::slice_subrange(data, offset, data.len());
            assert(rest@ =~= data@.skip(o));
            let len = T::len(rest);
            offset = offset + len;
            i = i + 1;
        }
        let ghost o = Self::elem_offset(data@, index as nat);
        assert(o <= data@.len() && T::len_ok(data@.skip(o)));
        let rest = vstd::slice::slice_subrange(data, offset, data.len());
        assert(rest@ =~= data@.skip(o));
        let len = T::len(rest);
        Some(T::convert(vstd::slice::slice_subrange(data, offset, offset + len)))
    }
}

impl<'a, T> BorshAccessor<'a> for BorshVector<'a, T> where T: BorshAccessor<'a> {
    open spec fn len_ok(data: Seq<u8>) -> bool {
        Self::len_computable(data)
    }

    open spec fn encoded_len(data: Seq<u8>) -> nat {
        Self::elem_offset(data, Self::count(data)) as nat
    }

    open spec fn convert_ok(data: Seq<u8>) -> bool {
        true
    }

    open spec fn decoded(data: Seq<u8>) -> Seq<u8> {
        data
    }

    fn len(data: &'a [u8]) -> (r: usize) {
        let mut offset: usize = 4;
        let el_nb = read_prefix(data);
        let mut i: usize = 0;
        while i < el_nb
            invariant
                Self::len_computable(data@),
                el_nb == Self::count(data@),
                i <= el_nb,
                offset == Self::elem_offset(data@, i as nat),
            decreases el_nb - i,
        {
            let ghost o = Self::elem_offset(data@, i as nat);
            assert(o <= data@.len() && T::len_ok(data@.skip(o)) && Self::elem_offset(
                data@,
                (i + 1) as nat,
            ) <= usize::MAX);
            let rest = vstd::slice::slice_subrange(data, offset, data.len());
            assert(rest@ =~= data@.skip(o));
            offset = offset + T::len(rest);
            i = i + 1;
        }
        offset
    }

    fn convert(data: &'a [u8]) -> (r: Self) {
        BorshVector::new(data)
    }
}

} // verus!
