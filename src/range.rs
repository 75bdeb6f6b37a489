//! Inclusive ranges of `u64`, tagged by what they count.
use vstd::prelude::*;

verus! {

/// Marks a range as counting bytes.
#[derive(Debug, Clone, Copy, PartialEq, Eq, Default)]
pub struct ByteIdentifier;

/// Marks a range as counting lines.
#[derive(Debug, Clone, Copy, PartialEq, Eq, Default)]
pub struct LineIdentifier;

/// The inclusive range `[start, end]`; it is empty when `start > end`.
/// The type parameter only keeps byte ranges and line ranges apart.
#[derive(Debug, Clone, Copy, PartialEq, Eq)]
pub struct GrabRange<T> {
    pub start: u64,
    pub end: u64,
    pub kind: T,
}

pub type ByteRange = GrabRange<ByteIdentifier>;

pub type LineRange = GrabRange<LineIdentifier>;

/// Relies on `RangeInclusive::start`: the lower bound the range was built with.
pub assume_specification<Idx>[ core::ops::RangeInclusive::<Idx>::start ](
    r: &core::ops::RangeInclusive<Idx>,
) -> (s: &Idx)
    ensures
        *s == r@.start,
;

/// Relies on `RangeInclusive::end`: the upper bound the range was built with.
pub assume_specification<Idx>[ core::ops::RangeInclusive::<Idx>::end ](
    r: &core::ops::RangeInclusive<Idx>,
) -> (e: &Idx)
    ensures
        *e == r@.end,
;

impl<T: Copy + Default> GrabRange<T> {
    /// Number of elements of `[lo, hi]`.
    pub open spec fn size_of(lo: int, hi: int) -> int {
        if lo > hi { 0 } else { hi - lo + 1 }
    }

    pub open spec fn spec_size(&self) -> int {
        Self::size_of(self.start as int, self.end as int)
    }

    pub open spec fn spec_is_empty(&self) -> bool {
        self.start > self.end
    }

    pub open spec fn contains(&self, i: int) -> bool {
        self.start <= i <= self.end
    }

    /// The range with the bounds of `range`.
    pub fn from(range: core::ops::RangeInclusive<u64>) -> (r: Self)
        ensures
            r.start == range@.start,
            r.end == range@.end,
    {
        GrabRange { start: *range.start(), end: *range.end(), kind: T::default() }
    }

    /// The range `[lo, hi]`.
    pub fn new(lo: u64, hi: u64) -> (r: Self)
        ensures
            r.start == lo,
            r.end == hi,
    {
        GrabRange { start: lo, end: hi, kind: T::default() }
    }

    /// The range `[index, index]`.
    pub fn single_line(index: u64) -> (r: Self)
        ensures
            r.start == index,
            r.end == index,
            r.spec_size() == 1,
    {
        GrabRange { start: index, end: index, kind: T::default() }
    }

    pub fn start(&self) -> (s: u64)
        ensures
            s == self.start,
    {
        self.start
    }

    pub fn end(&self) -> (e: u64)
        ensures
            e == self.end,
    {
        self.end
    }

    /// `end - start + 1`, or 0 for an empty range; the full `u64` range has
    /// no size in `u64`.
    pub fn size(&self) -> (n: u64)
        requires
            self.spec_size() <= u64::MAX,
        ensures
            n == self.spec_size(),
    {
        if self.start > self.end {
            return 0;
        }
        self.end - self.start + 1
    }

    pub fn is_empty(&self) -> (b: bool)
        ensures
            b == self.spec_is_empty(),
    {
        self.start > self.end
    }

    /// Whether `i` lies in the range.
    pub fn contains_index(&self, i: u64) -> (b: bool)
        ensures
            b == self.contains(i as int),
    {
        self.start <= i && i <= self.end
    }
}

} // verus!
