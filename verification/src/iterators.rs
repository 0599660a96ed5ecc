//! A cursor that turns a non-decreasing offset table into the lazy sequence
//! of half-open ranges between consecutive offsets: a table of N offsets
//! yields N - 1 ranges, one per consecutive pair, and a table of at most one
//! offset yields none.

use core::ops::Range;
use vstd::prelude::*;

verus! {

/// Pairs each offset of a borrowed table with its immediate successor,
/// yielding one half-open range per pair, in order, without allocating.
pub struct RangeIteratorAdapter<'a> {
    offsets: &'a [usize],
    pos: usize,
}

impl<'a> RangeIteratorAdapter<'a> {
    /// The offset table the ranges are drawn from.
    pub closed spec fn offsets(self) -> Seq<usize> {
        self.offsets@
    }

    /// How many ranges have been yielded so far.
    pub closed spec fn position(self) -> int {
        self.pos as int
    }

    /// The cursor never moves past the table.
    pub closed spec fn inv(self) -> bool {
        self.pos <= self.offsets@.len()
    }

    pub fn new(offsets: &'a [usize]) -> (it: RangeIteratorAdapter<'a>)
        ensures
            it.inv(),
            it.offsets() == offsets@,
            it.position() == 0,
    {
        RangeIteratorAdapter { offsets, pos: 0 }
    }

    /// Yields the range from the current offset to its successor and
    /// advances, or yields nothing once no successor is left.
    pub fn next(&mut self) -> (r: Option<Range<usize>>)
        requires
            old(self).inv(),
        ensures
            final(self).inv(),
            final(self).offsets() == old(self).offsets(),
            (r is Some <==> old(self).position() + 1 < old(self).offsets().len()),
            r matches Some(rg) ==> {
                &&& rg.start == old(self).offsets()[old(self).position()]
                &&& rg.end == old(self).offsets()[old(self).position() + 1]
                &&& final(self).position() == old(self).position() + 1
            },
            r is None ==> final(self).position() == old(self).position(),
    {
        let len = self.offsets.len();
        if len >= 1 && self.pos < len - 1 {
            let start = self.offsets[self.pos];
            let end = self.offsets[self.pos + 1];
            self.pos = self.pos + 1;
            Some(Range { start, end })
        } else {
            None
        }
    }
}

} // verus!
