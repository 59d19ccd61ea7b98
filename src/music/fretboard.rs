use vstd::prelude::*;
use std::ops::Range;

verus! {

/// A place on the fretboard: string index (from 1) and fret index (0 is the
/// open string).
#[derive(Clone, Copy, Debug, PartialEq, Eq, Structural, Hash)]
pub struct FretLoc {
    pub string_idx: usize,
    pub fret_idx: usize,
}

/// A non-empty half-open range of frets.
#[derive(Clone, Copy, Debug)]
pub struct FretRange {
    beg: usize,
    end: usize,
}

impl FretRange {
    pub closed spec fn start(&self) -> usize {
        self.beg
    }

    pub closed spec fn end(&self) -> usize {
        self.end
    }

    #[verifier::type_invariant]
    spec fn inv(&self) -> bool {
        self.beg < self.end
    }

    /// Frets `beg_fret` up to, not including, `end_fret`.
    pub fn new(beg_fret: usize, end_fret: usize) -> (r: FretRange)
        requires
            beg_fret < end_fret,
        ensures
            r.start() == beg_fret,
            r.end() == end_fret,
    {
        FretRange { beg: beg_fret, end: end_fret }
    }

    /// The frets, as a range.
    pub fn r(&self) -> (r: Range<usize>)
        ensures
            r.start == self.start(),
            r.end == self.end(),
            r.start < r.end,
    {
        proof {
            use_type_invariant(self);
        }
        Range { start: self.beg, end: self.end }
    }

    /// The frets, as a range.
    pub fn range(&self) -> (r: Range<usize>)
        ensures
            r.start == self.start(),
            r.end == self.end(),
            r.start < r.end,
    {
        self.r()
    }
}

/// A non-empty half-open range of strings, numbered from 1.
#[derive(Clone, Copy, Debug)]
pub struct StringRange {
    beg: usize,
    end: usize,
}

impl StringRange {
    pub closed spec fn start(&self) -> usize {
        self.beg
    }

    pub closed spec fn end(&self) -> usize {
        self.end
    }

    #[verifier::type_invariant]
    spec fn inv(&self) -> bool {
        1 <= self.beg < self.end
    }

    /// Strings `beg_string` up to, not including, `end_string`.
    pub fn new(beg_string: usize, end_string: usize) -> (r: StringRange)
        requires
            1 <= beg_string < end_string,
        ensures
            r.start() == beg_string,
            r.end() == end_string,
    {
        StringRange { beg: beg_string, end: end_string }
    }

    /// The strings, as a range.
    pub fn r(&self) -> (r: Range<usize>)
        ensures
            r.start == self.start(),
            r.end == self.end(),
            1 <= r.start < r.end,
    {
        proof {
            use_type_invariant(self);
        }
        Range { start: self.beg, end: self.end }
    }

    /// The strings, as a range.
    pub fn range(&self) -> (r: Range<usize>)
        ensures
            r.start == self.start(),
            r.end == self.end(),
            1 <= r.start < r.end,
    {
        self.r()
    }
}

} // verus!
