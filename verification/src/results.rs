//! Source locations and the carrier that pairs an error with the span it
//! points at.

use vstd::prelude::*;

verus! {

/// A character-index span `[start, end)` into the original source sequence.
/// Offsets count Unicode scalar values, not bytes; the span serves
/// diagnostics and slicing only, never semantics.
#[derive(Debug, Clone, Copy, PartialEq, Eq, Structural)]
pub struct Loc {
    pub start: usize,
    pub end: usize,
}

impl Loc {
    pub fn new(start: usize, end: usize) -> (r: Loc)
        ensures
            r.start == start,
            r.end == end,
    {
        Loc { start, end }
    }

    /// A well-formed span never ends before it starts.
    pub open spec fn wf(self) -> bool {
        self.start <= self.end
    }
}

/// An error value together with the source span it points at.
#[derive(Debug, Clone, PartialEq)]
pub struct PhyResult<T> {
    pub err: T,
    pub loc: Loc,
}

impl<T> PhyResult<T> {
    pub fn new(err: T, loc: Loc) -> (r: PhyResult<T>)
        ensures
            r.err == err,
            r.loc == loc,
    {
        PhyResult { err, loc }
    }
}

/// Spec-level twin of `PhyResult`: the error's view beside the span's
/// endpoints as unbounded integers.
pub ghost struct DiagV<E> {
    pub err: E,
    pub start: int,
    pub end: int,
}

impl<T: View> View for PhyResult<T> {
    type V = DiagV<T::V>;

    open spec fn view(&self) -> DiagV<T::V> {
        DiagV { err: self.err@, start: self.loc.start as int, end: self.loc.end as int }
    }
}

impl<T: View> DeepView for PhyResult<T> {
    type V = DiagV<T::V>;

    open spec fn deep_view(&self) -> DiagV<T::V> {
        self.view()
    }
}

} // verus!
