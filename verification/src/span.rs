//! Source locations: half-open ranges of code-point indices.
use vstd::prelude::*;

verus! {

/// The mathematical content of a [`Span`]: the half-open range
/// `[start, end)` of code-point indices.
pub struct Extent {
    pub start: nat,
    pub end: nat,
}

impl Extent {
    /// A range is valid when it does not end before it starts.
    pub open spec fn valid(self) -> bool {
        self.start <= self.end
    }

    /// Number of code points covered.
    pub open spec fn len(self) -> nat {
        (self.end - self.start) as nat
    }

    /// `self` covers every position that `other` covers.
    pub open spec fn contains(self, other: Extent) -> bool {
        self.start <= other.start && other.end <= self.end
    }

    /// The smallest range that covers both `self` and `other`.
    pub open spec fn merge(self, other: Extent) -> Extent {
        Extent {
            start: if self.start <= other.start { self.start } else { other.start },
            end: if self.end >= other.end { self.end } else { other.end },
        }
    }

    /// Merging is commutative.
    pub proof fn lemma_merge_commutative(a: Extent, b: Extent)
        ensures
            a.merge(b) == b.merge(a),
    {
    }

    /// Merging is associative.
    pub proof fn lemma_merge_associative(a: Extent, b: Extent, c: Extent)
        ensures
            a.merge(b).merge(c) == a.merge(b.merge(c)),
    {
    }

    /// Merging a range with itself gives the range back.
    pub proof fn lemma_merge_idempotent(a: Extent)
        ensures
            a.merge(a) == a,
    {
    }

    /// The merge of two valid ranges is valid and covers both of them.
    pub proof fn lemma_merge_covers(a: Extent, b: Extent)
        requires
            a.valid(),
            b.valid(),
        ensures
            a.merge(b).valid(),
            a.merge(b).contains(a),
            a.merge(b).contains(b),
    {
    }

    /// Every range that covers both `a` and `b` covers their merge: the merge
    /// is the smallest such range.
    pub proof fn lemma_merge_least(a: Extent, b: Extent, c: Extent)
        requires
            c.contains(a),
            c.contains(b),
        ensures
            c.contains(a.merge(b)),
    {
    }
}

/// A half-open range `[start, end)` of code-point indices into the source
/// text.  Every span satisfies `start <= end`.
#[derive(Copy, Clone, Debug, PartialEq, Eq, Hash, Structural)]
pub struct Span {
    start: usize,
    end: usize,
}

impl View for Span {
    type V = Extent;

    closed spec fn view(&self) -> Extent {
        Extent { start: self.start as nat, end: self.end as nat }
    }
}

impl Span {
    #[verifier::type_invariant]
    spec fn ordered(&self) -> bool {
        self.start <= self.end
    }

    /// Two spans with the same content are the same span.
    pub proof fn lemma_view_injective(a: Span, b: Span)
        requires
            a@ == b@,
        ensures
            a == b,
    {
    }

    /// Creates the span `[start, end)`.
    pub fn new(start: usize, end: usize) -> (s: Span)
        requires
            start <= end,
        ensures
            s@ == (Extent { start: start as nat, end: end as nat }),
    {
        Span { start, end }
    }

    /// Index of the first code point covered.
    pub fn start(&self) -> (r: usize)
        ensures
            r == self@.start,
            self@.valid(),
    {
        proof {
            use_type_invariant(self);
        }
        self.start
    }

    /// Index one past the last code point covered.
    pub fn end(&self) -> (r: usize)
        ensures
            r == self@.end,
            self@.valid(),
    {
        proof {
            use_type_invariant(self);
        }
        self.end
    }

    /// Number of code points covered.
    pub fn len(&self) -> (r: usize)
        ensures
            r == self@.len(),
            r == self@.end - self@.start,
    {
        proof {
            use_type_invariant(self);
        }
        self.end - self.start
    }

    /// The smallest span containing both `self` and `other`.
    pub fn merge(&self, other: Span) -> (r: Span)
        ensures
            r@ == self@.merge(other@),
            r@.valid(),
            r@.contains(self@),
            r@.contains(other@),
    {
        proof {
            use_type_invariant(self);
            use_type_invariant(&other);
        }
        let start: usize = if self.start <= other.start { self.start } else { other.start };
        let end: usize = if self.end >= other.end { self.end } else { other.end };
        Span { start, end }
    }
}

/// A token together with the span it occupies in the source text.
#[derive(Debug)]
pub struct S<T> {
    pub span: Span,
    pub tok: T,
}

impl<T> S<T> {
    /// `c` may be the result of cloning `self`: it has the same span, and its
    /// token is a clone of this one's.
    pub open spec fn cloned_to(self, c: S<T>) -> bool where T: Clone {
        c.span == self.span && cloned::<T>(self.tok, c.tok)
    }
}

impl<T: Clone> Clone for S<T> {
    fn clone(&self) -> (r: Self)
        ensures
            self.cloned_to(r),
    {
        S { span: self.span, tok: self.tok.clone() }
    }
}

impl<T: Copy> Copy for S<T> {
}

} // verus!
