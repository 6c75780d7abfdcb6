//! The text buffer: an immutable, shared, code-point-indexed view of the
//! source text.
use crate::span::Span;
use std::sync::Arc;
use vstd::prelude::*;
use vstd::std_specs::cmp::PartialEqSpecImpl;

verus! {

/// `String::push` appends one code point to the end of the string.
pub assume_specification[ String::push ](s: &mut String, ch: char)
    ensures
        final(s)@ == old(s)@.push(ch),
;

/// The source text as a sequence of code points.  The storage is shared:
/// cloning a buffer copies a handle, not the text.
#[derive(Debug)]
pub struct Chars(Arc<Vec<char>>);

impl View for Chars {
    type V = Seq<char>;

    closed spec fn view(&self) -> Seq<char> {
        self.0@
    }
}

impl Chars {
    /// Decomposes `s` into its code points.
    pub fn new(s: &str) -> (r: Chars)
        ensures
            r@ == s@,
    {
        let mut v: Vec<char> = Vec::new();
        for c in it: s.chars()
            invariant
                it.seq() == s@,
                v@ == it.seq().take(it.index()),
        {
            v.push(c);
        }
        Chars(Arc::new(v))
    }

    /// Number of code points in the buffer.
    pub fn len(&self) -> (n: usize)
        ensures
            n == self@.len(),
    {
        self.0.len()
    }

    /// The code point at index `i`.
    pub fn get(&self, i: usize) -> (c: char)
        requires
            i < self@.len(),
        ensures
            c == self@[i as int],
    {
        self.0[i]
    }

    /// The text covered by `span`, or `None` when the span reaches past the
    /// end of the buffer.  An empty span inside the buffer gives the empty
    /// string.
    pub fn get_string(&self, span: Span) -> (r: Option<String>)
        ensures
            r is None <==> span@.end > self@.len(),
            r matches Some(s) ==> s@ == self@.subrange(span@.start as int, span@.end as int),
            r matches Some(s) ==> (span@.start == span@.end ==> s@ == Seq::<char>::empty()),
    {
        let start: usize = span.start();
        let end: usize = span.end();
        if end > self.len() {
            None
        } else {
            let mut s = String::new();
            let mut i: usize = start;
            while i < end
                invariant
                    start <= i <= end <= self@.len(),
                    s@ == self@.subrange(start as int, i as int),
                decreases end - i,
            {
                s.push(self.get(i));
                i = i + 1;
                assert(self@.subrange(start as int, i as int) == self@.subrange(
                    start as int,
                    i - 1,
                ).push(self@[i - 1]));
            }
            Some(s)
        }
    }
}

impl Clone for Chars {
    /// A second handle on the same text.
    fn clone(&self) -> (r: Self)
        ensures
            r@ == self@,
    {
        Chars(self.0.clone())
    }
}

impl core::ops::Deref for Chars {
    type Target = [char];

    fn deref(&self) -> (r: &[char])
        ensures
            r@ == self@,
    {
        self.0.as_slice()
    }
}

impl PartialEq<Chars> for Chars {
    /// Two buffers are equal when they hold the same code points.
    fn eq(&self, other: &Chars) -> (r: bool) {
        let n: usize = self.len();
        if n != other.len() {
            return false;
        }
        let mut i: usize = 0;
        while i < n
            invariant
                n == self@.len(),
                n == other@.len(),
                i <= n,
                self@.take(i as int) == other@.take(i as int),
            decreases n - i,
        {
            if self.get(i) != other.get(i) {
                return false;
            }
            i = i + 1;
        }
        assert(self@.take(n as int) == self@);
        assert(other@.take(n as int) == other@);
        true
    }
}

impl PartialEqSpecImpl<Chars> for Chars {
    open spec fn obeys_eq_spec() -> bool {
        true
    }

    open spec fn eq_spec(&self, other: &Chars) -> bool {
        self@ == other@
    }
}

impl Eq for Chars {
}

impl PartialEq<str> for Chars {
    /// A buffer equals a string slice when it holds the slice's code points.
    fn eq(&self, other: &str) -> (r: bool) {
        let other = Chars::new(other);
        *self == other
    }
}

impl PartialEqSpecImpl<str> for Chars {
    open spec fn obeys_eq_spec() -> bool {
        true
    }

    open spec fn eq_spec(&self, other: &str) -> bool {
        self@ == other@
    }
}

impl<'a> PartialEq<&'a str> for Chars {
    fn eq(&self, other: &&'a str) -> (r: bool) {
        *self == **other
    }
}

impl<'a> PartialEqSpecImpl<&'a str> for Chars {
    open spec fn obeys_eq_spec() -> bool {
        true
    }

    open spec fn eq_spec(&self, other: &&'a str) -> bool {
        self@ == other@
    }
}

impl PartialEq<String> for Chars {
    fn eq(&self, other: &String) -> (r: bool) {
        *self == *other.as_str()
    }
}

impl PartialEqSpecImpl<String> for Chars {
    open spec fn obeys_eq_spec() -> bool {
        true
    }

    open spec fn eq_spec(&self, other: &String) -> bool {
        self@ == other@
    }
}

} // verus!
