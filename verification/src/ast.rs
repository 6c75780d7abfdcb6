//! The syntax node wrapper that grammar code builds trees out of.
use crate::node_id::NodeId;
use crate::span::Span;
use core::hash::{Hash, Hasher};
use vstd::prelude::*;
use vstd::std_specs::cmp::PartialEqSpec;
use vstd::std_specs::cmp::PartialEqSpecImpl;

verus! {

/// A parsed value together with its identity and the part of the source text
/// it was parsed from.  The identity and the span are metadata: two nodes are
/// equal when their data are equal, and a node hashes as its data does.
#[derive(Debug)]
pub struct N<T> {
    pub span: Span,
    pub id: NodeId,
    pub data: T,
}

impl<T> N<T> {
    /// `c` may be the result of cloning `self`: same span, same identity, and
    /// data that is a clone of this node's data.
    pub open spec fn cloned_to(self, c: N<T>) -> bool where T: Clone {
        c.span == self.span && c.id == self.id && cloned::<T>(self.data, c.data)
    }
}

impl<T: Clone> Clone for N<T> {
    fn clone(&self) -> (r: Self)
        ensures
            self.cloned_to(r),
    {
        N { span: self.span, id: self.id, data: self.data.clone() }
    }
}

impl<T> core::ops::Deref for N<T> {
    type Target = T;

    fn deref(&self) -> (r: &T)
        ensures
            *r == self.data,
    {
        &self.data
    }
}

impl<T> core::ops::DerefMut for N<T> {
    fn deref_mut(&mut self) -> (r: &mut T)
        ensures
            *r == old(self).data,
            *final(self) == (N { span: old(self).span, id: old(self).id, data: *final(r) }),
    {
        &mut self.data
    }
}

impl<T: PartialEq> PartialEq for N<T> {
    fn eq(&self, other: &Self) -> (r: bool) {
        self.data == other.data
    }
}

impl<T: PartialEq> PartialEqSpecImpl for N<T> {
    open spec fn obeys_eq_spec() -> bool {
        T::obeys_eq_spec()
    }

    open spec fn eq_spec(&self, other: &Self) -> bool {
        self.data.eq_spec(&other.data)
    }
}

impl<T: Eq> Eq for N<T> {
}

impl<T: Hash> Hash for N<T> {
    /// Feeds the node's data, and nothing else, to `state` through
    /// `Hash::hash`; nothing is claimed of the hasher afterwards.
    #[verifier::external_body]
    fn hash<H: Hasher>(&self, state: &mut H) {
        self.data.hash(state)
    }
}

} // verus!
