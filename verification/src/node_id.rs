//! Node identities and the generator that hands them out.
use vstd::prelude::*;

verus! {

/// The identity of a syntax node.  Identities are handed out by an
/// [`IdGen`], in increasing order, and are never reused.
#[derive(Debug, Clone, Copy, Hash, PartialEq, Eq, Structural)]
pub struct NodeId(usize);

impl View for NodeId {
    type V = nat;

    closed spec fn view(&self) -> nat {
        self.0 as nat
    }
}

impl NodeId {
    /// The identity as a number.
    pub fn get(&self) -> (r: usize)
        ensures
            r == self@,
    {
        self.0
    }

    /// Two identities with the same number are the same identity.
    pub proof fn lemma_view_injective(a: NodeId, b: NodeId)
        requires
            a@ == b@,
        ensures
            a == b,
    {
    }
}

/// The number carried by the identity that a generator hands out as its
/// `rank`-th one, counting from zero.  The counter lives in a machine word
/// and starts over once every word value has been used.
pub open spec fn id_at(rank: nat) -> nat {
    if rank <= usize::MAX {
        rank
    } else {
        rank % (usize::MAX as nat + 1)
    }
}

/// The identity of every rank is its remainder by the number of machine
/// words.
pub proof fn lemma_id_at_is_remainder(rank: nat)
    ensures
        id_at(rank) == rank % (usize::MAX as nat + 1),
{
    if rank <= usize::MAX {
        vstd::arithmetic::div_mod::lemma_small_mod(rank, (usize::MAX as nat + 1) as nat);
    }
}

/// Within the first `usize::MAX + 1` allocations the identity is the rank
/// itself, so identities strictly increase in allocation order.
pub proof fn lemma_ids_increase(first: nat, second: nat)
    requires
        first < second <= usize::MAX,
    ensures
        id_at(first) == first,
        id_at(second) == second,
        id_at(first) < id_at(second),
{
}

/// Two different allocations that are at most `usize::MAX` allocations apart
/// carry different identities.
pub proof fn lemma_ids_distinct(first: nat, second: nat)
    requires
        first < second,
        second - first <= usize::MAX,
    ensures
        id_at(first) != id_at(second),
{
    let m = usize::MAX as int + 1;
    lemma_id_at_is_remainder(first);
    lemma_id_at_is_remainder(second);
    if id_at(first) == id_at(second) {
        vstd::arithmetic::div_mod::lemma_fundamental_div_mod(first as int, m);
        vstd::arithmetic::div_mod::lemma_fundamental_div_mod(second as int, m);
        let q1 = first as int / m;
        let q2 = second as int / m;
        assert(q2 - q1 >= 1 ==> m * (q2 - q1) >= m) by (nonlinear_arith)
            requires
                m > 0,
        ;
        assert(q2 - q1 <= 0 ==> m * (q2 - q1) <= 0) by (nonlinear_arith)
            requires
                m > 0,
        ;
    }
}

/// A source of node identities: a counter that is explicitly constructed and
/// handed to whoever allocates nodes.
pub struct IdGen {
    next: usize,
    issued: Ghost<nat>,
}

impl View for IdGen {
    type V = nat;

    /// How many identities the generator has handed out so far.
    closed spec fn view(&self) -> nat {
        self.issued@
    }
}

impl IdGen {
    #[verifier::type_invariant]
    spec fn counter_matches(&self) -> bool {
        self.next as nat == id_at(self.issued@)
    }

    /// A generator that has handed out nothing yet.
    pub fn new() -> (g: IdGen)
        ensures
            g@ == 0,
    {
        IdGen { next: 0, issued: Ghost(0) }
    }

    /// Hands out the next identity.
    pub fn next(&mut self) -> (id: NodeId)
        ensures
            final(self)@ == old(self)@ + 1,
            id@ == id_at(old(self)@),
        no_unwind
    {
        proof {
            use_type_invariant(&*self);
        }
        let id: usize = self.next;
        let ghost rank = self.issued@;
        proof {
            let m = usize::MAX as int + 1;
            lemma_id_at_is_remainder(rank);
            lemma_id_at_is_remainder(rank + 1);
            vstd::arithmetic::div_mod::lemma_fundamental_div_mod(rank as int, m);
            vstd::arithmetic::div_mod::lemma_fundamental_div_mod(rank as int + 1, m);
            if id == usize::MAX {
                vstd::arithmetic::div_mod::lemma_mod_multiples_vanish(rank as int / m + 1, 0, m);
                assert(rank + 1 == m * (rank as int / m + 1)) by (nonlinear_arith)
                    requires
                        rank == m * (rank as int / m) + (m - 1),
                ;
            } else {
                vstd::arithmetic::div_mod::lemma_mod_multiples_vanish(rank as int / m, id + 1, m);
                vstd::arithmetic::div_mod::lemma_small_mod((id + 1) as nat, m as nat);
            }
        }
        let next: usize = if id == usize::MAX { 0 } else { id + 1 };
        *self = IdGen { next, issued: Ghost(rank + 1) };
        NodeId(id)
    }
}

} // verus!
