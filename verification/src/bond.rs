//! Bonds: undirected edges between two different atoms of a molecule.

use vstd::prelude::*;
use vstd::std_specs::cmp::PartialEqSpec;

verus! {

/// The two indices `a` and `b` as an unordered pair: the lesser first.
pub open spec fn unordered_pair(a: int, b: int) -> (int, int) {
    if a <= b {
        (a, b)
    } else {
        (b, a)
    }
}

/// A bond between the atoms at two different indices of a molecule's atom
/// sequence. The bond has no direction: it is held with the lesser index
/// first, whichever way round it was made, so that bonds made either way
/// round are equal and hash alike.
#[derive(Clone, Copy, Debug, Hash)]
pub struct Bond {
    i: usize,
    j: usize,
}

impl View for Bond {
    type V = (int, int);

    /// The two atom indices, the lesser first.
    closed spec fn view(&self) -> (int, int) {
        (self.i as int, self.j as int)
    }
}

impl Bond {
    /// A bond joins two different atoms and holds the lesser index first.
    #[verifier::type_invariant]
    pub closed spec fn is_normal(self) -> bool {
        self.i < self.j
    }

    /// What `is_normal` says, over the view.
    pub proof fn lemma_is_normal(self)
        ensures
            self.is_normal() <==> self@.0 < self@.1,
            0 <= self@.0 <= usize::MAX,
            0 <= self@.1 <= usize::MAX,
    {
    }

    /// Bonds with the same view are the same bond.
    pub proof fn lemma_view_injective(self, other: Bond)
        requires
            self@ == other@,
        ensures
            self == other,
    {
    }

    /// The bond between atoms `a` and `b`, or `None` when `a == b`: no atom
    /// is bonded to itself.
    pub fn new(a: usize, b: usize) -> (r: Option<Bond>)
        ensures
            a == b <==> r is None,
            r matches Some(bond) ==> bond@ == unordered_pair(a as int, b as int) && bond.is_normal(),
    {
        if a < b {
            Some(Bond { i: a, j: b })
        } else if b < a {
            Some(Bond { i: b, j: a })
        } else {
            None
        }
    }

    /// The lesser of the two atom indices.
    pub fn i(&self) -> (r: usize)
        ensures
            r == self@.0,
            self@.0 < self@.1,
    {
        proof {
            use_type_invariant(self);
        }
        self.i
    }

    /// The greater of the two atom indices.
    pub fn j(&self) -> (r: usize)
        ensures
            r == self@.1,
            self@.0 < self@.1,
    {
        proof {
            use_type_invariant(self);
        }
        self.j
    }
}

impl PartialEq for Bond {
    /// Whether two bonds join the same two atoms, in either order.
    fn eq(&self, other: &Bond) -> (r: bool) {
        (self.i == other.i && self.j == other.j) || (self.i == other.j && self.j == other.i)
    }
}

impl Eq for Bond {

}

impl vstd::std_specs::cmp::PartialEqSpecImpl for Bond {
    open spec fn obeys_eq_spec() -> bool {
        true
    }

    open spec fn eq_spec(&self, other: &Bond) -> bool {
        self@ == other@ || (self@.0 == other@.1 && self@.1 == other@.0)
    }
}

/// A bond made from `a` to `b` and one made from `b` to `a` are one and the
/// same: equal as values, and equal under `==`.
pub proof fn lemma_bond_is_symmetric(a: int, b: int, forth: Bond, back: Bond)
    requires
        forth@ == unordered_pair(a, b),
        back@ == unordered_pair(b, a),
    ensures
        forth == back,
        forth.eq_spec(&back),
{
    forth.lemma_view_injective(back);
}

/// Between normal bonds, `==` holds exactly when the views agree.
pub proof fn lemma_eq_is_view_equality(p: Bond, q: Bond)
    requires
        p.is_normal(),
        q.is_normal(),
    ensures
        p.eq_spec(&q) <==> p@ == q@,
{
}

} // verus!
