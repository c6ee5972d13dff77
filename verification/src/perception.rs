//! Bond perception: which atoms each atom proposes to bond with, and the
//! set of bonds that results.
//!
//! Every atom ranks its neighbours by distance, nearest first, and proposes
//! a bond to as many of the nearest as its maximal valence allows. A pair of
//! atoms is bonded as soon as one of the two proposes the other: the rule is
//! local to each atom, so an atom may end up with more bonds than its own
//! valence where its neighbours propose it.

use vstd::prelude::*;
use vstd::relations::{sorted_by, total_ordering};
use vstd::seq_lib::{lemma_sorted_unique, to_multiset_build, to_multiset_insert};
use crate::atom::{lemma_never_bonded_to_itself, Atom, Neighbour};
use crate::bond::{unordered_pair, Bond};

verus! {

/// The ranking of neighbours: by distance, and at equal distances by index
/// in the atom sequence.
pub open spec fn ranks_no_later(a: Neighbour, b: Neighbour) -> bool {
    a.distance_squared < b.distance_squared || (a.distance_squared == b.distance_squared && a.idx
        <= b.idx)
}

/// `ranks_no_later` as a relation to sort by.
pub open spec fn neighbour_order() -> spec_fn(Neighbour, Neighbour) -> bool {
    |a: Neighbour, b: Neighbour| ranks_no_later(a, b)
}

/// The ranking is a total order: of two different neighbours exactly one
/// ranks before the other.
pub proof fn lemma_neighbour_order_is_total()
    ensures
        total_ordering(neighbour_order()),
{
    let order = neighbour_order();
    assert forall|x: Neighbour, y: Neighbour| #[trigger] order(x, y) && #[trigger] order(y, x) implies x
        == y by {}
    assert forall|x: Neighbour, y: Neighbour, z: Neighbour| #[trigger]
        order(x, y) && #[trigger] order(y, z) implies order(x, z) by {}
}

/// Whether `a` ranks no later than `b`.
pub fn ranks_no_later_than(a: &Neighbour, b: &Neighbour) -> (r: bool)
    ensures
        r == ranks_no_later(*a, *b),
{
    a.distance_squared < b.distance_squared || (a.distance_squared == b.distance_squared && a.idx
        <= b.idx)
}

/// Sorts neighbours by ascending distance, those at equal distances by
/// ascending index.
pub fn sort_neighbours(neighbours: &mut Vec<Neighbour>)
    ensures
        final(neighbours)@ == old(neighbours)@.sort_by(neighbour_order()),
        sorted_by(final(neighbours)@, neighbour_order()),
        final(neighbours)@.to_multiset() == old(neighbours)@.to_multiset(),
{
    let ghost before = neighbours@;
    let ghost order = neighbour_order();
    let mut sorted: Vec<Neighbour> = Vec::new();
    let mut k: usize = 0;
    proof {
        lemma_neighbour_order_is_total();
        assert(before.take(0) =~= sorted@);
    }
    while k < neighbours.len()
        invariant
            0 <= k <= neighbours.len(),
            neighbours@ == before,
            order == neighbour_order(),
            total_ordering(order),
            sorted_by(sorted@, order),
            sorted@.len() == k,
            sorted@.to_multiset() == before.take(k as int).to_multiset(),
        decreases neighbours.len() - k,
    {
        let next: Neighbour = neighbours[k];
        let mut at: usize = 0;
        while at < sorted.len() && ranks_no_later_than(&sorted[at], &next)
            invariant
                0 <= at <= sorted.len(),
                forall|q: int| 0 <= q < at ==> ranks_no_later(#[trigger] sorted@[q], next),
            decreases sorted.len() - at,
        {
            at = at + 1;
        }
        let ghost shorter = sorted@;
        sorted.insert(at, next);
        proof {
            let longer = sorted@;
            assert forall|p: int, q: int| 0 <= p < q < longer.len() implies #[trigger] order(
                longer[p],
                longer[q],
            ) by {
                if q < at {
                    assert(order(shorter[p], shorter[q]));
                } else if q == at {
                    assert(ranks_no_later(shorter[p], next));
                } else if p < at {
                    assert(order(shorter[p], shorter[q - 1]));
                } else if p == at {
                    assert(!ranks_no_later(shorter[at as int], next));
                    if q - 1 > at {
                        assert(order(shorter[at as int], shorter[q - 1]));
                    }
                } else {
                    assert(order(shorter[p - 1], shorter[q - 1]));
                }
            }
            to_multiset_insert(shorter, at as int, next);
            before.lemma_take_succ_push(k as int);
            to_multiset_build(before.take(k as int), next);
        }
        k = k + 1;
    }
    proof {
        before.lemma_take_len();
        before.lemma_sort_by_ensures(order);
        lemma_sorted_unique(sorted@, before.sort_by(order), order);
    }
    *neighbours = sorted;
}

/// The neighbours of atom `i` of `atoms`, nearest first.
pub open spec fn spec_ranked_neighbours(atoms: Seq<Atom>, i: int) -> Seq<Neighbour> {
    atoms[i].spec_neighbours(atoms).sort_by(neighbour_order())
}

/// The ranked neighbours are the neighbours in the one order in which each
/// ranks no later than the next: any sequence that holds the same
/// neighbours, as often, and is in that order is the ranking.
pub proof fn lemma_ranking_is_sorted_neighbours(atoms: Seq<Atom>, i: int, sorted: Seq<Neighbour>)
    requires
        sorted_by(sorted, neighbour_order()),
        sorted.to_multiset() == atoms[i].spec_neighbours(atoms).to_multiset(),
    ensures
        spec_ranked_neighbours(atoms, i) == sorted,
        sorted_by(spec_ranked_neighbours(atoms, i), neighbour_order()),
{
    lemma_neighbour_order_is_total();
    atoms[i].spec_neighbours(atoms).lemma_sort_by_ensures(neighbour_order());
    lemma_sorted_unique(sorted, spec_ranked_neighbours(atoms, i), neighbour_order());
}

/// The neighbours that atom `i` of `atoms` proposes a bond to: the nearest
/// ones, as many as its maximal valence allows, or all of them where it has
/// fewer.
pub open spec fn spec_proposals(atoms: Seq<Atom>, i: int) -> Seq<Neighbour> {
    let ranked = spec_ranked_neighbours(atoms, i);
    let valence = atoms[i].spec_maximal_valence();
    if valence < ranked.len() {
        ranked.take(valence)
    } else {
        ranked
    }
}

/// The neighbours that the atom at index `i` proposes a bond to, nearest
/// first.
pub fn proposals(atoms: &Vec<Atom>, i: usize) -> (proposed: Vec<Neighbour>)
    requires
        i < atoms.len(),
    ensures
        proposed@ == spec_proposals(atoms@, i as int),
        proposed@.len() <= atoms@[i as int].spec_maximal_valence(),
{
    let atom = &atoms[i];
    let mut neighbours = atom.neighbours_among(atoms);
    sort_neighbours(&mut neighbours);
    let valence: usize = atom.maximal_valence();
    if valence < neighbours.len() {
        neighbours.truncate(valence);
    }
    neighbours
}

/// Whether `n` is a neighbour of atom `i`: it names an atom of the sequence
/// that atom `i` could be bonded to, with its index and the square of its
/// distance from atom `i`.
pub open spec fn is_neighbour_of(atoms: Seq<Atom>, i: int, n: Neighbour) -> bool {
    &&& 0 <= n.idx < atoms.len()
    &&& n == atoms[i].spec_neighbour(atoms, n.idx as int)
    &&& atoms[i].spec_could_be_bonded_to(atoms[n.idx as int])
}

/// What is left of a sequence without duplicates has no duplicates.
proof fn lemma_filter_keeps_distinct<A>(s: Seq<A>, kept: spec_fn(A) -> bool)
    requires
        s.no_duplicates(),
    ensures
        s.filter(kept).no_duplicates(),
    decreases s.len(),
{
    reveal(Seq::filter);
    if s.len() > 0 {
        let most = s.drop_last();
        lemma_filter_keeps_distinct(most, kept);
        if kept(s.last()) {
            if most.filter(kept).contains(s.last()) {
                most.lemma_filter_contains_rev(kept, s.last());
                let at = choose|at: int| 0 <= at < most.len() && most[at] == s.last();
                assert(s[at] == s[s.len() - 1]);
            }
        }
    }
}

/// The ranking of the neighbours of atom `i`: it is in order, it holds no
/// neighbour twice, and it holds the atoms that atom `i` could be bonded to
/// and no others.
proof fn lemma_ranking(atoms: Seq<Atom>, i: int)
    requires
        0 <= i < atoms.len() <= usize::MAX,
    ensures
        sorted_by(spec_ranked_neighbours(atoms, i), neighbour_order()),
        spec_ranked_neighbours(atoms, i).no_duplicates(),
        forall|q: int|
            #![trigger spec_ranked_neighbours(atoms, i)[q]]
            0 <= q < spec_ranked_neighbours(atoms, i).len() ==> is_neighbour_of(
                atoms,
                i,
                spec_ranked_neighbours(atoms, i)[q],
            ),
        forall|k: int|
            0 <= k < atoms.len() && atoms[i].spec_could_be_bonded_to(atoms[k])
                ==> spec_ranked_neighbours(atoms, i).contains(
                #[trigger] atoms[i].spec_neighbour(atoms, k),
            ),
{
    broadcast use vstd::seq_lib::group_to_multiset_ensures;

    let me = atoms[i];
    let all = me.spec_candidates(atoms);
    let wanted = me.spec_is_neighbour(atoms);
    let near = me.spec_neighbours(atoms);
    let ranked = spec_ranked_neighbours(atoms, i);
    lemma_neighbour_order_is_total();
    near.lemma_sort_by_ensures(neighbour_order());
    assert(all.no_duplicates()) by {
        assert forall|a: int, b: int| 0 <= a < all.len() && 0 <= b < all.len() && a != b implies all[a]
            != all[b] by {
            assert(all[a].idx == a && all[b].idx == b);
        }
    }
    lemma_filter_keeps_distinct(all, wanted);
    near.lemma_multiset_has_no_duplicates();
    ranked.lemma_multiset_has_no_duplicates_conv();
    assert forall|q: int| #![trigger ranked[q]] 0 <= q < ranked.len() implies is_neighbour_of(
        atoms,
        i,
        ranked[q],
    ) by {
        let n = ranked[q];
        assert(ranked.contains(n));
        assert(near.contains(n));
        let at = choose|at: int| 0 <= at < near.len() && near[at] == n;
        all.lemma_filter_pred(wanted, at);
        all.lemma_filter_contains_rev(wanted, n);
        let m = choose|m: int| 0 <= m < all.len() && all[m] == n;
        assert(n == me.spec_neighbour(atoms, m));
    }
    assert forall|k: int|
        0 <= k < atoms.len() && me.spec_could_be_bonded_to(atoms[k]) implies ranked.contains(
        #[trigger] me.spec_neighbour(atoms, k),
    ) by {
        assert(all[k] == me.spec_neighbour(atoms, k));
        assert(wanted(all[k]));
        all.lemma_filter_contains(wanted, k);
        assert(near.to_multiset().contains(all[k]));
        assert(ranked.to_multiset().contains(all[k]));
    }
}

/// What holds of every proposal of atom `i`: it names another atom of the
/// sequence, one that atom `i` could be bonded to, and carries the square of
/// the distance between the two.
pub proof fn lemma_proposal_is_neighbour(atoms: Seq<Atom>, i: int, k: int)
    requires
        0 <= i < atoms.len() <= usize::MAX,
        0 <= k < spec_proposals(atoms, i).len(),
    ensures
        is_neighbour_of(atoms, i, spec_proposals(atoms, i)[k]),
        spec_proposals(atoms, i)[k].idx != i,
        spec_proposals(atoms, i)[k].distance_squared == atoms[i].spec_distance_squared(
            atoms[spec_proposals(atoms, i)[k].idx as int],
        ),
{
    let n = spec_proposals(atoms, i)[k];
    lemma_ranking(atoms, i);
    assert(spec_ranked_neighbours(atoms, i)[k] == n);
    lemma_never_bonded_to_itself(atoms[i]);
    atoms[i].spec_position().lemma_distance_squared_bounds(atoms[n.idx as int].spec_position());
}

/// Whether the `k`-th proposal of atom `a` is atom `b`.
pub open spec fn proposal_at(atoms: Seq<Atom>, a: int, k: int, b: int) -> bool {
    &&& 0 <= a < atoms.len()
    &&& 0 <= k < spec_proposals(atoms, a).len()
    &&& spec_proposals(atoms, a)[k].idx == b
}

/// Whether atom `a` proposes a bond to atom `b`.
pub open spec fn proposes(atoms: Seq<Atom>, a: int, b: int) -> bool {
    exists|k: int| proposal_at(atoms, a, k, b)
}

/// Whether atoms `a` and `b` are bonded: one of the two proposes the other.
pub open spec fn spec_bonded(atoms: Seq<Atom>, a: int, b: int) -> bool {
    proposes(atoms, a, b) || proposes(atoms, b, a)
}

/// The bonds of a molecule with the given atoms, each as a pair of atom
/// indices with the lesser first.
pub open spec fn perceived_bonds(atoms: Seq<Atom>) -> Set<(int, int)> {
    Set::new(|pair: (int, int)| pair.0 < pair.1 && spec_bonded(atoms, pair.0, pair.1))
}

/// Every bond joins two different atoms of the sequence.
pub proof fn lemma_bonds_are_in_range(atoms: Seq<Atom>)
    requires
        atoms.len() <= usize::MAX,
    ensures
        forall|pair: (int, int)| #[trigger]
            perceived_bonds(atoms).contains(pair) ==> 0 <= pair.0 < pair.1 < atoms.len(),
{
    assert forall|pair: (int, int)| #[trigger] perceived_bonds(atoms).contains(pair) implies 0
        <= pair.0 < pair.1 < atoms.len() by {
        if proposes(atoms, pair.0, pair.1) {
            let k = choose|k: int| proposal_at(atoms, pair.0, k, pair.1);
            lemma_proposal_is_neighbour(atoms, pair.0, k);
        } else {
            let k = choose|k: int| proposal_at(atoms, pair.1, k, pair.0);
            lemma_proposal_is_neighbour(atoms, pair.1, k);
        }
    }
}

/// Whether a pair of atoms is bonded does not depend on the order in which
/// the two are named, and the set of bonds holds each bond one way round
/// only: lesser index first.
pub proof fn lemma_bonds_are_undirected(atoms: Seq<Atom>, a: int, b: int)
    ensures
        spec_bonded(atoms, a, b) == spec_bonded(atoms, b, a),
        unordered_pair(a, b) == unordered_pair(b, a),
        !(perceived_bonds(atoms).contains((a, b)) && perceived_bonds(atoms).contains((b, a))),
        a != b ==> (perceived_bonds(atoms).contains(unordered_pair(a, b)) <==> spec_bonded(
            atoms,
            a,
            b,
        )),
{
}

/// No atom proposes a bond to itself, so no atom is bonded to itself.
pub proof fn lemma_no_self_bond(atoms: Seq<Atom>, a: int)
    requires
        atoms.len() <= usize::MAX,
    ensures
        !proposes(atoms, a, a),
        !spec_bonded(atoms, a, a),
        !perceived_bonds(atoms).contains((a, a)),
{
    if proposes(atoms, a, a) {
        let k = choose|k: int| proposal_at(atoms, a, k, a);
        lemma_proposal_is_neighbour(atoms, a, k);
    }
}

/// The bonds that atom `i` itself proposes, as pairs of atom indices with
/// the lesser first.
pub open spec fn own_bonds(atoms: Seq<Atom>, i: int) -> Set<(int, int)> {
    spec_proposals(atoms, i).map_values(|n: Neighbour| unordered_pair(i, n.idx as int)).to_set()
}

/// An atom proposes no more bonds than its maximal valence. The bonds it
/// proposes are all bonds of the molecule; the molecule may hold further
/// bonds of the atom, proposed by its neighbours.
pub proof fn lemma_valence_is_respected(atoms: Seq<Atom>, i: int)
    requires
        0 <= i < atoms.len(),
    ensures
        spec_proposals(atoms, i).len() <= atoms[i].spec_maximal_valence(),
        own_bonds(atoms, i).finite(),
        own_bonds(atoms, i).len() <= atoms[i].spec_maximal_valence(),
        forall|j: int|
            proposes(atoms, i, j) ==> #[trigger] own_bonds(atoms, i).contains(
                unordered_pair(i, j),
            ),
        atoms.len() <= usize::MAX ==> own_bonds(atoms, i).subset_of(perceived_bonds(atoms)),
{
    let proposed = spec_proposals(atoms, i);
    let pairs = proposed.map_values(|n: Neighbour| unordered_pair(i, n.idx as int));
    pairs.lemma_cardinality_of_set();
    vstd::seq_lib::seq_to_set_is_finite(pairs);
    assert forall|j: int| proposes(atoms, i, j) implies #[trigger] own_bonds(atoms, i).contains(
        unordered_pair(i, j),
    ) by {
        let k = choose|k: int| proposal_at(atoms, i, k, j);
        assert(pairs[k] == unordered_pair(i, j));
    }
    if atoms.len() <= usize::MAX {
        assert forall|pair: (int, int)| own_bonds(atoms, i).contains(pair) implies perceived_bonds(
            atoms,
        ).contains(pair) by {
            let k = choose|k: int| 0 <= k < pairs.len() && pairs[k] == pair;
            let j = proposed[k].idx as int;
            lemma_proposal_is_neighbour(atoms, i, k);
            assert(proposal_at(atoms, i, k, j));
            lemma_bonds_are_undirected(atoms, i, j);
        }
    }
}

/// An atom whose maximal valence is zero proposes no bond at all.
pub proof fn lemma_zero_valence_proposes_nothing(atoms: Seq<Atom>, i: int)
    requires
        0 <= i < atoms.len(),
        atoms[i].spec_maximal_valence() == 0,
    ensures
        spec_proposals(atoms, i).len() == 0,
        forall|j: int| !proposes(atoms, i, j),
        own_bonds(atoms, i) == Set::<(int, int)>::empty(),
{
    assert(own_bonds(atoms, i) =~= Set::<(int, int)>::empty());
}

/// The proposals of an atom come nearest first, and a neighbour that is not
/// proposed ranks after every one that is: then the atom has proposed as
/// many as its maximal valence.
pub proof fn lemma_unproposed_rank_later(atoms: Seq<Atom>, i: int, k: int, other: Neighbour)
    requires
        0 <= i < atoms.len(),
        0 <= k < spec_proposals(atoms, i).len(),
        atoms[i].spec_neighbours(atoms).contains(other),
        !spec_proposals(atoms, i).contains(other),
    ensures
        sorted_by(spec_proposals(atoms, i), neighbour_order()),
        ranks_no_later(spec_proposals(atoms, i)[k], other),
        spec_proposals(atoms, i).len() == atoms[i].spec_maximal_valence(),
{
    broadcast use vstd::seq_lib::group_to_multiset_ensures;

    let near = atoms[i].spec_neighbours(atoms);
    let ranked = spec_ranked_neighbours(atoms, i);
    let proposed = spec_proposals(atoms, i);
    lemma_neighbour_order_is_total();
    near.lemma_sort_by_ensures(neighbour_order());
    assert(near.to_multiset().contains(other));
    assert(ranked.to_multiset().contains(other));
    assert(ranked.contains(other));
    let at = choose|at: int| 0 <= at < ranked.len() && ranked[at] == other;
    if at < proposed.len() {
        assert(proposed[at] == other);
    }
    assert(neighbour_order()(ranked[k], ranked[at]));
}

/// Whether atom `k` ranks before atom `j` as a neighbour of atom `i`: it is
/// nearer to atom `i`, or as near and earlier in the sequence.
pub open spec fn ranks_before(atoms: Seq<Atom>, i: int, k: int, j: int) -> bool {
    let to_k = atoms[i].spec_distance_squared(atoms[k]);
    let to_j = atoms[i].spec_distance_squared(atoms[j]);
    to_k < to_j || (to_k == to_j && k < j)
}

/// The neighbours of atom `i` that rank before atom `j`.
pub open spec fn nearer_neighbours(atoms: Seq<Atom>, i: int, j: int) -> Set<int> {
    Set::new(
        |k: int|
            0 <= k < atoms.len() && atoms[i].spec_could_be_bonded_to(atoms[k]) && ranks_before(
                atoms,
                i,
                k,
                j,
            ),
    )
}

/// An atom proposes its nearest neighbours, and only them: atom `i` proposes
/// a bond to atom `j` exactly when it could be bonded to atom `j` and fewer
/// of its neighbours rank before atom `j` than its maximal valence.
pub proof fn lemma_proposes_the_nearest(atoms: Seq<Atom>, i: int, j: int)
    requires
        0 <= i < atoms.len() <= usize::MAX,
    ensures
        nearer_neighbours(atoms, i, j).finite(),
        proposes(atoms, i, j) <==> 0 <= j < atoms.len() && atoms[i].spec_could_be_bonded_to(
            atoms[j],
        ) && nearer_neighbours(atoms, i, j).len() < atoms[i].spec_maximal_valence(),
{
    let me = atoms[i];
    let ranked = spec_ranked_neighbours(atoms, i);
    let proposed = spec_proposals(atoms, i);
    let nearer = nearer_neighbours(atoms, i, j);
    lemma_ranking(atoms, i);
    if 0 <= j < atoms.len() && me.spec_could_be_bonded_to(atoms[j]) {
        let wanted = me.spec_neighbour(atoms, j);
        assert(ranked.contains(wanted));
        let p = choose|p: int| 0 <= p < ranked.len() && ranked[p] == wanted;
        let before = ranked.take(p).map_values(|n: Neighbour| n.idx as int);
        me.spec_position().lemma_distance_squared_bounds(atoms[j].spec_position());
        assert forall|a: int, b: int|
            0 <= a < before.len() && 0 <= b < before.len() && a != b implies before[a]
            != before[b] by {
            assert(ranked[a] != ranked[b]);
        }
        assert forall|k: int| before.to_set().contains(k) <==> nearer.contains(k) by {
            if before.to_set().contains(k) {
                let q = choose|q: int| 0 <= q < before.len() && before[q] == k;
                assert(ranked[q].idx == k);
                assert(ranked[q] != ranked[p]);
                assert(neighbour_order()(ranked[q], ranked[p]));
                me.spec_position().lemma_distance_squared_bounds(atoms[k].spec_position());
            }
            if nearer.contains(k) {
                me.spec_position().lemma_distance_squared_bounds(atoms[k].spec_position());
                let other = me.spec_neighbour(atoms, k);
                assert(ranked.contains(other));
                let q = choose|q: int| 0 <= q < ranked.len() && ranked[q] == other;
                if q > p {
                    assert(neighbour_order()(ranked[p], ranked[q]));
                }
                assert(q < p);
                assert(before[q] == k);
            }
        }
        assert(before.to_set() =~= nearer);
        vstd::seq_lib::seq_to_set_is_finite(before);
        before.unique_seq_to_set();
        assert(nearer.len() == p);
        if p < me.spec_maximal_valence() {
            assert(proposed[p] == wanted);
            assert(proposal_at(atoms, i, p, j));
        }
        if proposes(atoms, i, j) {
            let k = choose|k: int| proposal_at(atoms, i, k, j);
            assert(proposed[k] == ranked[k]);
            assert(ranked[k] == wanted);
        }
    } else {
        if proposes(atoms, i, j) {
            let k = choose|k: int| proposal_at(atoms, i, k, j);
            lemma_proposal_is_neighbour(atoms, i, k);
        }
        // whatever `j` is, the set lies within the indices of the ranking
        let every = ranked.map_values(|n: Neighbour| n.idx as int);
        vstd::seq_lib::seq_to_set_is_finite(every);
        assert forall|k: int| nearer.contains(k) implies every.to_set().contains(k) by {
            let other = me.spec_neighbour(atoms, k);
            assert(ranked.contains(other));
            let q = choose|q: int| 0 <= q < ranked.len() && ranked[q] == other;
            assert(every[q] == k);
        }
        vstd::set_lib::lemma_len_subset(nearer, every.to_set());
    }
}

/// Whether `bonds` holds the bond `pair` at index `k`.
pub open spec fn holds_at(bonds: Seq<Bond>, k: int, pair: (int, int)) -> bool {
    0 <= k < bonds.len() && bonds[k]@ == pair
}

/// The bonds of a list, as a set of index pairs.
pub open spec fn bond_set(bonds: Seq<Bond>) -> Set<(int, int)> {
    Set::new(|pair: (int, int)| exists|k: int| holds_at(bonds, k, pair))
}

/// Whether a list of bonds stands for a set: every bond joins two different
/// atoms, lesser index first, and no bond occurs twice.
pub open spec fn is_bond_list(bonds: Seq<Bond>) -> bool {
    &&& forall|k: int| 0 <= k < bonds.len() ==> (#[trigger] bonds[k]).is_normal()
    &&& forall|k: int, l: int|
        0 <= k < l < bonds.len() ==> #[trigger] bonds[k]@ != #[trigger] bonds[l]@
}

/// Adds `bond` to a list that stands for a set, unless it is there already.
fn insert_bond(bonds: &mut Vec<Bond>, bond: Bond)
    requires
        is_bond_list(old(bonds)@),
    ensures
        is_bond_list(final(bonds)@),
        bond_set(final(bonds)@) == bond_set(old(bonds)@).insert(bond@),
{
    proof {
        use_type_invariant(&bond);
    }
    let mut k: usize = 0;
    while k < bonds.len()
        invariant
            0 <= k <= bonds.len(),
            bonds@ == old(bonds)@,
            is_bond_list(bonds@),
            bond.is_normal(),
            forall|q: int| 0 <= q < k ==> #[trigger] bonds@[q]@ != bond@,
        decreases bonds.len() - k,
    {
        proof {
            crate::bond::lemma_eq_is_view_equality(bonds@[k as int], bond);
        }
        if bonds[k] == bond {
            assert(holds_at(bonds@, k as int, bond@));
            assert(bond_set(bonds@) =~= bond_set(bonds@).insert(bond@));
            return ;
        }
        k = k + 1;
    }
    bonds.push(bond);
    proof {
        let shorter = old(bonds)@;
        let longer = bonds@;
        assert forall|pair: (int, int)|
            bond_set(longer).contains(pair) <==> bond_set(shorter).insert(bond@).contains(
                pair,
            ) by {
            if bond_set(longer).contains(pair) {
                let at = choose|at: int| holds_at(longer, at, pair);
                if at < shorter.len() {
                    assert(holds_at(shorter, at, pair));
                }
            }
            if bond_set(shorter).contains(pair) {
                let at = choose|at: int| holds_at(shorter, at, pair);
                assert(holds_at(longer, at, pair));
            }
            if pair == bond@ {
                assert(holds_at(longer, shorter.len() as int, pair));
            }
        }
        assert(bond_set(longer) =~= bond_set(shorter).insert(bond@));
    }
}

/// Whether atom `a` proposes atom `b` in the part of the perception that is
/// over once the atoms before `rows` have made all of their proposals, and
/// atom `rows` its first `extra`.
spec fn proposed_by(atoms: Seq<Atom>, a: int, b: int, rows: int, extra: int) -> bool {
    exists|k: int| #[trigger] proposal_at(atoms, a, k, b) && (a < rows || (a == rows && k < extra))
}

/// The bonds that are there at that point.
spec fn perceived_so_far(atoms: Seq<Atom>, rows: int, extra: int) -> Set<(int, int)> {
    Set::new(
        |pair: (int, int)|
            pair.0 < pair.1 && (proposed_by(atoms, pair.0, pair.1, rows, extra) || proposed_by(
                atoms,
                pair.1,
                pair.0,
                rows,
                extra,
            )),
    )
}

/// One more proposal of atom `i` adds one bond.
proof fn lemma_next_proposal(atoms: Seq<Atom>, i: int, k: int)
    requires
        0 <= i < atoms.len(),
        0 <= k < spec_proposals(atoms, i).len(),
        spec_proposals(atoms, i)[k].idx != i,
    ensures
        perceived_so_far(atoms, i, k + 1) == perceived_so_far(atoms, i, k).insert(
            unordered_pair(i, spec_proposals(atoms, i)[k].idx as int),
        ),
{
    let j = spec_proposals(atoms, i)[k].idx as int;
    let here = unordered_pair(i, j);
    let smaller = perceived_so_far(atoms, i, k);
    let larger = perceived_so_far(atoms, i, k + 1);
    assert(proposal_at(atoms, i, k, j));
    assert forall|pair: (int, int)| larger.contains(pair) <==> smaller.insert(here).contains(
        pair,
    ) by {
        if larger.contains(pair) && pair != here {
            if proposed_by(atoms, pair.0, pair.1, i, k + 1) {
                let w = choose|w: int| #[trigger]
                    proposal_at(atoms, pair.0, w, pair.1) && (pair.0 < i || (pair.0 == i && w < k
                        + 1));
                assert(proposal_at(atoms, pair.0, w, pair.1) && (pair.0 < i || (pair.0 == i && w
                    < k)));
            } else {
                let w = choose|w: int| #[trigger]
                    proposal_at(atoms, pair.1, w, pair.0) && (pair.1 < i || (pair.1 == i && w < k
                        + 1));
                assert(proposal_at(atoms, pair.1, w, pair.0) && (pair.1 < i || (pair.1 == i && w
                    < k)));
            }
        }
        if smaller.contains(pair) {
            if proposed_by(atoms, pair.0, pair.1, i, k) {
                let w = choose|w: int| #[trigger]
                    proposal_at(atoms, pair.0, w, pair.1) && (pair.0 < i || (pair.0 == i && w < k));
                assert(proposal_at(atoms, pair.0, w, pair.1) && (pair.0 < i || (pair.0 == i && w
                    < k + 1)));
            } else {
                let w = choose|w: int| #[trigger]
                    proposal_at(atoms, pair.1, w, pair.0) && (pair.1 < i || (pair.1 == i && w < k));
                assert(proposal_at(atoms, pair.1, w, pair.0) && (pair.1 < i || (pair.1 == i && w
                    < k + 1)));
            }
        }
        if pair == here {
            if i < j {
                assert(proposed_by(atoms, pair.0, pair.1, i, k + 1));
            } else {
                assert(proposed_by(atoms, pair.1, pair.0, i, k + 1));
            }
        }
    }
    assert(larger =~= smaller.insert(here));
}

/// Once atom `i` has made all of its proposals, the next atom begins.
proof fn lemma_next_atom(atoms: Seq<Atom>, i: int)
    requires
        0 <= i < atoms.len(),
    ensures
        perceived_so_far(atoms, i, spec_proposals(atoms, i).len() as int) == perceived_so_far(
            atoms,
            i + 1,
            0,
        ),
{
    let all = spec_proposals(atoms, i).len() as int;
    let done = perceived_so_far(atoms, i, all);
    let begun = perceived_so_far(atoms, i + 1, 0);
    assert forall|pair: (int, int)| done.contains(pair) <==> begun.contains(pair) by {
        lemma_row_is_whole(atoms, pair.0, pair.1, i);
        lemma_row_is_whole(atoms, pair.1, pair.0, i);
    }
    assert(done =~= begun);
}

/// The first `i` atoms and all proposals of atom `i` are the first `i + 1`
/// atoms.
proof fn lemma_row_is_whole(atoms: Seq<Atom>, a: int, b: int, i: int)
    requires
        0 <= i < atoms.len(),
    ensures
        proposed_by(atoms, a, b, i, spec_proposals(atoms, i).len() as int) <==> proposed_by(
            atoms,
            a,
            b,
            i + 1,
            0,
        ),
{
    let all = spec_proposals(atoms, i).len() as int;
    if proposed_by(atoms, a, b, i, all) {
        let w = choose|w: int| #[trigger]
            proposal_at(atoms, a, w, b) && (a < i || (a == i && w < all));
        assert(proposal_at(atoms, a, w, b) && (a < i + 1 || (a == i + 1 && w < 0)));
    }
    if proposed_by(atoms, a, b, i + 1, 0) {
        let w = choose|w: int| #[trigger]
            proposal_at(atoms, a, w, b) && (a < i + 1 || (a == i + 1 && w < 0));
        assert(proposal_at(atoms, a, w, b) && (a < i || (a == i && w < all)));
    }
}

/// Once every atom has made its proposals, the bonds are all there.
proof fn lemma_all_atoms(atoms: Seq<Atom>)
    ensures
        perceived_so_far(atoms, atoms.len() as int, 0) == perceived_bonds(atoms),
        perceived_so_far(atoms, 0, 0) == Set::<(int, int)>::empty(),
{
    let n = atoms.len() as int;
    assert forall|pair: (int, int)|
        perceived_so_far(atoms, n, 0).contains(pair) <==> perceived_bonds(atoms).contains(
            pair,
        ) by {
        if proposes(atoms, pair.0, pair.1) {
            let w = choose|w: int| proposal_at(atoms, pair.0, w, pair.1);
            assert(proposal_at(atoms, pair.0, w, pair.1) && (pair.0 < n || (pair.0 == n && w < 0)));
        }
        if proposes(atoms, pair.1, pair.0) {
            let w = choose|w: int| proposal_at(atoms, pair.1, w, pair.0);
            assert(proposal_at(atoms, pair.1, w, pair.0) && (pair.1 < n || (pair.1 == n && w < 0)));
        }
    }
    assert(perceived_so_far(atoms, n, 0) =~= perceived_bonds(atoms));
    assert(perceived_so_far(atoms, 0, 0) =~= Set::<(int, int)>::empty());
}

/// Perceives the bonds between `atoms`: every atom in turn proposes a bond
/// to each of its nearest neighbours, up to its maximal valence, and each
/// proposed bond is added to the set once.
pub fn perceive_bonds(atoms: &Vec<Atom>) -> (bonds: Vec<Bond>)
    ensures
        is_bond_list(bonds@),
        bond_set(bonds@) == perceived_bonds(atoms@),
{
    let mut bonds: Vec<Bond> = Vec::new();
    let mut i: usize = 0;
    proof {
        lemma_all_atoms(atoms@);
        assert(bond_set(bonds@) =~= Set::<(int, int)>::empty());
    }
    while i < atoms.len()
        invariant
            0 <= i <= atoms.len(),
            is_bond_list(bonds@),
            bond_set(bonds@) == perceived_so_far(atoms@, i as int, 0),
        decreases atoms.len() - i,
    {
        let proposed = proposals(atoms, i);
        let mut k: usize = 0;
        while k < proposed.len()
            invariant
                0 <= i < atoms.len(),
                0 <= k <= proposed.len(),
                proposed@ == spec_proposals(atoms@, i as int),
                is_bond_list(bonds@),
                bond_set(bonds@) == perceived_so_far(atoms@, i as int, k as int),
            decreases proposed.len() - k,
        {
            let j: usize = proposed[k].idx;
            proof {
                lemma_proposal_is_neighbour(atoms@, i as int, k as int);
                lemma_next_proposal(atoms@, i as int, k as int);
            }
            match Bond::new(i, j) {
                Some(bond) => {
                    insert_bond(&mut bonds, bond);
                },
                None => {},
            }
            k = k + 1;
        }
        proof {
            lemma_next_atom(atoms@, i as int);
        }
        i = i + 1;
    }
    bonds
}

} // verus!
