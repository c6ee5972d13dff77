//! The molecular graph: atoms as nodes, perceived bonds as edges.

use vstd::prelude::*;
use vstd::std_specs::cmp::PartialEqSpec;
use crate::atom::Atom;
use crate::bond::{unordered_pair, Bond};
use crate::elements::{is_known_symbol, is_symbol_of, UnknownElementSymbol};
use crate::perception::{
    bond_set, holds_at, is_bond_list, own_bonds, perceive_bonds, perceived_bonds, spec_proposals,
};
use crate::position::Position;
use crate::text::characters;
use crate::xyz::{
    atom_lines, atom_lines_hold, blank, declared_count, is_line_error, is_not_blank, is_xyz_error,
    line_is_atom, lines_of, parse_count, split_lines, views, without_returns, XyzError,
};

verus! {

/// One atom as read from a coordinate file: an element symbol and a
/// position.
#[derive(Debug)]
pub struct AtomRecord {
    pub symbol: String,
    pub position: Position,
}

/// A molecule: its atoms, in the order they were given, and the bonds
/// perceived between them. Bonds refer to atoms by index.
#[derive(Debug)]
pub struct Molecule {
    atoms: Vec<Atom>,
    bonds: Vec<Bond>,
}

/// What a molecule stands for: a sequence of atoms and a set of bonds, each
/// bond a pair of atom indices with the lesser first.
pub ghost struct MoleculeView {
    pub atoms: Seq<Atom>,
    pub bonds: Set<(int, int)>,
}

impl View for Molecule {
    type V = MoleculeView;

    closed spec fn view(&self) -> MoleculeView {
        MoleculeView { atoms: self.atoms@, bonds: bond_set(self.bonds@) }
    }
}

/// Whether `atoms` holds one atom for each of `records`, of the element and
/// at the position that the record gives.
pub open spec fn atoms_match_records(atoms: Seq<Atom>, records: Seq<AtomRecord>) -> bool {
    &&& atoms.len() == records.len()
    &&& forall|k: int|
        #![trigger atoms[k]]
        0 <= k < atoms.len() ==> {
            &&& is_symbol_of(records[k].symbol@, atoms[k].spec_atomic_number())
            &&& atoms[k].spec_position() == records[k].position
        }
}

/// Whether record `k` is the first of `records` whose element symbol is not
/// known.
pub open spec fn is_first_unknown(records: Seq<AtomRecord>, k: int) -> bool {
    &&& 0 <= k < records.len()
    &&& !is_known_symbol(records[k].symbol@)
    &&& forall|before: int| 0 <= before < k ==> is_known_symbol(#[trigger] records[before].symbol@)
}

/// Whether `atoms` holds one atom for each of the atom lines `rows`, the
/// one that the line describes.
pub open spec fn atoms_match_lines(atoms: Seq<Atom>, rows: Seq<Seq<char>>) -> bool {
    &&& atoms.len() == rows.len()
    &&& forall|k: int| 0 <= k < atoms.len() ==> (#[trigger] atoms[k]).spec_is_from_line(rows[k])
}

impl Molecule {
    /// The bonds are those perceived between the atoms, each held once.
    #[verifier::type_invariant]
    pub closed spec fn is_perceived(self) -> bool {
        &&& is_bond_list(self.bonds@)
        &&& bond_set(self.bonds@) == perceived_bonds(self.atoms@)
    }

    /// The list of bonds that stands for the set of bonds.
    pub closed spec fn spec_bonds(self) -> Seq<Bond> {
        self.bonds@
    }

    /// What `is_perceived` says, over the view.
    pub proof fn lemma_is_perceived(self)
        ensures
            self.is_perceived() <==> is_bond_list(self.spec_bonds()) && self@.bonds
                == perceived_bonds(self@.atoms),
            self@.bonds == bond_set(self.spec_bonds()),
    {
    }

    /// Builds the molecule of the given atoms. The atoms keep their order;
    /// the bonds are perceived from the atoms' elements and positions.
    pub fn build(atoms: Vec<Atom>) -> (molecule: Molecule)
        ensures
            molecule@.atoms == atoms@,
            molecule@.bonds == perceived_bonds(atoms@),
            molecule.is_perceived(),
    {
        let bonds = perceive_bonds(&atoms);
        Molecule { atoms, bonds }
    }

    /// Builds the molecule of the given records. Fails on the first record
    /// whose element symbol is not known, and then builds nothing.
    pub fn from_records(records: &Vec<AtomRecord>) -> (r: Result<Molecule, UnknownElementSymbol>)
        ensures
            r is Ok <==> forall|k: int|
                0 <= k < records.len() ==> is_known_symbol(#[trigger] records@[k].symbol@),
            r matches Ok(molecule) ==> atoms_match_records(molecule@.atoms, records@)
                && molecule@.bonds == perceived_bonds(molecule@.atoms) && molecule.is_perceived(),
            r matches Err(e) ==> exists|k: int| #[trigger]
                is_first_unknown(records@, k) && e.symbol@ == records@[k].symbol@,
    {
        let mut atoms: Vec<Atom> = Vec::new();
        let mut k: usize = 0;
        while k < records.len()
            invariant
                0 <= k <= records.len(),
                atoms_match_records(atoms@, records@.take(k as int)),
                forall|before: int|
                    0 <= before < k ==> is_known_symbol(#[trigger] records@[before].symbol@),
            decreases records.len() - k,
        {
            let record = &records[k];
            match Atom::from_symbol(record.symbol.as_str(), record.position) {
                Ok(atom) => {
                    atoms.push(atom);
                },
                Err(e) => {
                    assert(is_first_unknown(records@, k as int));
                    return Err(e);
                },
            }
            k = k + 1;
        }
        assert(records@.take(k as int) =~= records@);
        Ok(Molecule::build(atoms))
    }

    /// Construct a molecule from the text of an XYZ coordinate file: a
    /// first line with the count of atoms, a title line, and then a line for
    /// each atom. Lines end in a newline, with or without a carriage return
    /// before it; blank lines among the atom lines are passed over.
    pub fn from_xyz_file(file_lines: &str) -> (r: Result<Molecule, XyzError>)
        ensures
            r is Ok <==> declared_count(file_lines@) == Some(atom_lines(file_lines@).len() as int)
                && atom_lines_hold(file_lines@, atom_lines(file_lines@).len() as int),
            r matches Ok(molecule) ==> atoms_match_lines(molecule@.atoms, atom_lines(file_lines@))
                && molecule@.bonds == perceived_bonds(molecule@.atoms) && molecule.is_perceived(),
            r matches Err(e) ==> is_xyz_error(file_lines@, e),
    {
        let text = characters(file_lines);
        let lines = lines_of(&text);
        let ghost all = split_lines(without_returns(file_lines@));
        let ghost rows = atom_lines(file_lines@);
        let ghost wanted = is_not_blank();
        assert(views(lines@)[0] == lines@[0]@);
        let declared: usize = match parse_count(&lines[0]) {
            Some(count) => count,
            None => {
                return Err(XyzError::InvalidAtomCount);
            },
        };
        let mut atoms: Vec<Atom> = Vec::new();
        let mut i: usize = 2;
        proof {
            if all.len() > 2 {
                all.skip(2).take(0).lemma_filter_len(wanted);
            }
        }
        while i < lines.len()
            invariant
                2 <= i,
                lines@.len() > 2 ==> i <= lines@.len(),
                all == views(lines@),
                all == split_lines(without_returns(file_lines@)),
                rows == atom_lines(file_lines@),
                wanted == is_not_blank(),
                declared_count(file_lines@) == Some(declared as int),
                all.len() > 2 ==> atoms_match_lines(
                    atoms@,
                    all.skip(2).take(i - 2).filter(wanted),
                ),
                atoms@.len() <= i - 2,
                all.len() <= 2 ==> atoms@.len() == 0,
            decreases lines.len() - i,
        {
            let line = &lines[i];
            let ghost rest = all.skip(2);
            let ghost seen = rest.take(i - 2).filter(wanted);
            proof {
                assert(all[i as int] == line@);
                assert(rest[i - 2] == line@);
                rest.lemma_take_succ_push(i - 2);
                rest.take(i - 2).lemma_filter_push(line@, wanted);
                assert(rest =~= rest.take(i - 1) + rest.skip(i - 1));
                Seq::filter_distributes_over_add(rest.take(i - 1), rest.skip(i - 1), wanted);
            }
            if !blank(line) {
                proof {
                    assert(rest.take(i - 1).filter(wanted) == seen.push(line@));
                    assert forall|k: int| 0 <= k <= seen.len() implies rows[k] == seen.push(
                        line@,
                    )[k] by {}
                    assert forall|k: int| 0 <= k < seen.len() implies line_is_atom(
                        #[trigger] rows[k],
                    ) by {
                        assert(atoms@[k].spec_is_from_line(seen[k]));
                    }
                }
                match Atom::from_characters(line) {
                    Ok(atom) => {
                        atoms.push(atom);
                    },
                    Err(e) => {
                        assert(is_line_error(rows[seen.len() as int], e));
                        return Err(e);
                    },
                }
            }
            i = i + 1;
        }
        proof {
            if all.len() > 2 {
                all.skip(2).lemma_take_len();
                assert(all.skip(2).take(i - 2) == all.skip(2));
                assert forall|k: int| 0 <= k < rows.len() implies line_is_atom(
                    #[trigger] rows[k],
                ) by {
                    assert(atoms@[k].spec_is_from_line(rows[k]));
                }
            }
        }
        if declared != atoms.len() {
            return Err(XyzError::AtomCountMismatch { declared, found: atoms.len() });
        }
        Ok(Molecule::build(atoms))
    }

    /// The atoms, in the order they were given.
    pub fn atoms(&self) -> (r: &Vec<Atom>)
        ensures
            r@ == self@.atoms,
    {
        &self.atoms
    }

    /// The bonds, each held once. Their order carries no meaning.
    pub fn bonds(&self) -> (r: &Vec<Bond>)
        ensures
            r@ == self.spec_bonds(),
            is_bond_list(r@),
            bond_set(r@) == self@.bonds,
            self@.bonds == perceived_bonds(self@.atoms),
            forall|k: int| 0 <= k < r@.len() ==> 0 <= (#[trigger] r@[k])@.0 < r@[k]@.1 < self@.atoms.len(),
    {
        proof {
            use_type_invariant(self);
            assert(self.atoms@.len() == self.atoms.len());
            crate::perception::lemma_bonds_are_in_range(self.atoms@);
            assert forall|k: int| 0 <= k < self.bonds@.len() implies 0 <= (#[trigger] self.bonds@[k])@.0
                < self.bonds@[k]@.1 < self.atoms@.len() by {
                assert(holds_at(self.bonds@, k, self.bonds@[k]@));
                assert(bond_set(self.bonds@).contains(self.bonds@[k]@));
            }
        }
        &self.bonds
    }

    /// Whether the atoms at indices `a` and `b` are bonded. The order of the
    /// two does not matter.
    pub fn has_bond(&self, a: usize, b: usize) -> (r: bool)
        ensures
            r == (a != b && self@.bonds.contains(unordered_pair(a as int, b as int))),
    {
        proof {
            use_type_invariant(self);
        }
        match Bond::new(a, b) {
            None => false,
            Some(wanted) => {
                let mut k: usize = 0;
                while k < self.bonds.len()
                    invariant
                        0 <= k <= self.bonds.len(),
                        is_bond_list(self.bonds@),
                        wanted.is_normal(),
                        a != b,
                        wanted@ == unordered_pair(a as int, b as int),
                        forall|q: int| 0 <= q < k ==> !holds_at(self.bonds@, q, wanted@),
                    decreases self.bonds.len() - k,
                {
                    proof {
                        crate::bond::lemma_eq_is_view_equality(self.bonds@[k as int], wanted);
                    }
                    if self.bonds[k] == wanted {
                        assert(holds_at(self.bonds@, k as int, wanted@));
                        assert(bond_set(self.bonds@).contains(wanted@));
                        return true;
                    }
                    k = k + 1;
                }
                false
            },
        }
    }
}

/// Perception is a function of the atoms alone: molecules of the same atoms
/// have the same bonds, however often they are built.
pub proof fn lemma_same_atoms_same_bonds(first: Molecule, second: Molecule)
    requires
        first.is_perceived(),
        second.is_perceived(),
        first@.atoms == second@.atoms,
    ensures
        first@.bonds == second@.bonds,
{
}

/// A molecule holds each of its bonds once: no two entries of its list of
/// bonds join the same two atoms, in either order, and none joins an atom to
/// itself.
pub proof fn lemma_bonds_held_once(molecule: Molecule, k: int, l: int)
    requires
        molecule.is_perceived(),
        0 <= k < molecule.spec_bonds().len(),
        0 <= l < molecule.spec_bonds().len(),
        k != l,
    ensures
        !molecule.spec_bonds()[k].eq_spec(&molecule.spec_bonds()[l]),
        molecule.spec_bonds()[k]@.0 != molecule.spec_bonds()[k]@.1,
        molecule@.bonds.contains(molecule.spec_bonds()[k]@),
{
    let bonds = molecule.spec_bonds();
    crate::bond::lemma_eq_is_view_equality(bonds[k], bonds[l]);
    bonds[k].lemma_is_normal();
    if k < l {
        assert(bonds[k]@ != bonds[l]@);
    } else {
        assert(bonds[l]@ != bonds[k]@);
    }
    assert(holds_at(bonds, k, bonds[k]@));
}

/// In a molecule no atom is bonded to itself: every bond joins two different
/// atoms of the molecule.
pub proof fn lemma_no_atom_bonded_to_itself(molecule: Molecule)
    requires
        molecule.is_perceived(),
    ensures
        forall|pair: (int, int)| #[trigger]
            molecule@.bonds.contains(pair) ==> pair.0 != pair.1 && 0 <= pair.0
                < molecule@.atoms.len() && 0 <= pair.1 < molecule@.atoms.len(),
{
    assert(molecule.atoms@.len() == molecule.atoms.len());
    crate::perception::lemma_bonds_are_in_range(molecule@.atoms);
}

/// Of the bonds of a molecule, those that atom `i` itself proposed are no
/// more than its maximal valence; an atom of maximal valence zero proposed
/// none. Bonds of atom `i` that its neighbours proposed are not counted: with
/// them it may have more.
pub proof fn lemma_own_bonds_within_valence(molecule: Molecule, i: int)
    requires
        molecule.is_perceived(),
        0 <= i < molecule@.atoms.len(),
    ensures
        own_bonds(molecule@.atoms, i).subset_of(molecule@.bonds),
        own_bonds(molecule@.atoms, i).finite(),
        own_bonds(molecule@.atoms, i).len() <= molecule@.atoms[i].spec_maximal_valence(),
        spec_proposals(molecule@.atoms, i).len() <= molecule@.atoms[i].spec_maximal_valence(),
{
    assert(molecule.atoms@.len() == molecule.atoms.len());
    crate::perception::lemma_valence_is_respected(molecule@.atoms, i);
}

impl Default for Molecule {
    /// The molecule without atoms.
    fn default() -> (molecule: Molecule)
        ensures
            molecule@.atoms == Seq::<Atom>::empty(),
            molecule@.bonds == Set::<(int, int)>::empty(),
    {
        let molecule = Molecule::build(Vec::new());
        proof {
            crate::perception::lemma_bonds_are_in_range(molecule@.atoms);
            assert(molecule@.bonds =~= Set::<(int, int)>::empty());
        }
        molecule
    }
}

impl PartialEq for Molecule {
    /// Whether two molecules have equal atoms, index by index, and the same
    /// bonds.
    fn eq(&self, other: &Molecule) -> (r: bool) {
        proof {
            use_type_invariant(self);
            use_type_invariant(other);
        }
        if self.atoms.len() != other.atoms.len() {
            return false;
        }
        let mut k: usize = 0;
        while k < self.atoms.len()
            invariant
                0 <= k <= self.atoms.len(),
                self.atoms.len() == other.atoms.len(),
                forall|q: int| 0 <= q < k ==> #[trigger] self.atoms@[q] == other.atoms@[q],
            decreases self.atoms.len() - k,
        {
            let mine = &self.atoms[k];
            let theirs = &other.atoms[k];
            if !(*mine == *theirs) {
                return false;
            }
            proof {
                let p = mine.spec_position();
                let q = theirs.spec_position();
                crate::scalar::lemma_very_close_is_equal(p.x as int, q.x as int);
                crate::scalar::lemma_very_close_is_equal(p.y as int, q.y as int);
                crate::scalar::lemma_very_close_is_equal(p.z as int, q.z as int);
                mine.lemma_same_parts(*theirs);
            }
            k = k + 1;
        }
        assert(self.atoms@ =~= other.atoms@);
        true
    }
}

impl vstd::std_specs::cmp::PartialEqSpecImpl for Molecule {
    open spec fn obeys_eq_spec() -> bool {
        true
    }

    open spec fn eq_spec(&self, other: &Molecule) -> bool {
        &&& self@.atoms.len() == other@.atoms.len()
        &&& forall|k: int|
            0 <= k < self@.atoms.len() ==> (#[trigger] self@.atoms[k]).spec_same_as(other@.atoms[k])
        &&& self@.bonds == other@.bonds
    }
}

} // verus!
