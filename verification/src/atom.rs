//! Atoms: an element at a position, and the rule by which two atoms count
//! as bonded.

use vstd::prelude::*;
use vstd::std_specs::cmp::PartialEqSpec;
use crate::elements;
use crate::elements::{RGB, UnknownElementSymbol};
use crate::molecule::Molecule;
use crate::position::Position;
use crate::text::{characters, text_of};
use crate::traits::IsVeryClose;
use crate::xyz::{
    fields_of, is_line_error, line_is_atom, line_position, line_symbol, parse_coordinate, views,
    XyzError,
};

verus! {

/// Atoms no further apart than one part in this many of a micro-ångström
/// (10⁻⁸ Å) count as being in the same place.
pub const COINCIDENCE_PER_UNIT: i128 = 100;

/// The bonding tolerance, 1.3, as a fraction: its numerator.
pub const TOLERANCE_NUMERATOR: i128 = 13;

/// The bonding tolerance, 1.3, as a fraction: its denominator.
pub const TOLERANCE_DENOMINATOR: i128 = 10;

/// An atom: an element, given by its atomic number, at a position.
#[derive(Clone, Copy, Debug)]
pub struct Atom {
    atomic_number: u16,
    position: Position,
}

/// A candidate partner for a bond: the atom at `idx` of a molecule's atom
/// sequence, and the square of its distance from the atom that asked.
#[derive(Clone, Copy, Debug, PartialEq, Eq, Structural)]
pub struct Neighbour {
    /// The exact square of the distance, in square micro-ångströms.
    pub distance_squared: i128,
    /// The neighbour's index in the atom sequence.
    pub idx: usize,
}

impl Atom {
    /// The atomic number is that of a known element.
    #[verifier::type_invariant]
    pub closed spec fn is_valid(self) -> bool {
        elements::is_atomic_number(self.atomic_number as int)
    }

    /// The atom's atomic number.
    pub closed spec fn spec_atomic_number(self) -> int {
        self.atomic_number as int
    }

    /// The atom's position.
    pub closed spec fn spec_position(self) -> Position {
        self.position
    }

    /// What `is_valid` says, over the atomic number.
    pub proof fn lemma_is_valid(self)
        ensures
            self.is_valid() <==> elements::is_atomic_number(self.spec_atomic_number()),
    {
    }

    /// Atoms of the same element at the same position are the same atom.
    pub proof fn lemma_same_parts(self, other: Atom)
        requires
            self.spec_atomic_number() == other.spec_atomic_number(),
            self.spec_position() == other.spec_position(),
        ensures
            self == other,
    {
    }

    /// The atom's covalent radius in micro-ångströms.
    pub open spec fn spec_covalent_radius(self) -> int {
        elements::spec_covalent_radius(self.spec_atomic_number())
    }

    /// The most bonds the atom is taken to form.
    pub open spec fn spec_maximal_valence(self) -> int {
        elements::spec_maximal_valence(self.spec_atomic_number())
    }

    /// The square of the distance between two atoms.
    pub open spec fn spec_distance_squared(self, other: Atom) -> int {
        self.spec_position().spec_distance_squared(other.spec_position())
    }

    /// The bonding rule. Two atoms could be bonded when the distance `d`
    /// between them is more than 10⁻⁸ Å and less than 1.3 times the sum `s`
    /// of their covalent radii. Both comparisons are made on squares, where
    /// they are exact: in micro-ångströms, `100 d > 1` and `10 d < 13 s`.
    pub open spec fn spec_could_be_bonded_to(self, other: Atom) -> bool {
        let d2 = self.spec_distance_squared(other);
        let s = self.spec_covalent_radius() + other.spec_covalent_radius();
        &&& (COINCIDENCE_PER_UNIT * COINCIDENCE_PER_UNIT) * d2 > 1
        &&& (TOLERANCE_DENOMINATOR * TOLERANCE_DENOMINATOR) * d2
            < (TOLERANCE_NUMERATOR * s) * (TOLERANCE_NUMERATOR * s)
    }

    /// What `==` means between atoms: the same element, at positions that
    /// are very close.
    pub open spec fn spec_same_as(self, other: Atom) -> bool {
        self.spec_atomic_number() == other.spec_atomic_number() && self.spec_position().very_close(
            &other.spec_position(),
        )
    }

    /// The atom at index `k` of `atoms`, as a candidate partner of `self`.
    pub open spec fn spec_neighbour(self, atoms: Seq<Atom>, k: int) -> Neighbour {
        Neighbour { distance_squared: self.spec_distance_squared(atoms[k]) as i128, idx: k as usize }
    }

    /// Every atom of `atoms` as a candidate partner of `self`, in the order
    /// of `atoms`.
    pub open spec fn spec_candidates(self, atoms: Seq<Atom>) -> Seq<Neighbour> {
        Seq::new(atoms.len(), |k: int| self.spec_neighbour(atoms, k))
    }

    /// The test that a candidate of `self` among `atoms` passes when the two
    /// could be bonded.
    pub open spec fn spec_is_neighbour(self, atoms: Seq<Atom>) -> spec_fn(Neighbour) -> bool {
        |n: Neighbour| self.spec_could_be_bonded_to(atoms[n.idx as int])
    }

    /// The neighbours of `self` among `atoms`: the atoms it could be bonded
    /// to, in the order of `atoms`. The atom itself is never among them.
    pub open spec fn spec_neighbours(self, atoms: Seq<Atom>) -> Seq<Neighbour> {
        self.spec_candidates(atoms).filter(self.spec_is_neighbour(atoms))
    }

    /// An atom of the element with the given atomic number, or `None` when
    /// the number is not between 1 and 118.
    pub fn new(atomic_number: u16, position: Position) -> (r: Option<Atom>)
        ensures
            r is Some <==> elements::is_atomic_number(atomic_number as int),
            r matches Some(atom) ==> atom.spec_atomic_number() == atomic_number
                && atom.spec_position() == position && atom.is_valid(),
    {
        if 1 <= atomic_number && atomic_number <= elements::ELEMENT_COUNT {
            Some(Atom { atomic_number, position })
        } else {
            None
        }
    }

    /// An atom of the element with the given symbol. A symbol that names no
    /// known element is an error: there is no default element.
    pub fn from_symbol(symbol: &str, position: Position) -> (r: Result<Atom, UnknownElementSymbol>)
        ensures
            r is Ok <==> elements::is_known_symbol(symbol@),
            r matches Ok(atom) ==> elements::is_symbol_of(symbol@, atom.spec_atomic_number())
                && atom.spec_position() == position && atom.is_valid(),
            r matches Err(e) ==> e.symbol@ == symbol@,
    {
        match elements::atomic_number_of(symbol) {
            Ok(atomic_number) => Ok(Atom { atomic_number, position }),
            Err(e) => Err(e),
        }
    }

    /// Whether the atom is the one that an atom line describes.
    pub open spec fn spec_is_from_line(self, line: Seq<char>) -> bool {
        &&& elements::is_symbol_of(line_symbol(line), self.spec_atomic_number())
        &&& line_position(line) == Some(self.spec_position())
    }

    /// Construct an atom from a line of a coordinate file, e.g.
    /// "H  0.0  1.0  2.0": an element symbol, then the x, y and z
    /// coordinates in ångströms, with white space between them.
    pub fn from_line(line: &str) -> (r: Result<Atom, XyzError>)
        ensures
            r is Ok <==> line_is_atom(line@),
            r matches Ok(atom) ==> atom.spec_is_from_line(line@) && atom.is_valid(),
            r matches Err(e) ==> is_line_error(line@, e),
    {
        Atom::from_characters(&characters(line))
    }

    /// Construct an atom from a line of a coordinate file, given as
    /// characters.
    pub fn from_characters(line: &Vec<char>) -> (r: Result<Atom, XyzError>)
        ensures
            r is Ok <==> line_is_atom(line@),
            r matches Ok(atom) ==> atom.spec_is_from_line(line@) && atom.is_valid(),
            r matches Err(e) ==> is_line_error(line@, e),
    {
        let items = fields_of(line);
        let nothing: Vec<char> = Vec::new();
        let symbol: &Vec<char> = if items.len() > 0 {
            &items[0]
        } else {
            &nothing
        };
        assert(symbol@ == line_symbol(line@)) by {
            if items.len() > 0 {
                assert(views(items@)[0] == items@[0]@);
            }
        }
        let atomic_number: u16 = match elements::find_element(symbol) {
            Some(z) => z,
            None => {
                return Err(
                    XyzError::UnknownElementSymbol(UnknownElementSymbol { symbol: text_of(symbol) }),
                );
            },
        };
        let mut position = Position { x: 0, y: 0, z: 0 };
        if items.len() > 1 {
            assert(views(items@)[1] == items@[1]@);
            match parse_coordinate(&items[1]) {
                Some(x) => {
                    position.x = x;
                },
                None => {
                    return Err(XyzError::InvalidCoordinate);
                },
            }
        }
        if items.len() > 2 {
            assert(views(items@)[2] == items@[2]@);
            match parse_coordinate(&items[2]) {
                Some(y) => {
                    position.y = y;
                },
                None => {
                    return Err(XyzError::InvalidCoordinate);
                },
            }
        }
        if items.len() > 3 {
            assert(views(items@)[3] == items@[3]@);
            match parse_coordinate(&items[3]) {
                Some(z) => {
                    position.z = z;
                },
                None => {
                    return Err(XyzError::InvalidCoordinate);
                },
            }
        }
        Ok(Atom { atomic_number, position })
    }

    /// The atom's atomic number, between 1 and 118.
    pub fn atomic_number(&self) -> (r: u16)
        ensures
            r == self.spec_atomic_number(),
            elements::is_atomic_number(r as int),
    {
        proof {
            use_type_invariant(self);
        }
        self.atomic_number
    }

    /// The atom's position.
    pub fn position(&self) -> (r: Position)
        ensures
            r == self.spec_position(),
    {
        self.position
    }

    /// Covalent radius in micro-ångströms, used to decide whether two atoms
    /// are bonded.
    pub fn covalent_radius(&self) -> (r: i32)
        ensures
            r == self.spec_covalent_radius(),
    {
        elements::covalent_radius(self.atomic_number())
    }

    /// The maximal possible valence of this atom.
    pub fn maximal_valence(&self) -> (r: usize)
        ensures
            r == self.spec_maximal_valence(),
    {
        elements::maximal_valence(self.atomic_number())
    }

    /// The display colour of this atom.
    pub fn color(&self) -> (r: RGB)
        ensures
            r == elements::spec_color(self.spec_atomic_number()),
    {
        elements::color(self.atomic_number())
    }

    /// Index of this atom's element in the element tables.
    pub fn index(&self) -> (r: usize)
        ensures
            r == self.spec_atomic_number() - 1,
    {
        (self.atomic_number() - 1) as usize
    }

    /// The exact square of the distance to another atom, in square
    /// micro-ångströms.
    pub fn distance_squared_to(&self, other: &Atom) -> (r: i128)
        ensures
            r == self.spec_distance_squared(*other),
            0 <= r < 0x4_0000_0000_0000_0000,
    {
        self.position.distance_squared_to(&other.position)
    }

    /// The distance to another atom in micro-ångströms, rounded down.
    pub fn distance_to(&self, other: &Atom) -> (r: i64)
        ensures
            crate::scalar::is_floor_sqrt(self.spec_distance_squared(*other), r as int),
    {
        self.position.distance_to(&other.position)
    }

    /// Could this atom be bonded to another atom, based on the distance
    /// between them and their respective covalent radii?
    pub fn could_be_bonded_to(&self, atom: &Atom) -> (r: bool)
        ensures
            r == self.spec_could_be_bonded_to(*atom),
    {
        let d2: i128 = self.distance_squared_to(atom);
        let s: i128 = self.covalent_radius() as i128 + atom.covalent_radius() as i128;
        proof {
            elements::lemma_covalent_radius_bounds(self.spec_atomic_number());
            elements::lemma_covalent_radius_bounds(atom.spec_atomic_number());
            assert(0 <= (TOLERANCE_NUMERATOR * s) * (TOLERANCE_NUMERATOR * s) <= 63_440_000
                * 63_440_000) by (nonlinear_arith)
                requires
                    0 < s <= 4_880_000,
                    TOLERANCE_NUMERATOR == 13,
            ;
        }
        let reach: i128 = TOLERANCE_NUMERATOR * s;
        let near: i128 = COINCIDENCE_PER_UNIT * COINCIDENCE_PER_UNIT;
        let scale: i128 = TOLERANCE_DENOMINATOR * TOLERANCE_DENOMINATOR;
        assert(near == 10_000 && scale == 100);
        let is_identical_atom = near * d2 <= 1;
        !is_identical_atom && scale * d2 < reach * reach
    }

    /// Retrieve the atomic neighbours to this one in a molecule: every atom
    /// of the molecule that it could be bonded to, in the order of the
    /// molecule's atoms.
    pub fn neighbours_in(&self, molecule: &Molecule) -> (neighbours: Vec<Neighbour>)
        ensures
            neighbours@ == self.spec_neighbours(molecule@.atoms),
    {
        self.neighbours_among(molecule.atoms())
    }

    /// Retrieve the atomic neighbours to this one among `atoms`: every atom
    /// it could be bonded to, with the square of its distance and its index,
    /// in the order of `atoms`.
    pub fn neighbours_among(&self, atoms: &Vec<Atom>) -> (neighbours: Vec<Neighbour>)
        ensures
            neighbours@ == self.spec_neighbours(atoms@),
    {
        let mut neighbours: Vec<Neighbour> = Vec::new();
        let ghost candidates = self.spec_candidates(atoms@);
        let ghost wanted = self.spec_is_neighbour(atoms@);
        let mut i: usize = 0;
        proof {
            candidates.take(0).lemma_filter_len(wanted);
        }
        while i < atoms.len()
            invariant
                0 <= i <= atoms.len(),
                candidates == self.spec_candidates(atoms@),
                wanted == self.spec_is_neighbour(atoms@),
                neighbours@ == candidates.take(i as int).filter(wanted),
            decreases atoms.len() - i,
        {
            let atom = &atoms[i];
            proof {
                candidates.lemma_take_succ_push(i as int);
                candidates.take(i as int).lemma_filter_push(candidates[i as int], wanted);
            }
            if self.could_be_bonded_to(atom) {
                let distance_squared: i128 = self.distance_squared_to(atom);
                neighbours.push(Neighbour { distance_squared, idx: i });
            }
            i = i + 1;
        }
        proof {
            candidates.lemma_take_len();
        }
        neighbours
    }
}

impl PartialEq for Atom {
    /// Whether two atoms are of the same element and at very close
    /// positions.
    fn eq(&self, other: &Atom) -> (r: bool) {
        self.atomic_number == other.atomic_number && self.position.is_very_close_to(
            &other.position,
        )
    }
}

impl vstd::std_specs::cmp::PartialEqSpecImpl for Atom {
    open spec fn obeys_eq_spec() -> bool {
        true
    }

    open spec fn eq_spec(&self, other: &Atom) -> bool {
        self.spec_same_as(*other)
    }
}

/// An atom is at no distance from itself, so it could never be bonded to
/// itself.
pub proof fn lemma_never_bonded_to_itself(a: Atom)
    ensures
        a.spec_distance_squared(a) == 0,
        !a.spec_could_be_bonded_to(a),
{
    assert(COINCIDENCE_PER_UNIT * COINCIDENCE_PER_UNIT * 0 == 0);
}

/// The bonding rule on distances: with `d` the distance between two atoms in
/// micro-ångströms, rounded down, and `s` the sum of their covalent radii,
/// the two could be bonded exactly when `d` is not zero and below 1.3 times
/// `s`. Rounding the distance down does no harm: 1.3 times `s` is a whole
/// number of micro-ångströms.
pub proof fn lemma_bonding_rule_on_distances(a: Atom, b: Atom, d: int)
    requires
        crate::scalar::is_floor_sqrt(a.spec_distance_squared(b), d),
    ensures
        a.spec_could_be_bonded_to(b) <==> 0 < d && TOLERANCE_DENOMINATOR * d < TOLERANCE_NUMERATOR
            * (a.spec_covalent_radius() + b.spec_covalent_radius()),
{
    let d2 = a.spec_distance_squared(b);
    let s = a.spec_covalent_radius() + b.spec_covalent_radius();
    elements::lemma_covalent_radius_bounds(a.spec_atomic_number());
    elements::lemma_covalent_radius_bounds(b.spec_atomic_number());
    let c = 13 * (s / 10);
    assert(s % 10 == 0);
    assert(13 * s == 10 * c);
    assert(COINCIDENCE_PER_UNIT * COINCIDENCE_PER_UNIT == 10_000);
    assert(TOLERANCE_DENOMINATOR * TOLERANCE_DENOMINATOR == 100);
    assert(TOLERANCE_NUMERATOR * s == 10 * c);
    assert(TOLERANCE_DENOMINATOR * d == 10 * d);
    assert((TOLERANCE_NUMERATOR * s) * (TOLERANCE_NUMERATOR * s) == (13 * s) * (13 * s));
    assert((13 * s) * (13 * s) == 100 * (c * c)) by (nonlinear_arith)
        requires
            13 * s == 10 * c,
    ;
    assert(d < c <==> d2 < c * c) by (nonlinear_arith)
        requires
            0 <= d,
            0 <= c,
            d * d <= d2,
            d2 < (d + 1) * (d + 1),
    ;
    assert(0 < d <==> 1 <= d2) by (nonlinear_arith)
        requires
            0 <= d,
            d * d <= d2,
            d2 < (d + 1) * (d + 1),
    ;
}

/// The bonding rule does not depend on which of the two atoms asks.
pub proof fn lemma_could_be_bonded_is_symmetric(a: Atom, b: Atom)
    ensures
        a.spec_distance_squared(b) == b.spec_distance_squared(a),
        a.spec_could_be_bonded_to(b) == b.spec_could_be_bonded_to(a),
{
    let p = a.spec_position();
    let q = b.spec_position();
    assert((p.x - q.x) * (p.x - q.x) == (q.x - p.x) * (q.x - p.x)) by (nonlinear_arith);
    assert((p.y - q.y) * (p.y - q.y) == (q.y - p.y) * (q.y - p.y)) by (nonlinear_arith);
    assert((p.z - q.z) * (p.z - q.z) == (q.z - p.z) * (q.z - p.z)) by (nonlinear_arith);
}

} // verus!
