//! The element table: symbols, covalent radii, maximal valences and display
//! colours, all looked up by atomic number.
//!
//! The tables are deliberately incomplete for the heavier elements. An
//! atomic number past the end of a table gets that table's default; it is
//! not an error.

use vstd::prelude::*;
use crate::scalar::UNITS_PER_PICOMETER;
use crate::text::characters;

verus! {

/// A display colour: red, green and blue channels.
#[derive(Clone, Copy, Debug, PartialEq, Eq, Structural)]
pub struct RGB(pub u8, pub u8, pub u8);

/// An element symbol that names none of the known elements.
#[derive(Debug, PartialEq, Eq)]
pub struct UnknownElementSymbol {
    /// The symbol that was not recognised.
    pub symbol: String,
}

/// The number of known elements, and so the largest atomic number.
pub const ELEMENT_COUNT: u16 = 118;

/// Stands in the second place of a symbol that has one letter only.
pub const NO_LETTER: char = ' ';

/// Element symbols, letter by letter; the symbol of atomic number `z` is at
/// index `z - 1`. Symbols have one letter or two.
pub const ELEMENTS: [(char, char); 118] = [
    ('H', ' '), ('H', 'e'), ('L', 'i'), ('B', 'e'), ('B', ' '), ('C', ' '), ('N', ' '),
    ('O', ' '), ('F', ' '), ('N', 'e'), ('N', 'a'), ('M', 'g'), ('A', 'l'), ('S', 'i'),
    ('P', ' '), ('S', ' '), ('C', 'l'), ('A', 'r'), ('K', ' '), ('C', 'a'), ('S', 'c'),
    ('T', 'i'), ('V', ' '), ('C', 'r'), ('M', 'n'), ('F', 'e'), ('C', 'o'), ('N', 'i'),
    ('C', 'u'), ('Z', 'n'), ('G', 'a'), ('G', 'e'), ('A', 's'), ('S', 'e'), ('B', 'r'),
    ('K', 'r'), ('R', 'b'), ('S', 'r'), ('Y', ' '), ('Z', 'r'), ('N', 'b'), ('M', 'o'),
    ('T', 'c'), ('R', 'u'), ('R', 'h'), ('P', 'd'), ('A', 'g'), ('C', 'd'), ('I', 'n'),
    ('S', 'n'), ('S', 'b'), ('T', 'e'), ('I', ' '), ('X', 'e'), ('C', 's'), ('B', 'a'),
    ('L', 'a'), ('C', 'e'), ('P', 'r'), ('N', 'd'), ('P', 'm'), ('S', 'm'), ('E', 'u'),
    ('G', 'd'), ('T', 'b'), ('D', 'y'), ('H', 'o'), ('E', 'r'), ('T', 'm'), ('Y', 'b'),
    ('L', 'u'), ('H', 'f'), ('T', 'a'), ('W', ' '), ('R', 'e'), ('O', 's'), ('I', 'r'),
    ('P', 't'), ('A', 'u'), ('H', 'g'), ('T', 'l'), ('P', 'b'), ('B', 'i'), ('P', 'o'),
    ('A', 't'), ('R', 'n'), ('F', 'r'), ('R', 'a'), ('A', 'c'), ('T', 'h'), ('P', 'a'),
    ('U', ' '), ('N', 'p'), ('P', 'u'), ('A', 'm'), ('C', 'm'), ('B', 'k'), ('C', 'f'),
    ('E', 's'), ('F', 'm'), ('M', 'd'), ('N', 'o'), ('L', 'r'), ('R', 'f'), ('D', 'b'),
    ('S', 'g'), ('B', 'h'), ('H', 's'), ('M', 't'), ('D', 's'), ('R', 'g'), ('C', 'n'),
    ('N', 'h'), ('F', 'l'), ('M', 'c'), ('L', 'v'), ('T', 's'), ('O', 'g'),
];

/// Covalent radii in picometers, hydrogen to radon.
pub const COVALENT_RADII_PICOMETERS: [i32; 86] = [
    31, 28,
    128, 96, 84, 76, 71, 66, 57, 58,
    166, 141, 121, 111, 107, 105, 102, 106,
    102, 203, 176, 170, 160, 153, 139, 161, 152, 150, 124, 132, 122, 122, 120, 119, 120, 116,
    220, 195, 190, 175, 164, 154, 147, 146, 142, 139, 145, 144, 142, 139, 139, 138, 139, 140,
    244, 215,
    207, 204, 203, 201, 199, 198, 198, 196, 194, 192, 192, 189, 190, 187,
    175, 187, 170, 162, 151, 144, 141, 136, 136, 132, 145, 146, 148, 140, 150, 150,
];

/// The covalent radius of an element without an entry: 2 Å, in
/// micro-ångströms.
pub const DEFAULT_COVALENT_RADIUS: i32 = 2_000_000;

/// Maximal valences, hydrogen to strontium.
pub const MAXIMAL_VALENCIES: [usize; 38] = [
    1, 0, 1, 2, 3, 4, 5, 2, 1, 0, 1, 2, 3, 4, 5, 6, 7,
    0, 1, 2, 3, 4, 5, 6, 7, 7, 5, 4, 4, 6, 3, 4, 5, 6, 7, 2, 1, 2,
];

/// The maximal valence of an element without an entry.
pub const DEFAULT_MAXIMAL_VALENCE: usize = 6;

/// Display colours, hydrogen to chlorine.
pub const COLORS: [(u8, u8, u8); 17] = [
    (191, 191, 191),
    (208, 255, 255),
    (217, 123, 255),
    (176, 255, 0),
    (255, 178, 179),
    (102, 102, 102),
    (12, 12, 255),
    (255, 0, 0),
    (112, 181, 255),
    (166, 229, 248),
    (183, 88, 251),
    (82, 255, 0),
    (196, 165, 165),
    (121, 154, 153),
    (255, 119, 0),
    (179, 179, 0),
    (0, 244, 0),
];

/// The colour of an element without an entry: a neutral grey.
pub const DEFAULT_COLOR: (u8, u8, u8) = (252, 252, 252);

/// Whether `z` is the atomic number of a known element.
pub open spec fn is_atomic_number(z: int) -> bool {
    1 <= z <= ELEMENT_COUNT
}

/// The symbol of the element with atomic number `z`.
pub open spec fn symbol_of(z: int) -> Seq<char> {
    let letters = ELEMENTS@[z - 1];
    if letters.1 == NO_LETTER {
        seq![letters.0]
    } else {
        seq![letters.0, letters.1]
    }
}

/// Whether `symbol` is the symbol of the element with atomic number `z`.
pub open spec fn is_symbol_of(symbol: Seq<char>, z: int) -> bool {
    is_atomic_number(z) && symbol == symbol_of(z)
}

/// Whether `symbol` is the symbol of a known element.
pub open spec fn is_known_symbol(symbol: Seq<char>) -> bool {
    exists|z: int| is_symbol_of(symbol, z)
}

/// The covalent radius of element `z` in micro-ångströms.
pub open spec fn spec_covalent_radius(z: int) -> int {
    if 1 <= z <= COVALENT_RADII_PICOMETERS@.len() {
        COVALENT_RADII_PICOMETERS@[z - 1] * UNITS_PER_PICOMETER
    } else {
        DEFAULT_COVALENT_RADIUS as int
    }
}

/// The most bonds an atom of element `z` is taken to form.
pub open spec fn spec_maximal_valence(z: int) -> int {
    if 1 <= z <= MAXIMAL_VALENCIES@.len() {
        MAXIMAL_VALENCIES@[z - 1] as int
    } else {
        DEFAULT_MAXIMAL_VALENCE as int
    }
}

/// The display colour of element `z`.
pub open spec fn spec_color(z: int) -> RGB {
    let channels = if 1 <= z <= COLORS@.len() {
        COLORS@[z - 1]
    } else {
        DEFAULT_COLOR
    };
    RGB(channels.0, channels.1, channels.2)
}

/// Every covalent radius is positive, at most 2.44 Å, and a whole number of
/// picometers.
pub proof fn lemma_covalent_radius_bounds(z: int)
    ensures
        0 < spec_covalent_radius(z) <= 2_440_000,
        spec_covalent_radius(z) % (UNITS_PER_PICOMETER as int) == 0,
{
    if 1 <= z <= 86 {
        let k = z - 1;
        assert(0 < COVALENT_RADII_PICOMETERS@[k] <= 244);
    }
}

/// Whether `symbol` is the symbol at index `k` of the table.
fn is_symbol_at(symbol: &Vec<char>, k: usize) -> (r: bool)
    requires
        k < ELEMENT_COUNT,
    ensures
        r == (symbol@ == symbol_of(k + 1)),
{
    let letters: (char, char) = ELEMENTS[k];
    if letters.1 == NO_LETTER {
        let same = symbol.len() == 1 && symbol[0] == letters.0;
        assert(same == (symbol@ =~= seq![letters.0]));
        same
    } else {
        let same = symbol.len() == 2 && symbol[0] == letters.0 && symbol[1] == letters.1;
        assert(same == (symbol@ =~= seq![letters.0, letters.1]));
        same
    }
}

/// Looks an element up by its symbol, given as characters: its atomic
/// number, or `None` for a symbol that is not known.
pub fn find_element(symbol: &Vec<char>) -> (r: Option<u16>)
    ensures
        r is Some <==> is_known_symbol(symbol@),
        r matches Some(z) ==> is_symbol_of(symbol@, z as int) && forall|lesser: int|
            lesser < z ==> !is_symbol_of(symbol@, lesser),
{
    let mut k: u16 = 0;
    while k < ELEMENT_COUNT
        invariant
            0 <= k <= ELEMENT_COUNT,
            forall|z: int| z <= k ==> !is_symbol_of(symbol@, z),
        decreases ELEMENT_COUNT - k,
    {
        if is_symbol_at(symbol, k as usize) {
            assert(is_symbol_of(symbol@, k + 1));
            return Some(k + 1);
        }
        k = k + 1;
    }
    None
}

/// Resolves an element symbol to its atomic number. Symbols are
/// case-sensitive; there is no fallback for one that is not known.
pub fn atomic_number_of(symbol: &str) -> (r: Result<u16, UnknownElementSymbol>)
    ensures
        r is Ok <==> is_known_symbol(symbol@),
        r matches Ok(z) ==> is_symbol_of(symbol@, z as int) && forall|lesser: int|
            lesser < z ==> !is_symbol_of(symbol@, lesser),
        r matches Err(e) ==> e.symbol@ == symbol@,
{
    match find_element(&characters(symbol)) {
        Some(z) => Ok(z),
        None => Err(UnknownElementSymbol { symbol: symbol.to_owned() }),
    }
}

/// The covalent radius of an element in micro-ångströms: its table entry
/// converted from picometers, or 2 Å where the table has none.
pub fn covalent_radius(atomic_number: u16) -> (r: i32)
    requires
        is_atomic_number(atomic_number as int),
    ensures
        r == spec_covalent_radius(atomic_number as int),
{
    proof {
        lemma_covalent_radius_bounds(atomic_number as int);
    }
    if 1 <= atomic_number && atomic_number <= 86 {
        COVALENT_RADII_PICOMETERS[(atomic_number - 1) as usize] * UNITS_PER_PICOMETER
    } else {
        DEFAULT_COVALENT_RADIUS
    }
}

/// The maximal valence of an element: its table entry, or 6 where the table
/// has none.
pub fn maximal_valence(atomic_number: u16) -> (r: usize)
    requires
        is_atomic_number(atomic_number as int),
    ensures
        r == spec_maximal_valence(atomic_number as int),
{
    if 1 <= atomic_number && atomic_number <= 38 {
        MAXIMAL_VALENCIES[(atomic_number - 1) as usize]
    } else {
        DEFAULT_MAXIMAL_VALENCE
    }
}

/// The display colour of an element: its table entry, or a neutral grey
/// where the table has none.
pub fn color(atomic_number: u16) -> (r: RGB)
    requires
        is_atomic_number(atomic_number as int),
    ensures
        r == spec_color(atomic_number as int),
{
    let channels: (u8, u8, u8) = if 1 <= atomic_number && atomic_number <= 17 {
        COLORS[(atomic_number - 1) as usize]
    } else {
        DEFAULT_COLOR
    };
    RGB(channels.0, channels.1, channels.2)
}

} // verus!
