use wam::atom::Atom;
use wam::elements::UnknownElementSymbol;
use wam::molecule::Molecule;
use wam::position::Position;
use wam::text::{characters, text_of};
use wam::xyz::{
    blank, digit, digits_only, fields_of, find_either, lines_of, number_within, parse_coordinate,
    parse_count, parse_exponent, part, shifted, whitespace, XyzError, EXPONENT_BOUND,
};

fn chars(text: &str) -> Vec<char> {
    text.chars().collect()
}

fn texts(rows: &Vec<Vec<char>>) -> Vec<String> {
    rows.iter().map(|row| row.iter().collect()).collect()
}

fn coordinate(text: &str) -> Option<i32> {
    parse_coordinate(&chars(text))
}

fn hydrogen_at(x: f64, y: f64, z: f64) -> Atom {
    let unit = |v: f64| (v * 1.0e6).round() as i32;
    Atom::new(1, Position { x: unit(x), y: unit(y), z: unit(z) }).unwrap()
}

fn unknown(symbol: &str) -> XyzError {
    XyzError::UnknownElementSymbol(UnknownElementSymbol { symbol: String::from(symbol) })
}

#[test]
fn atom_test_atom_init_from_line() {
    let expected_atom = Atom::new(
        1,
        Position { x: (0.0f64 * 1.0e6) as i32, y: (1.0f64 * 1.0e6) as i32, z: (2.0f64 * 1.0e6) as i32 },
    )
    .unwrap();
    assert_eq!(Atom::from_line("H  0.0  1.0  2.0"), Ok(expected_atom));
    assert_eq!(Atom::from_line("H  0.0000  1.00  2.0"), Ok(expected_atom));
    assert_eq!(Atom::from_line("H  0.0000     1.00 2.0"), Ok(expected_atom));
}

#[test]
fn molecule_test_atom_init_from_line() {
    let expected_molecule = Molecule::build(vec![
        Atom::new(1, Position { x: 0, y: 1_000_000, z: 2_000_000 }).unwrap(),
        Atom::new(6, Position { x: 5_000_000, y: 1_100_000, z: 0 }).unwrap(),
    ]);
    assert!(expected_molecule.bonds().is_empty());
    assert_eq!(
        Molecule::from_xyz_file("2\n\nH  0.0  1.0  2.0\nC 5.0  1.1 0.0\n\n"),
        Ok(expected_molecule)
    );
}

#[test]
fn test_dos_and_unix_line_returns_are_parsed() {
    assert_eq!(
        Molecule::from_xyz_file("1\n\nH  0.0  1.0  2.0"),
        Molecule::from_xyz_file("1\r\n\r\nH  0.0  1.0  2.0"),
    );
    assert_eq!(
        Molecule::from_xyz_file("1\n\nH  0.0  1.0  2.0").unwrap().atoms(),
        &vec![hydrogen_at(0.0, 1.0, 2.0)]
    );
}

#[test]
fn characters_and_back() {
    assert_eq!(characters("H 1.0"), vec!['H', ' ', '1', '.', '0']);
    assert_eq!(characters(""), Vec::<char>::new());
    assert_eq!(characters("Å\u{3000}é"), vec!['Å', '\u{3000}', 'é']);
    assert_eq!(text_of(&vec!['X', 'x']), "Xx");
    assert_eq!(text_of(&Vec::new()), "");
    assert_eq!(text_of(&characters("2\n\nHé 0")), "2\n\nHé 0");
}

#[test]
fn whitespace_is_what_the_standard_library_takes_for_it() {
    for code in 0..=0x10ffffu32 {
        if let Some(c) = char::from_u32(code) {
            assert_eq!(whitespace(c), c.is_whitespace(), "U+{:04X}", code);
        }
    }
}

#[test]
fn digits_have_their_values() {
    for (value, c) in "0123456789".chars().enumerate() {
        assert_eq!(digit(c), Some(value as u8));
    }
    assert_eq!(digit('/'), None);
    assert_eq!(digit(':'), None);
    assert_eq!(digit('a'), None);
    assert_eq!(digit('٣'), None);
}

#[test]
fn lines_are_split_at_newlines() {
    assert_eq!(texts(&lines_of(&chars("a\nbc\n\nd"))), vec!["a", "bc", "", "d"]);
    assert_eq!(texts(&lines_of(&chars(""))), vec![""]);
    assert_eq!(texts(&lines_of(&chars("\n"))), vec!["", ""]);
    assert_eq!(texts(&lines_of(&chars("one"))), vec!["one"]);
    assert_eq!(texts(&lines_of(&chars("one\n"))), vec!["one", ""]);
}

#[test]
fn lines_lose_their_carriage_returns() {
    assert_eq!(texts(&lines_of(&chars("a\r\nb\r\n"))), vec!["a", "b", ""]);
    assert_eq!(texts(&lines_of(&chars("a\rb\nc"))), vec!["ab", "c"]);
    assert_eq!(texts(&lines_of(&chars("\r\r"))), vec![""]);
}

#[test]
fn lines_are_split_as_the_standard_library_splits() {
    for text in ["", "\n", "1\n\nH 0 0 0", "a\r\nb\r\n\r\n", "x\n\n\ny\n", "\r"] {
        let cleaned = text.replace("\r", "");
        let wanted: Vec<&str> = cleaned.split("\n").collect();
        assert_eq!(texts(&lines_of(&chars(text))), wanted);
    }
}

#[test]
fn blank_lines_hold_white_space_only() {
    assert!(blank(&chars("")));
    assert!(blank(&chars("   ")));
    assert!(blank(&chars(" \t\u{a0}\u{3000}")));
    assert!(!blank(&chars("  H ")));
    assert!(!blank(&chars(".")));
}

#[test]
fn blank_lines_are_those_that_trim_to_nothing() {
    for line in ["", " ", "\t\t", " x ", "\u{2003}", "\u{2003}.", "0", "\u{85}\u{1680}"] {
        assert_eq!(blank(&chars(line)), line.trim().is_empty(), "{:?}", line);
        assert_eq!(blank(&chars(line)), fields_of(&chars(line)).is_empty(), "{:?}", line);
    }
}

#[test]
fn fields_are_split_at_white_space() {
    assert_eq!(texts(&fields_of(&chars("H  0.0  1.0  2.0"))), vec!["H", "0.0", "1.0", "2.0"]);
    assert_eq!(texts(&fields_of(&chars("  C\t5.0 \u{a0}1.1 0.0  "))), vec!["C", "5.0", "1.1", "0.0"]);
    assert_eq!(texts(&fields_of(&chars("one"))), vec!["one"]);
    assert!(fields_of(&chars("")).is_empty());
    assert!(fields_of(&chars(" \t ")).is_empty());
}

#[test]
fn fields_are_split_as_the_standard_library_splits() {
    for line in ["", " ", "a", " a", "a ", "a b", "  ab   c \t d\u{2003}e  ", "H 0 0 0 extra"] {
        let wanted: Vec<&str> = line.split_whitespace().collect();
        assert_eq!(texts(&fields_of(&chars(line))), wanted);
    }
}

#[test]
fn first_of_two_characters_is_found() {
    assert_eq!(find_either(&chars("12e5"), 'e', 'E'), 2);
    assert_eq!(find_either(&chars("12E5e1"), 'e', 'E'), 2);
    assert_eq!(find_either(&chars("125"), 'e', 'E'), 3);
    assert_eq!(find_either(&chars(""), '.', '.'), 0);
    assert_eq!(find_either(&chars(".5"), '.', '.'), 0);
}

#[test]
fn part_of_a_text() {
    assert_eq!(part(&chars("hello"), 1, 3), chars("el"));
    assert_eq!(part(&chars("hello"), 0, 5), chars("hello"));
    assert_eq!(part(&chars("hello"), 2, 2), chars(""));
}

#[test]
fn digits_only_in_digit_strings() {
    assert!(digits_only(&chars("0123456789")));
    assert!(digits_only(&chars("")));
    assert!(!digits_only(&chars("12a")));
    assert!(!digits_only(&chars("-1")));
    assert!(!digits_only(&chars("1.0")));
}

#[test]
fn numbers_within_a_limit() {
    assert_eq!(number_within(&chars("0"), 10), Some(0));
    assert_eq!(number_within(&chars("007"), 10), Some(7));
    assert_eq!(number_within(&chars("10"), 10), Some(10));
    assert_eq!(number_within(&chars("11"), 10), None);
    assert_eq!(number_within(&chars(""), 10), Some(0));
    assert_eq!(number_within(&chars("1x"), 10), None);
    assert_eq!(
        number_within(&chars("1267650600228229401496703205376"), EXPONENT_BOUND as u128),
        Some(1_267_650_600_228_229_401_496_703_205_376)
    );
    assert_eq!(number_within(&chars("1267650600228229401496703205377"), EXPONENT_BOUND as u128), None);
    assert_eq!(
        number_within(&chars("99999999999999999999999999999999999999999999"), EXPONENT_BOUND as u128),
        None
    );
}

#[test]
fn counts_are_digits_with_at_most_a_plus() {
    assert_eq!(parse_count(&chars("0")), Some(0));
    assert_eq!(parse_count(&chars("2")), Some(2));
    assert_eq!(parse_count(&chars("+12")), Some(12));
    assert_eq!(parse_count(&chars("0012")), Some(12));
    assert_eq!(parse_count(&chars("")), None);
    assert_eq!(parse_count(&chars("+")), None);
    assert_eq!(parse_count(&chars("-")), None);
    assert_eq!(parse_count(&chars("-0")), None);
    assert_eq!(parse_count(&chars("-3")), None);
    assert_eq!(parse_count(&chars(" 2")), None);
    assert_eq!(parse_count(&chars("2 ")), None);
    assert_eq!(parse_count(&chars("2.0")), None);
    assert_eq!(parse_count(&chars("two")), None);
    assert_eq!(parse_count(&chars("++2")), None);
}

#[test]
fn counts_are_read_as_the_standard_library_reads_them() {
    let largest = usize::MAX.to_string();
    let too_large = format!("{}0", usize::MAX);
    let next = format!("{}", usize::MAX as u128 + 1);
    for text in
        ["0", "1", "+7", "-7", "", "+", "-", "00", "18446744073709551615", "4294967295", "4294967296", "1e3", "٣"]
            .iter()
            .copied()
            .chain([largest.as_str(), too_large.as_str(), next.as_str()])
    {
        assert_eq!(parse_count(&chars(text)), text.parse::<usize>().ok(), "{:?}", text);
    }
}

#[test]
fn exponents_are_signed_whole_numbers() {
    assert_eq!(parse_exponent(&chars("0")), Some(0));
    assert_eq!(parse_exponent(&chars("12")), Some(12));
    assert_eq!(parse_exponent(&chars("+12")), Some(12));
    assert_eq!(parse_exponent(&chars("-12")), Some(-12));
    assert_eq!(parse_exponent(&chars("-0")), Some(0));
    assert_eq!(parse_exponent(&chars("")), None);
    assert_eq!(parse_exponent(&chars("-")), None);
    assert_eq!(parse_exponent(&chars("1.5")), None);
    assert_eq!(parse_exponent(&chars("--1")), None);
}

#[test]
fn exponents_are_held_at_the_bound() {
    assert_eq!(
        parse_exponent(&chars("1267650600228229401496703205375")),
        Some(EXPONENT_BOUND - 1)
    );
    assert_eq!(parse_exponent(&chars("1267650600228229401496703205376")), Some(EXPONENT_BOUND));
    assert_eq!(parse_exponent(&chars("9999999999999999999999999999999999999")), Some(EXPONENT_BOUND));
    assert_eq!(
        parse_exponent(&chars("-9999999999999999999999999999999999999")),
        Some(-EXPONENT_BOUND)
    );
}

#[test]
fn shifted_digits() {
    assert_eq!(shifted(&chars("12345"), 0, 1_000_000), Some(0));
    assert_eq!(shifted(&chars("12345"), -3, 1_000_000), Some(0));
    assert_eq!(shifted(&chars("12345"), 2, 1_000_000), Some(12));
    assert_eq!(shifted(&chars("12345"), 5, 1_000_000), Some(12345));
    assert_eq!(shifted(&chars("12345"), 6, 1_000_000), Some(123450));
    assert_eq!(shifted(&chars("12345"), 7, 1_000_000), None);
    assert_eq!(shifted(&chars("1"), 7, 1_000_000), Some(1_000_000));
    assert_eq!(shifted(&chars("000"), 1_000_000_000_000, 1_000_000), Some(0));
    assert_eq!(shifted(&chars("001"), 1_000_000_000_000, 1_000_000), None);
    assert_eq!(shifted(&chars(""), 4, 1_000_000), Some(0));
    assert_eq!(shifted(&chars("1x"), 1, 1_000_000), None);
    assert_eq!(shifted(&chars("1x"), 0, 1_000_000), None);
}

#[test]
fn coordinates_are_decimal_numbers_of_angstroms() {
    assert_eq!(coordinate("0.0"), Some(0));
    assert_eq!(coordinate("0.0000"), Some(0));
    assert_eq!(coordinate("1.0"), Some(1_000_000));
    assert_eq!(coordinate("1.00"), Some(1_000_000));
    assert_eq!(coordinate("2"), Some(2_000_000));
    assert_eq!(coordinate("5.0"), Some(5_000_000));
    assert_eq!(coordinate("1.1"), Some(1_100_000));
    assert_eq!(coordinate("0.74"), Some(740_000));
    assert_eq!(coordinate("-1.234567"), Some(-1_234_567));
    assert_eq!(coordinate("+1.234567"), Some(1_234_567));
    assert_eq!(coordinate("007.5"), Some(7_500_000));
    assert_eq!(coordinate(".5"), Some(500_000));
    assert_eq!(coordinate("5."), Some(5_000_000));
    assert_eq!(coordinate("-.5"), Some(-500_000));
    assert_eq!(coordinate("-0.0"), Some(0));
}

#[test]
fn coordinates_drop_places_past_the_sixth() {
    assert_eq!(coordinate("0.1234567"), Some(123_456));
    assert_eq!(coordinate("0.9999999"), Some(999_999));
    assert_eq!(coordinate("-0.9999999"), Some(-999_999));
    assert_eq!(coordinate("0.0000009"), Some(0));
    assert_eq!(coordinate("-0.0000009"), Some(0));
    assert_eq!(coordinate("1.00000000000000000000000000000000000001"), Some(1_000_000));
}

#[test]
fn coordinates_may_carry_an_exponent() {
    assert_eq!(coordinate("1e0"), Some(1_000_000));
    assert_eq!(coordinate("1.5e1"), Some(15_000_000));
    assert_eq!(coordinate("1.5E+1"), Some(15_000_000));
    assert_eq!(coordinate("1.5e-1"), Some(150_000));
    assert_eq!(coordinate("-7.4E-01"), Some(-740_000));
    assert_eq!(coordinate("1234567e-6"), Some(1_234_567));
    assert_eq!(coordinate("1234567e-7"), Some(123_456));
    assert_eq!(coordinate("1e-6"), Some(1));
    assert_eq!(coordinate("1e-7"), Some(0));
    assert_eq!(coordinate(".5e1"), Some(5_000_000));
    assert_eq!(coordinate("5.e-1"), Some(500_000));
    assert_eq!(coordinate("0.000001e6"), Some(1_000_000));
    assert_eq!(coordinate("1e3"), Some(1_000_000_000));
    assert_eq!(coordinate("1e4"), None);
}

#[test]
fn coordinates_with_far_exponents() {
    assert_eq!(coordinate("0e99999999999999999999999999999999999999"), Some(0));
    assert_eq!(coordinate("0.000e99999999999999999999999999999999999999"), Some(0));
    assert_eq!(coordinate("1e99999999999999999999999999999999999999"), None);
    assert_eq!(coordinate("1e-99999999999999999999999999999999999999"), Some(0));
    assert_eq!(coordinate("-1e-99999999999999999999999999999999999999"), Some(0));
    assert_eq!(coordinate("0e-99999999999999999999999999999999999999"), Some(0));
}

#[test]
fn coordinates_stay_in_range() {
    assert_eq!(coordinate("2147.483647"), Some(i32::MAX));
    assert_eq!(coordinate("-2147.483647"), Some(-i32::MAX));
    assert_eq!(coordinate("2147.4836479"), Some(i32::MAX));
    assert_eq!(coordinate("2147.483648"), None);
    assert_eq!(coordinate("-2147.483648"), None);
    assert_eq!(coordinate("99999"), None);
    assert_eq!(coordinate("99999999999999999999999999999999999999999999"), None);
}

#[test]
fn what_is_no_decimal_number_is_no_coordinate() {
    for text in [
        "", "+", "-", ".", "-.", "e5", ".e5", "1e", "1e+", "1e-", "1e1.5", "1e5e5", "1.2.3", "1,5", "abc",
        "1x", "x1", "--1", "+-1", "1-", "1 ", " 1", "0x10", "inf", "-inf", "infinity", "nan", "NaN", "1_000",
        "١",
    ] {
        assert_eq!(coordinate(text), None, "{:?}", text);
    }
}

#[test]
fn coordinates_agree_with_floating_point_reading() {
    for text in [
        "0.0", "1.0", "2.0", "5.0", "1.1", "0.74", "-3.25", "+12.5", "1e-3", "2.5E2", ".125", "100.", "-0.000001",
        "1234.567891",
    ] {
        let read: f64 = text.parse().unwrap();
        let ours = coordinate(text).unwrap();
        assert!((read * 1.0e6 - ours as f64).abs() < 1.0, "{:?}", text);
    }
}

#[test]
fn atom_line_with_fewer_coordinates_fills_in_zero() {
    assert_eq!(Atom::from_line("H"), Ok(hydrogen_at(0.0, 0.0, 0.0)));
    assert_eq!(Atom::from_line("H 1.5"), Ok(hydrogen_at(1.5, 0.0, 0.0)));
    assert_eq!(Atom::from_line("H 1.5 2.5"), Ok(hydrogen_at(1.5, 2.5, 0.0)));
}

#[test]
fn atom_line_with_more_columns_leaves_them_unread() {
    assert_eq!(Atom::from_line("H 1.0 2.0 3.0 4.0 comment"), Ok(hydrogen_at(1.0, 2.0, 3.0)));
    assert_eq!(Atom::from_line("H 1.0 2.0 3.0 not-a-number"), Ok(hydrogen_at(1.0, 2.0, 3.0)));
}

#[test]
fn atom_line_with_leading_and_trailing_space() {
    assert_eq!(Atom::from_line("   H\t1.0  2.0\t3.0  "), Ok(hydrogen_at(1.0, 2.0, 3.0)));
}

#[test]
fn atom_line_with_unknown_symbol_fails() {
    assert_eq!(Atom::from_line("Xx 0.0 0.0 0.0"), Err(unknown("Xx")));
    assert_eq!(Atom::from_line("h 0.0 0.0 0.0"), Err(unknown("h")));
    assert_eq!(Atom::from_line("1.0 2.0 3.0"), Err(unknown("1.0")));
}

#[test]
fn blank_atom_line_has_no_symbol() {
    assert_eq!(Atom::from_line(""), Err(unknown("")));
    assert_eq!(Atom::from_line("  \t "), Err(unknown("")));
}

#[test]
fn atom_line_with_bad_coordinate_fails() {
    assert_eq!(Atom::from_line("H x 0.0 0.0"), Err(XyzError::InvalidCoordinate));
    assert_eq!(Atom::from_line("H 0.0 y 0.0"), Err(XyzError::InvalidCoordinate));
    assert_eq!(Atom::from_line("H 0.0 0.0 z"), Err(XyzError::InvalidCoordinate));
    assert_eq!(Atom::from_line("H 0.0 0.0 1e9"), Err(XyzError::InvalidCoordinate));
    assert_eq!(Atom::from_line("H nan 0.0 0.0"), Err(XyzError::InvalidCoordinate));
}

#[test]
fn unknown_symbol_comes_before_bad_coordinate() {
    assert_eq!(Atom::from_line("Xx x y z"), Err(unknown("Xx")));
}

#[test]
fn water_from_text() {
    let text = "3\nwater\nO  0.000  0.000  0.000\nH  0.757  0.586  0.000\nH -0.757  0.586  0.000\n";
    let molecule = Molecule::from_xyz_file(text).unwrap();
    assert_eq!(molecule.atoms().len(), 3);
    assert_eq!(molecule.atoms()[0].atomic_number(), 8);
    assert_eq!(molecule.atoms()[2].position(), Position { x: -757_000, y: 586_000, z: 0 });
    assert_eq!(molecule.bonds().len(), 2);
    assert!(molecule.has_bond(0, 1));
    assert!(molecule.has_bond(0, 2));
    assert!(!molecule.has_bond(1, 2));
}

#[test]
fn hydrogen_molecule_from_text() {
    let bonded = Molecule::from_xyz_file("2\nH2\nH 0 0 0\nH 0 0 0.74\n").unwrap();
    assert_eq!(bonded.bonds().len(), 1);
    assert!(bonded.has_bond(0, 1));
    let apart = Molecule::from_xyz_file("2\nH2\nH 0 0 0\nH 0 0 5.0\n").unwrap();
    assert!(apart.bonds().is_empty());
}

#[test]
fn blank_lines_among_the_atoms_are_passed_over() {
    let text = "2\ntitle\n\nH 0 0 0\n   \n\t\nH 0 0 0.74\n\n\n";
    let molecule = Molecule::from_xyz_file(text).unwrap();
    assert_eq!(molecule.atoms(), &vec![hydrogen_at(0.0, 0.0, 0.0), hydrogen_at(0.0, 0.0, 0.74)]);
}

#[test]
fn title_line_is_not_read() {
    let plain = Molecule::from_xyz_file("1\n\nH 0 0 0").unwrap();
    assert_eq!(Molecule::from_xyz_file("1\nXx 1 2 3\nH 0 0 0"), Ok(Molecule::build(vec![hydrogen_at(0.0, 0.0, 0.0)])));
    assert_eq!(Molecule::from_xyz_file("1\nénergie: Å \u{1F600}\nH 0 0 0").unwrap(), plain);
}

#[test]
fn text_without_atoms() {
    assert_eq!(Molecule::from_xyz_file("0"), Ok(Molecule::default()));
    assert_eq!(Molecule::from_xyz_file("0\n"), Ok(Molecule::default()));
    assert_eq!(Molecule::from_xyz_file("0\ntitle"), Ok(Molecule::default()));
    assert_eq!(Molecule::from_xyz_file("0\ntitle\n\n \n"), Ok(Molecule::default()));
}

#[test]
fn text_without_a_count_fails() {
    assert_eq!(Molecule::from_xyz_file(""), Err(XyzError::InvalidAtomCount));
    assert_eq!(Molecule::from_xyz_file("\n\nH 0 0 0"), Err(XyzError::InvalidAtomCount));
    assert_eq!(Molecule::from_xyz_file("two\n\nH 0 0 0\nH 0 0 1"), Err(XyzError::InvalidAtomCount));
    assert_eq!(Molecule::from_xyz_file(" 1\n\nH 0 0 0"), Err(XyzError::InvalidAtomCount));
    assert_eq!(Molecule::from_xyz_file("1 \n\nH 0 0 0"), Err(XyzError::InvalidAtomCount));
    assert_eq!(Molecule::from_xyz_file("-1\n\nH 0 0 0"), Err(XyzError::InvalidAtomCount));
}

#[test]
fn text_with_another_count_than_atoms_fails() {
    assert_eq!(
        Molecule::from_xyz_file("3\n\nH 0 0 0\nH 0 0 1"),
        Err(XyzError::AtomCountMismatch { declared: 3, found: 2 })
    );
    assert_eq!(
        Molecule::from_xyz_file("1\n\nH 0 0 0\nH 0 0 1"),
        Err(XyzError::AtomCountMismatch { declared: 1, found: 2 })
    );
    assert_eq!(Molecule::from_xyz_file("1"), Err(XyzError::AtomCountMismatch { declared: 1, found: 0 }));
    assert_eq!(
        Molecule::from_xyz_file("1\nH 0 0 0"),
        Err(XyzError::AtomCountMismatch { declared: 1, found: 0 })
    );
}

#[test]
fn text_with_unknown_symbol_builds_no_molecule() {
    assert_eq!(Molecule::from_xyz_file("2\n\nH 0 0 0\nXx 0 0 0.74"), Err(unknown("Xx")));
}

#[test]
fn first_failing_line_gives_the_error() {
    assert_eq!(
        Molecule::from_xyz_file("3\n\nH 0 0 0\nH 0 0 bad\nXx 0 0 0"),
        Err(XyzError::InvalidCoordinate)
    );
    assert_eq!(Molecule::from_xyz_file("3\n\nH 0 0 0\nXx 0 0 0\nH 0 0 bad"), Err(unknown("Xx")));
}

#[test]
fn count_is_read_before_the_atoms() {
    assert_eq!(Molecule::from_xyz_file("x\n\nXx 0 0 0"), Err(XyzError::InvalidAtomCount));
}

#[test]
fn failing_line_comes_before_the_count_of_lines() {
    assert_eq!(Molecule::from_xyz_file("5\n\nH 0 0 0\nXx 0 0 0"), Err(unknown("Xx")));
}

#[test]
fn carriage_return_inside_a_line_is_dropped() {
    assert_eq!(Molecule::from_xyz_file("1\n\nH\r 0 0\r 0"), Molecule::from_xyz_file("1\n\nH 0 0 0"));
    assert_eq!(Molecule::from_xyz_file("1\n\nX\rx 0 0 0"), Err(unknown("Xx")));
}
