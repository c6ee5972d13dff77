//! The XYZ coordinate format: a count of atoms, a title line, and one line
//! for each atom with its element symbol and its coordinates in ångströms.
//!
//! Here is the grammar, as functions on sequences of characters; `Atom` and
//! `Molecule` build on it.

use vstd::prelude::*;
use vstd::arithmetic::power::{lemma_pow_increases, lemma_pow_positive, pow};
use crate::elements::{is_known_symbol, UnknownElementSymbol};
use crate::position::Position;

verus! {

/// Why a coordinate text could not be read as a molecule.
#[derive(Debug, PartialEq, Eq)]
pub enum XyzError {
    /// The first line is not a count of atoms.
    InvalidAtomCount,
    /// An atom line begins with a symbol that names no known element.
    UnknownElementSymbol(UnknownElementSymbol),
    /// A coordinate of an atom line is not a decimal number, or is out of
    /// range.
    InvalidCoordinate,
    /// The text holds another number of atom lines than its first line
    /// declares.
    AtomCountMismatch { declared: usize, found: usize },
}

/// Whether `c` is white space: a character with the Unicode property
/// `White_Space`.
pub open spec fn is_whitespace(c: char) -> bool {
    let u = c as u32;
    ||| 0x09 <= u <= 0x0d
    ||| u == 0x20
    ||| u == 0x85
    ||| u == 0xa0
    ||| u == 0x1680
    ||| 0x2000 <= u <= 0x200a
    ||| u == 0x2028
    ||| u == 0x2029
    ||| u == 0x202f
    ||| u == 0x205f
    ||| u == 0x3000
}

/// Whether `c` is one of the digits `0` to `9`.
pub open spec fn is_digit(c: char) -> bool {
    '0' <= c <= '9'
}

/// The number that the digit `c` stands for.
pub open spec fn digit_value(c: char) -> int {
    c as u32 - '0' as u32
}

/// The test that every character but a carriage return passes.
pub open spec fn is_no_return() -> spec_fn(char) -> bool {
    |c: char| c != '\r'
}

/// `text` without its carriage returns.
pub open spec fn without_returns(text: Seq<char>) -> Seq<char> {
    text.filter(is_no_return())
}

/// The lines of `text`: what stands between its newlines. A text with `n`
/// newlines has `n + 1` lines, the last of them empty where the text ends in
/// a newline.
pub open spec fn split_lines(text: Seq<char>) -> Seq<Seq<char>>
    decreases text.len(),
{
    if text.len() == 0 {
        seq![Seq::<char>::empty()]
    } else {
        let before = split_lines(text.drop_last());
        if text.last() == '\n' {
            before.push(Seq::<char>::empty())
        } else {
            before.update(before.len() - 1, before.last().push(text.last()))
        }
    }
}

/// Whether `c` is white space.
pub fn whitespace(c: char) -> (r: bool)
    ensures
        r == is_whitespace(c),
{
    let u: u32 = c as u32;
    (0x09 <= u && u <= 0x0d) || u == 0x20 || u == 0x85 || u == 0xa0 || u == 0x1680 || (0x2000 <= u
        && u <= 0x200a) || u == 0x2028 || u == 0x2029 || u == 0x202f || u == 0x205f || u == 0x3000
}

/// The number that `c` stands for, if it is a digit.
pub fn digit(c: char) -> (r: Option<u8>)
    ensures
        r is Some <==> is_digit(c),
        r matches Some(d) ==> d == digit_value(c) && d <= 9,
{
    if '0' <= c && c <= '9' {
        Some((c as u32 - '0' as u32) as u8)
    } else {
        None
    }
}

/// What a list of lines or of fields holds: the characters of each.
pub open spec fn views(rows: Seq<Vec<char>>) -> Seq<Seq<char>> {
    rows.map_values(|row: Vec<char>| row@)
}

/// The lines of `text`, carriage returns left out: lines may end in a
/// newline alone or in a carriage return and a newline.
pub fn lines_of(text: &Vec<char>) -> (lines: Vec<Vec<char>>)
    ensures
        lines@.len() >= 1,
        views(lines@) == split_lines(without_returns(text@)),
{
    let ghost kept = is_no_return();
    let mut lines: Vec<Vec<char>> = Vec::new();
    let mut current: Vec<char> = Vec::new();
    let mut i: usize = 0;
    proof {
        text@.take(0).lemma_filter_len(kept);
    }
    while i < text.len()
        invariant
            0 <= i <= text.len(),
            kept == is_no_return(),
            views(lines@).push(current@) == split_lines(
                text@.take(i as int).filter(kept),
            ),
        decreases text.len() - i,
    {
        let c: char = text[i];
        let ghost done = views(lines@);
        let ghost seen = text@.take(i as int).filter(kept);
        proof {
            text@.lemma_take_succ_push(i as int);
            text@.take(i as int).lemma_filter_push(c, kept);
        }
        if c == '\n' {
            assert(seen.push(c).drop_last() =~= seen);
            lines.push(current);
            current = Vec::new();
            assert(views(lines@) =~= done.push(
                lines@.last()@,
            ));
        } else if c != '\r' {
            assert(seen.push(c).drop_last() =~= seen);
            current.push(c);
            assert(done.push(current@) =~= done.push(current@.drop_last()).update(
                done.len() as int,
                current@,
            ));
        }
        i = i + 1;
    }
    proof {
        text@.lemma_take_len();
    }
    let ghost done = views(lines@);
    lines.push(current);
    assert(views(lines@) =~= done.push(current@));
    lines
}

/// Whether a line holds nothing but white space.
pub open spec fn is_blank(line: Seq<char>) -> bool {
    forall|k: int| 0 <= k < line.len() ==> is_whitespace(#[trigger] line[k])
}

/// The fields of a line: its runs of characters other than white space, in
/// order.
pub open spec fn fields(line: Seq<char>) -> Seq<Seq<char>>
    decreases line.len(),
{
    if line.len() == 0 {
        Seq::<Seq<char>>::empty()
    } else {
        let before = fields(line.drop_last());
        if is_whitespace(line.last()) {
            before
        } else if line.len() >= 2 && !is_whitespace(line[line.len() - 2]) {
            before.update(before.len() - 1, before.last().push(line.last()))
        } else {
            before.push(seq![line.last()])
        }
    }
}

/// A line that does not end in white space has a last field, which is not
/// empty; a blank line has no field at all.
pub proof fn lemma_fields(line: Seq<char>)
    ensures
        line.len() > 0 && !is_whitespace(line.last()) ==> fields(line).len() >= 1 && fields(
            line,
        ).last().len() >= 1,
        is_blank(line) <==> fields(line).len() == 0,
    decreases line.len(),
{
    if line.len() > 0 {
        let shorter = line.drop_last();
        lemma_fields(shorter);
        if is_blank(line) {
            assert forall|k: int| 0 <= k < shorter.len() implies is_whitespace(
                #[trigger] shorter[k],
            ) by {
                assert(shorter[k] == line[k]);
            }
        }
        if is_blank(shorter) && is_whitespace(line.last()) {
            assert forall|k: int| 0 <= k < line.len() implies is_whitespace(#[trigger] line[k]) by {
                if k < shorter.len() {
                    assert(shorter[k] == line[k]);
                }
            }
        }
        if !is_whitespace(line.last()) {
            assert(!is_whitespace(line[line.len() - 1]));
        }
    }
}

/// Whether a line holds nothing but white space, and so has no fields.
pub fn blank(line: &Vec<char>) -> (r: bool)
    ensures
        r == is_blank(line@),
        r == (fields(line@).len() == 0),
{
    proof {
        lemma_fields(line@);
    }
    let mut i: usize = 0;
    while i < line.len()
        invariant
            0 <= i <= line.len(),
            is_blank(line@) <==> fields(line@).len() == 0,
            forall|k: int| 0 <= k < i ==> is_whitespace(#[trigger] line@[k]),
        decreases line.len() - i,
    {
        if !whitespace(line[i]) {
            assert(!is_whitespace(line@[i as int]));
            return false;
        }
        i = i + 1;
    }
    true
}

/// The fields of a line, split at white space.
pub fn fields_of(line: &Vec<char>) -> (r: Vec<Vec<char>>)
    ensures
        views(r@) == fields(line@),
{
    let mut done: Vec<Vec<char>> = Vec::new();
    let mut current: Vec<char> = Vec::new();
    let mut i: usize = 0;
    while i < line.len()
        invariant
            0 <= i <= line.len(),
            current@.len() > 0 <==> i > 0 && !is_whitespace(line@[i - 1]),
            fields(line@.take(i as int)) == if current@.len() > 0 {
                views(done@).push(current@)
            } else {
                views(done@)
            },
        decreases line.len() - i,
    {
        let c: char = line[i];
        let ghost seen = line@.take(i as int);
        let ghost closed = views(done@);
        proof {
            line@.lemma_take_succ_push(i as int);
            assert(seen.push(c).drop_last() =~= seen);
        }
        if whitespace(c) {
            if current.len() > 0 {
                done.push(current);
                current = Vec::new();
                assert(views(done@) =~= closed.push(done@.last()@));
            }
        } else {
            current.push(c);
            proof {
                if i > 0 && !is_whitespace(line@[i - 1]) {
                    assert(seen.push(c)[seen.push(c).len() - 2] == line@[i - 1]);
                    assert(closed.push(current@) =~= closed.push(current@.drop_last()).update(
                        closed.len() as int,
                        current@,
                    ));
                } else {
                    if i > 0 {
                        assert(seen.push(c)[seen.push(c).len() - 2] == line@[i - 1]);
                    }
                    assert(current@ =~= seq![c]);
                }
            }
        }
        i = i + 1;
    }
    proof {
        line@.lemma_take_len();
    }
    if current.len() > 0 {
        let ghost closed = views(done@);
        done.push(current);
        assert(views(done@) =~= closed.push(done@.last()@));
    }
    done
}

/// Whether every character of `text` is a digit.
pub open spec fn all_digits(text: Seq<char>) -> bool {
    forall|k: int| 0 <= k < text.len() ==> is_digit(#[trigger] text[k])
}

/// The number that a sequence of digits stands for in base ten; zero for
/// the empty sequence.
pub open spec fn digits_value(digits: Seq<char>) -> int
    decreases digits.len(),
{
    if digits.len() == 0 {
        0
    } else {
        10 * digits_value(digits.drop_last()) + digit_value(digits.last())
    }
}

/// More digits never stand for a lesser number.
pub proof fn lemma_digits_value_grows(digits: Seq<char>, shorter: int)
    requires
        all_digits(digits),
        0 <= shorter <= digits.len(),
    ensures
        0 <= digits_value(digits.take(shorter)) <= digits_value(digits),
    decreases digits.len(),
{
    if shorter == digits.len() {
        assert(digits.take(shorter) =~= digits);
    }
    if digits.len() > 0 {
        let most = digits.drop_last();
        assert(is_digit(digits[digits.len() - 1]));
        assert forall|k: int| 0 <= k < most.len() implies is_digit(#[trigger] most[k]) by {
            assert(most[k] == digits[k]);
        }
        if shorter < digits.len() {
            lemma_digits_value_grows(most, shorter);
            assert(most.take(shorter) =~= digits.take(shorter));
        }
        lemma_digits_value_grows(most, most.len() as int);
    } else {
        assert(digits.take(shorter) =~= digits);
    }
}

/// The index of the first character of `text` that passes the test
/// `wanted`, or the length of `text` where none does.
pub open spec fn first_index(text: Seq<char>, wanted: spec_fn(char) -> bool) -> int
    decreases text.len(),
{
    if text.len() == 0 || wanted(text[0]) {
        0
    } else {
        1 + first_index(text.drop_first(), wanted)
    }
}

/// `first_index` is the one index in range before which no character passes
/// the test, and at which one does unless it is the end.
pub proof fn lemma_first_index(text: Seq<char>, wanted: spec_fn(char) -> bool, at: int)
    requires
        0 <= at <= text.len(),
        forall|k: int| 0 <= k < at ==> !wanted(#[trigger] text[k]),
        at < text.len() ==> wanted(text[at]),
    ensures
        first_index(text, wanted) == at,
    decreases text.len(),
{
    if text.len() > 0 && at > 0 {
        assert(!wanted(text[0]));
        let rest = text.drop_first();
        assert forall|k: int| 0 <= k < at - 1 implies !wanted(#[trigger] rest[k]) by {
            assert(rest[k] == text[k + 1]);
        }
        lemma_first_index(rest, wanted, at - 1);
    }
}

/// The test that the characters `a` and `b` pass, and no other.
pub open spec fn is_either(a: char, b: char) -> spec_fn(char) -> bool {
    |c: char| c == a || c == b
}

/// The index of the first `a` or `b` in `text`, or the length of `text`.
pub fn find_either(text: &Vec<char>, a: char, b: char) -> (at: usize)
    ensures
        at == first_index(text@, is_either(a, b)),
        at <= text.len(),
{
    let mut at: usize = 0;
    while at < text.len() && !(text[at] == a || text[at] == b)
        invariant
            0 <= at <= text.len(),
            forall|k: int| 0 <= k < at ==> !is_either(a, b)(#[trigger] text@[k]),
        decreases text.len() - at,
    {
        at = at + 1;
    }
    proof {
        lemma_first_index(text@, is_either(a, b), at as int);
    }
    at
}

/// The characters of `text` from index `from` up to, not including, index
/// `to`.
pub fn part(text: &Vec<char>, from: usize, to: usize) -> (r: Vec<char>)
    requires
        from <= to <= text.len(),
    ensures
        r@ == text@.subrange(from as int, to as int),
{
    let mut out: Vec<char> = Vec::new();
    let mut i: usize = from;
    while i < to
        invariant
            from <= i <= to <= text.len(),
            out@ == text@.subrange(from as int, i as int),
        decreases to - i,
    {
        out.push(text[i]);
        assert(out@ =~= text@.subrange(from as int, i + 1));
        i = i + 1;
    }
    assert(out@ =~= text@.subrange(from as int, to as int));
    out
}

/// Whether every character of `text` is a digit.
pub fn digits_only(text: &Vec<char>) -> (r: bool)
    ensures
        r == all_digits(text@),
{
    let mut i: usize = 0;
    while i < text.len()
        invariant
            0 <= i <= text.len(),
            forall|k: int| 0 <= k < i ==> is_digit(#[trigger] text@[k]),
        decreases text.len() - i,
    {
        if digit(text[i]).is_none() {
            return false;
        }
        i = i + 1;
    }
    true
}

/// A coordinate is read to this many decimal places of an ångström: to the
/// micro-ångström.
pub const DECIMAL_PLACES: i128 = 6;

/// Exponents are reckoned exactly below this bound and count as the bound
/// from there on: so far out the outcome no longer depends on them.
pub const EXPONENT_BOUND: i128 = 0x10_0000_0000_0000_0000_0000_0000;

/// Whether `text` begins with a plus or a minus sign.
pub open spec fn has_sign(text: Seq<char>) -> bool {
    text.len() > 0 && (text[0] == '+' || text[0] == '-')
}

/// Whether `text` begins with a minus sign.
pub open spec fn is_negative(text: Seq<char>) -> bool {
    text.len() > 0 && text[0] == '-'
}

/// `text` without its sign, if it begins with one.
pub open spec fn unsigned_part(text: Seq<char>) -> Seq<char> {
    if has_sign(text) {
        text.skip(1)
    } else {
        text
    }
}

/// The count of atoms that a line declares: one or more digits, with or
/// without a plus sign before them, that stand for a number no greater than
/// `usize::MAX`.
pub open spec fn spec_parse_count(line: Seq<char>) -> Option<int> {
    let digits = unsigned_part(line);
    if !is_negative(line) && digits.len() >= 1 && all_digits(digits) && digits_value(digits)
        <= usize::MAX {
        Some(digits_value(digits))
    } else {
        None
    }
}

/// The exponent that `text` stands for: one or more digits, with or without
/// a sign before them.
pub open spec fn spec_exponent(text: Seq<char>) -> Option<int> {
    let digits = unsigned_part(text);
    if digits.len() >= 1 && all_digits(digits) {
        Some(
            if is_negative(text) {
                -digits_value(digits)
            } else {
                digits_value(digits)
            },
        )
    } else {
        None
    }
}

/// An exponent as it is held: itself between the bounds, and the nearer
/// bound outside them.
pub open spec fn held_exponent(exact: int) -> int {
    if exact >= EXPONENT_BOUND {
        EXPONENT_BOUND as int
    } else if exact <= -EXPONENT_BOUND {
        -EXPONENT_BOUND
    } else {
        exact
    }
}

/// The whole part of the number that `digits` stand for once a decimal
/// point is put after the first `places` of them: short of digits, zeros
/// are added at the end; with `places` at zero or below, nothing is left.
pub open spec fn shifted_value(digits: Seq<char>, places: int) -> int {
    if places <= 0 {
        0
    } else if places <= digits.len() {
        digits_value(digits.take(places))
    } else {
        digits_value(digits) * pow(10, (places - digits.len()) as nat)
    }
}

/// The size in micro-ångströms of the length in ångströms that `body`
/// stands for, rounded towards zero. `body` is a decimal number without a
/// sign: digits with at most one decimal point among them, before or after
/// them, and then, if wanted, an `e` or `E` and an exponent of ten.
pub open spec fn spec_magnitude(body: Seq<char>) -> Option<int> {
    let mark = first_index(body, is_either('e', 'E'));
    let mantissa = body.take(mark);
    let exponent = if mark < body.len() {
        spec_exponent(body.skip(mark + 1))
    } else {
        Some(0int)
    };
    let point = first_index(mantissa, is_either('.', '.'));
    let whole = mantissa.take(point);
    let fraction = if point < mantissa.len() {
        mantissa.skip(point + 1)
    } else {
        Seq::<char>::empty()
    };
    if all_digits(whole) && all_digits(fraction) && whole.len() + fraction.len() >= 1
        && exponent is Some {
        Some(shifted_value(whole + fraction, whole.len() + exponent->0 + DECIMAL_PLACES))
    } else {
        None
    }
}

/// The coordinate in micro-ångströms that a field stands for: a decimal
/// number of ångströms, with or without a sign, whose size in
/// micro-ångströms is no greater than `i32::MAX`.
pub open spec fn spec_parse_coordinate(field: Seq<char>) -> Option<int> {
    match spec_magnitude(unsigned_part(field)) {
        Some(size) => if size <= i32::MAX {
            Some(
                if is_negative(field) {
                    -size
                } else {
                    size
                },
            )
        } else {
            None
        },
        None => None,
    }
}

/// The number that `digits` stand for, if they are all digits and the number
/// is no greater than `limit`.
pub fn number_within(digits: &Vec<char>, limit: u128) -> (r: Option<u128>)
    requires
        limit <= EXPONENT_BOUND,
    ensures
        r is Some <==> all_digits(digits@) && digits_value(digits@) <= limit,
        r matches Some(value) ==> value == digits_value(digits@),
{
    let mut value: u128 = 0;
    let mut i: usize = 0;
    assert(digits@.take(0) =~= Seq::<char>::empty());
    while i < digits.len()
        invariant
            0 <= i <= digits.len(),
            limit <= EXPONENT_BOUND,
            all_digits(digits@.take(i as int)),
            value == digits_value(digits@.take(i as int)),
            value <= limit,
        decreases digits.len() - i,
    {
        let ghost seen = digits@.take(i as int);
        proof {
            digits@.lemma_take_succ_push(i as int);
            assert(seen.push(digits@[i as int]).drop_last() =~= seen);
        }
        match digit(digits[i]) {
            None => {
                assert(!is_digit(digits@[i as int]));
                return None;
            },
            Some(d) => {
                value = 10 * value + d as u128;
                proof {
                    assert forall|k: int| 0 <= k < i + 1 implies is_digit(
                        #[trigger] digits@.take(i + 1)[k],
                    ) by {
                        if k < i {
                            assert(seen[k] == digits@[k]);
                        }
                    }
                    if value > limit && all_digits(digits@) {
                        lemma_digits_value_grows(digits@, i + 1);
                    }
                }
                if value > limit {
                    return None;
                }
            },
        }
        i = i + 1;
    }
    proof {
        digits@.lemma_take_len();
    }
    Some(value)
}

/// The count of atoms that a line declares, if it declares one.
pub fn parse_count(line: &Vec<char>) -> (r: Option<usize>)
    ensures
        r is Some <==> spec_parse_count(line@) is Some,
        r matches Some(count) ==> spec_parse_count(line@) == Some(count as int),
{
    let signed = line.len() > 0 && line[0] == '+';
    if line.len() > 0 && line[0] == '-' {
        return None;
    }
    let digits = part(line, if signed { 1 } else { 0 }, line.len());
    assert(digits@ =~= unsigned_part(line@));
    if digits.len() == 0 {
        return None;
    }
    match number_within(&digits, usize::MAX as u128) {
        Some(value) => Some(value as usize),
        None => None,
    }
}

/// The exponent that `text` stands for, if it stands for one, held to the
/// range from `-EXPONENT_BOUND` to `EXPONENT_BOUND`.
pub fn parse_exponent(text: &Vec<char>) -> (r: Option<i128>)
    ensures
        r is Some <==> spec_exponent(text@) is Some,
        r matches Some(held) ==> held == held_exponent(spec_exponent(text@)->0),
{
    let signed = text.len() > 0 && (text[0] == '+' || text[0] == '-');
    let negative = text.len() > 0 && text[0] == '-';
    let digits = part(text, if signed { 1 } else { 0 }, text.len());
    assert(digits@ =~= unsigned_part(text@));
    if digits.len() == 0 || !digits_only(&digits) {
        return None;
    }
    let size: i128 = match number_within(&digits, (EXPONENT_BOUND - 1) as u128) {
        Some(value) => value as i128,
        None => EXPONENT_BOUND,
    };
    Some(if negative { -size } else { size })
}

/// The whole part of the number that `digits` stand for with a decimal
/// point after the first `places` of them, if they are all digits and it is
/// no greater than `limit`.
pub fn shifted(digits: &Vec<char>, places: i128, limit: u128) -> (r: Option<u128>)
    requires
        limit <= EXPONENT_BOUND,
    ensures
        r is Some <==> all_digits(digits@) && shifted_value(digits@, places as int) <= limit,
        r matches Some(value) ==> value == shifted_value(digits@, places as int),
{
    if !digits_only(digits) {
        return None;
    }
    if places <= 0 {
        return Some(0);
    }
    if places <= digits.len() as i128 {
        let kept = part(digits, 0, places as usize);
        proof {
            assert forall|k: int| 0 <= k < kept@.len() implies is_digit(#[trigger] kept@[k]) by {
                assert(kept@[k] == digits@[k]);
            }
        }
        return number_within(&kept, limit);
    }
    let zeros: i128 = places - digits.len() as i128;
    proof {
        lemma_digits_value_grows(digits@, 0);
        lemma_pow_positive(10, zeros as nat);
    }
    match number_within(digits, limit) {
        None => {
            assert(digits_value(digits@) * pow(10, zeros as nat) >= digits_value(digits@))
                by (nonlinear_arith)
                requires
                    digits_value(digits@) >= 0,
                    pow(10, zeros as nat) >= 1,
            ;
            None
        },
        Some(value) => {
            if value == 0 {
                assert(0 * pow(10, zeros as nat) == 0);
                return Some(0);
            }
            let mut grown: u128 = value;
            let mut added: i128 = 0;
            proof {
                vstd::arithmetic::power::lemma_pow0(10);
            }
            while added < zeros
                invariant
                    0 <= added <= zeros,
                    0 < value,
                    value == digits_value(digits@),
                    zeros == places - digits.len(),
                    limit <= EXPONENT_BOUND,
                    grown == value * pow(10, added as nat),
                    0 < grown <= limit,
                decreases zeros - added,
            {
                proof {
                    vstd::arithmetic::power::lemma_pow_adds(10, added as nat, 1);
                    vstd::arithmetic::power::lemma_pow1(10);
                    assert(pow(10, (added + 1) as nat) == pow(10, added as nat) * 10);
                    assert(value * (pow(10, added as nat) * 10) == (value * pow(10, added as nat))
                        * 10) by (nonlinear_arith);
                    assert(value * pow(10, (added + 1) as nat) == grown * 10);
                }
                if grown > limit / 10 {
                    proof {
                        lemma_pow_increases(10, (added + 1) as nat, zeros as nat);
                        assert(value * pow(10, (added + 1) as nat) <= value * pow(
                            10,
                            zeros as nat,
                        )) by (nonlinear_arith)
                            requires
                                0 < value,
                                pow(10, (added + 1) as nat) <= pow(10, zeros as nat),
                        ;
                    }
                    return None;
                }
                grown = grown * 10;
                added = added + 1;
            }
            Some(grown)
        },
    }
}

/// Far enough out, the exponent no longer matters: a held exponent gives
/// the size that the exact one gives, or both give one that is out of range.
proof fn lemma_exponent_held(digits: Seq<char>, whole: int, exact: int, held: int)
    requires
        all_digits(digits),
        0 <= whole <= digits.len() <= usize::MAX,
        held == held_exponent(exact),
    ensures
        shifted_value(digits, whole + exact + DECIMAL_PLACES) <= i32::MAX <==> shifted_value(
            digits,
            whole + held + DECIMAL_PLACES,
        ) <= i32::MAX,
        shifted_value(digits, whole + held + DECIMAL_PLACES) <= i32::MAX ==> shifted_value(
            digits,
            whole + exact + DECIMAL_PLACES,
        ) == shifted_value(digits, whole + held + DECIMAL_PLACES),
{
    if exact >= EXPONENT_BOUND {
        let size = digits_value(digits);
        let far = (whole + exact + DECIMAL_PLACES - digits.len()) as nat;
        let near = (whole + held + DECIMAL_PLACES - digits.len()) as nat;
        lemma_digits_value_grows(digits, 0);
        if size > 0 {
            reveal_with_fuel(pow, 11);
            assert(pow(10, 10) == 10_000_000_000);
            lemma_pow_increases(10, 10, far);
            lemma_pow_increases(10, 10, near);
            assert(size * pow(10, far) > i32::MAX) by (nonlinear_arith)
                requires
                    size >= 1,
                    pow(10, far) >= 10_000_000_000,
            ;
            assert(size * pow(10, near) > i32::MAX) by (nonlinear_arith)
                requires
                    size >= 1,
                    pow(10, near) >= 10_000_000_000,
            ;
        } else {
            assert(size * pow(10, far) == 0) by (nonlinear_arith)
                requires
                    size == 0,
            ;
            assert(size * pow(10, near) == 0) by (nonlinear_arith)
                requires
                    size == 0,
            ;
        }
    }
}

/// The coordinate in micro-ångströms that a field stands for, if it stands
/// for one. Decimal places past the sixth are dropped.
pub fn parse_coordinate(field: &Vec<char>) -> (r: Option<i32>)
    ensures
        r is Some <==> spec_parse_coordinate(field@) is Some,
        r matches Some(coordinate) ==> spec_parse_coordinate(field@) == Some(coordinate as int),
{
    let signed = field.len() > 0 && (field[0] == '+' || field[0] == '-');
    let negative = field.len() > 0 && field[0] == '-';
    let body = part(field, if signed { 1 } else { 0 }, field.len());
    assert(body@ =~= unsigned_part(field@));
    let mark: usize = find_either(&body, 'e', 'E');
    let mantissa = part(&body, 0, mark);
    let exponent: i128 = if mark < body.len() {
        match parse_exponent(&part(&body, mark + 1, body.len())) {
            Some(held) => held,
            None => {
                return None;
            },
        }
    } else {
        0
    };
    let point: usize = find_either(&mantissa, '.', '.');
    let mut whole = part(&mantissa, 0, point);
    let mut fraction = if point < mantissa.len() {
        part(&mantissa, point + 1, mantissa.len())
    } else {
        Vec::new()
    };
    if !digits_only(&whole) || !digits_only(&fraction) || (whole.len() == 0 && fraction.len()
        == 0) {
        return None;
    }
    let before: usize = whole.len();
    let ghost digits = whole@ + fraction@;
    whole.append(&mut fraction);
    let places: i128 = before as i128 + exponent + DECIMAL_PLACES;
    proof {
        let exact = if mark < body.len() {
            spec_exponent(body@.skip(mark + 1))->0
        } else {
            0
        };
        assert forall|k: int| 0 <= k < digits.len() implies is_digit(#[trigger] digits[k]) by {
            if k < before {
                assert(digits[k] == mantissa@.take(point as int)[k]);
            } else {
                assert(digits[k] == mantissa@.skip(point + 1)[k - before]);
            }
        }
        lemma_exponent_held(digits, before as int, exact, exponent as int);
    }
    match shifted(&whole, places, i32::MAX as u128) {
        None => None,
        Some(size) => Some(
            if negative {
                -(size as i32)
            } else {
                size as i32
            },
        ),
    }
}

/// The element symbol of an atom line: its first field, or nothing where
/// the line is blank.
pub open spec fn line_symbol(line: Seq<char>) -> Seq<char> {
    if fields(line).len() > 0 {
        fields(line)[0]
    } else {
        Seq::<char>::empty()
    }
}

/// One coordinate of an atom line, in micro-ångströms: what the field after
/// the symbol (`axis` 0), the next (1) or the one after that (2) stands for.
/// A coordinate that the line leaves out is zero. Further fields are not
/// read.
pub open spec fn line_coordinate(line: Seq<char>, axis: int) -> Option<int> {
    if axis + 1 < fields(line).len() {
        spec_parse_coordinate(fields(line)[axis + 1])
    } else {
        Some(0int)
    }
}

/// The position that an atom line gives, if its coordinates can be read.
pub open spec fn line_position(line: Seq<char>) -> Option<Position> {
    if line_coordinate(line, 0) is Some && line_coordinate(line, 1) is Some && line_coordinate(
        line,
        2,
    ) is Some {
        Some(
            Position {
                x: line_coordinate(line, 0)->0 as i32,
                y: line_coordinate(line, 1)->0 as i32,
                z: line_coordinate(line, 2)->0 as i32,
            },
        )
    } else {
        None
    }
}

/// Whether a line describes an atom: a known element at a position.
pub open spec fn line_is_atom(line: Seq<char>) -> bool {
    is_known_symbol(line_symbol(line)) && line_position(line) is Some
}

/// Whether `e` is the error of a line that describes no atom. The symbol is
/// looked at first: the error is that of the coordinates only where the
/// symbol is known.
pub open spec fn is_line_error(line: Seq<char>, e: XyzError) -> bool {
    if !is_known_symbol(line_symbol(line)) {
        e matches XyzError::UnknownElementSymbol(unknown) && unknown.symbol@ == line_symbol(line)
    } else {
        line_position(line) is None && e is InvalidCoordinate
    }
}

/// The test that a line passes unless it is blank.
pub open spec fn is_not_blank() -> spec_fn(Seq<char>) -> bool {
    |line: Seq<char>| !is_blank(line)
}

/// The count of atoms that a text declares, on its first line.
pub open spec fn declared_count(text: Seq<char>) -> Option<int> {
    spec_parse_count(split_lines(without_returns(text))[0])
}

/// The atom lines of a text: its lines after the first, which holds the
/// count, and the second, which holds a title, but for the blank ones.
pub open spec fn atom_lines(text: Seq<char>) -> Seq<Seq<char>> {
    let lines = split_lines(without_returns(text));
    if lines.len() <= 2 {
        Seq::<Seq<char>>::empty()
    } else {
        lines.skip(2).filter(is_not_blank())
    }
}

/// Whether the first `rows` of the atom lines of a text all describe atoms.
pub open spec fn atom_lines_hold(text: Seq<char>, rows: int) -> bool {
    forall|k: int| 0 <= k < rows ==> line_is_atom(#[trigger] atom_lines(text)[k])
}

/// Whether `e` is the error of a text that describes no molecule. The count
/// is looked at first, then the atom lines from the top, and last whether
/// there are as many of them as were declared.
pub open spec fn is_xyz_error(text: Seq<char>, e: XyzError) -> bool {
    let rows = atom_lines(text);
    match declared_count(text) {
        None => e is InvalidAtomCount,
        Some(count) => {
            ||| exists|k: int|
                0 <= k < rows.len() && atom_lines_hold(text, k) && !line_is_atom(rows[k])
                    && #[trigger] is_line_error(rows[k], e)
            ||| {
                &&& atom_lines_hold(text, rows.len() as int)
                &&& e matches XyzError::AtomCountMismatch { declared, found }
                &&& declared == count
                &&& found == rows.len()
                &&& count != rows.len()
            }
        },
    }
}

} // verus!
