//! Texts as sequences of characters.

use vstd::prelude::*;
use vstd::string::*;

verus! {

/// `String::push` appends the one character `ch` to the string and leaves
/// the characters before it as they were. The standard library documents
/// it so; it is taken on trust here.
pub assume_specification[ String::push ](text: &mut String, ch: char)
    ensures
        final(text)@ == old(text)@.push(ch),
;

/// The characters of `text`, one by one.
pub fn characters(text: &str) -> (r: Vec<char>)
    ensures
        r@ == text@,
{
    let mut out: Vec<char> = Vec::new();
    for c in it: text.chars()
        invariant
            it.seq() == text@,
            out@ == text@.take(it.index() as int),
    {
        proof {
            text@.lemma_take_succ_push(it.index() as int);
        }
        out.push(c);
    }
    assert(text@.take(text@.len() as int) =~= text@);
    out
}

/// The string made of the given characters.
pub fn text_of(characters: &Vec<char>) -> (r: String)
    ensures
        r@ == characters@,
{
    let mut out = String::new();
    let mut i: usize = 0;
    while i < characters.len()
        invariant
            0 <= i <= characters.len(),
            out@ == characters@.take(i as int),
        decreases characters.len() - i,
    {
        proof {
            characters@.lemma_take_succ_push(i as int);
        }
        out.push(characters[i]);
        i = i + 1;
    }
    assert(characters@.take(characters@.len() as int) =~= characters@);
    out
}

} // verus!
