//! Character-level helpers shared by the tokenizer and the keyword
//! dispatcher: ASCII classification, ASCII upper-casing, and the two
//! conversions between strings and character vectors.

use vstd::prelude::*;

verus! {

/// A character is ASCII when its code point is below 128.
pub open spec fn char_is_ascii(c: char) -> bool {
    (c as u32) < 128
}

/// Every character of the sequence is ASCII.
pub open spec fn seq_is_ascii(s: Seq<char>) -> bool {
    forall|i: int| 0 <= i < s.len() ==> char_is_ascii(#[trigger] s[i])
}

/// ASCII upper-casing of one character: the lower-case letters map to their
/// upper-case forms, everything else is unchanged.
pub open spec fn char_upper(c: char) -> char {
    if 97 <= (c as u32) <= 122 {
        (((c as u32) - 32) as u8) as char
    } else {
        c
    }
}

/// ASCII upper-casing of a character sequence, pointwise.
pub open spec fn seq_upper(s: Seq<char>) -> Seq<char> {
    s.map_values(|c: char| char_upper(c))
}

/// Executable counterpart of [`char_upper`].
pub fn to_upper_char(c: char) -> (r: char)
    ensures
        r == char_upper(c),
{
    let u = c as u32;
    if 97 <= u && u <= 122 {
        ((u - 32) as u8) as char
    } else {
        c
    }
}

/// Relies on `str::chars`: the characters of the string, in order.  A
/// string's mathematical view is exactly its character sequence.
#[verifier::external_body]
pub fn str_to_chars(s: &str) -> (v: Vec<char>)
    ensures
        v@ == s@,
{
    s.chars().collect()
}

/// Relies on `String`'s `FromIterator` over `char`: the returned string
/// holds exactly the given characters, in order.
#[verifier::external_body]
pub fn chars_to_string(v: &Vec<char>) -> (s: String)
    ensures
        s@ == v@,
{
    v.iter().collect()
}

/// Whether two character vectors hold the same characters.
pub fn chars_eq(a: &Vec<char>, b: &Vec<char>) -> (r: bool)
    ensures
        r == (a@ == b@),
{
    if a.len() != b.len() {
        return false;
    }
    let mut i: usize = 0;
    while i < a.len()
        invariant
            a@.len() == b@.len(),
            0 <= i <= a@.len(),
            forall|j: int| 0 <= j < i ==> a@[j] == b@[j],
        decreases a@.len() - i,
    {
        if a[i] != b[i] {
            return false;
        }
        i += 1;
    }
    proof {
        assert(a@ =~= b@);
    }
    true
}

/// Whether every character of the vector is ASCII.
pub fn chars_all_ascii(v: &Vec<char>) -> (r: bool)
    ensures
        r == seq_is_ascii(v@),
{
    let mut i: usize = 0;
    while i < v.len()
        invariant
            0 <= i <= v@.len(),
            forall|j: int| 0 <= j < i ==> char_is_ascii(#[trigger] v@[j]),
        decreases v@.len() - i,
    {
        if (v[i] as u32) >= 128 {
            return false;
        }
        i += 1;
    }
    true
}

/// ASCII upper-casing of a character vector, pointwise.
pub fn chars_upper(v: &Vec<char>) -> (r: Vec<char>)
    ensures
        r@ == seq_upper(v@),
{
    let mut out: Vec<char> = Vec::new();
    let mut i: usize = 0;
    while i < v.len()
        invariant
            0 <= i <= v@.len(),
            out@.len() == i,
            forall|j: int| 0 <= j < i ==> out@[j] == char_upper(#[trigger] v@[j]),
        decreases v@.len() - i,
    {
        out.push(to_upper_char(v[i]));
        i += 1;
    }
    proof {
        assert(out@ =~= seq_upper(v@));
    }
    out
}

/// A vector slice copy: the characters of `v` from `from` (inclusive) to
/// `to` (exclusive).
pub fn subvec(v: &Vec<char>, from: usize, to: usize) -> (r: Vec<char>)
    requires
        from <= to <= v@.len(),
    ensures
        r@ == v@.subrange(from as int, to as int),
{
    let mut out: Vec<char> = Vec::new();
    let mut i: usize = from;
    while i < to
        invariant
            from <= i <= to <= v@.len(),
            out@.len() == i - from,
            forall|j: int| 0 <= j < out@.len() ==> out@[j] == v@[from + j],
        decreases to - i,
    {
        out.push(v[i]);
        i += 1;
    }
    proof {
        assert(out@ =~= v@.subrange(from as int, to as int));
    }
    out
}

} // verus!
