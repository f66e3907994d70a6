//! The grammar of numeric literals that the tokenizer accepts: an optional
//! sign, followed by either a special word (`inf`, `infinity` or `nan`, in
//! any case) or a decimal mantissa with an optional exponent.  This is the
//! grammar of floating-point literals as the standard library's string
//! parser accepts them, so a literal is valid here exactly when it carries a
//! numeric value.

use vstd::prelude::*;
use crate::chars::seq_upper;
use crate::chars::chars_upper;

verus! {

/// A decimal digit.
pub open spec fn is_digit(c: char) -> bool {
    48 <= (c as u32) <= 57
}

/// Every character is a decimal digit (holds vacuously of the empty
/// sequence).
pub open spec fn digits_only(s: Seq<char>) -> bool {
    forall|i: int| 0 <= i < s.len() ==> is_digit(#[trigger] s[i])
}

/// One or more decimal digits.
pub open spec fn is_count(s: Seq<char>) -> bool {
    s.len() > 0 && digits_only(s)
}

/// The sequence with one leading `+` or `-` removed, if present.
pub open spec fn strip_sign(s: Seq<char>) -> Seq<char> {
    if s.len() > 0 && (s[0] == '+' || s[0] == '-') {
        s.drop_first()
    } else {
        s
    }
}

/// One of the special words `inf`, `infinity` or `nan`, in any case.
pub open spec fn is_special(s: Seq<char>) -> bool {
    ||| seq_upper(s) == seq!['I', 'N', 'F']
    ||| seq_upper(s) == seq!['I', 'N', 'F', 'I', 'N', 'I', 'T', 'Y']
    ||| seq_upper(s) == seq!['N', 'A', 'N']
}

/// The index of the first `e` or `E` at or after `i`, or the length if
/// there is none.
pub open spec fn first_exp(s: Seq<char>, i: int) -> int
    decreases s.len() - i,
{
    if !(0 <= i < s.len()) {
        s.len() as int
    } else if s[i] == 'e' || s[i] == 'E' {
        i
    } else {
        first_exp(s, i + 1)
    }
}

/// The index of the first `.` at or after `i`, or the length if there is
/// none.
pub open spec fn first_dot(s: Seq<char>, i: int) -> int
    decreases s.len() - i,
{
    if !(0 <= i < s.len()) {
        s.len() as int
    } else if s[i] == '.' {
        i
    } else {
        first_dot(s, i + 1)
    }
}

/// An exponent part (what follows the `e`): an optional sign, then one or
/// more digits.
pub open spec fn is_exp_part(s: Seq<char>) -> bool {
    is_count(strip_sign(s))
}

/// A mantissa: digits with an optional point (`10`, `10.`, `10.25`), or a
/// point followed by digits (`.4`).  A bare point is not a mantissa.
pub open spec fn is_mantissa(m: Seq<char>) -> bool {
    let d = first_dot(m, 0);
    if d == m.len() {
        is_count(m)
    } else {
        let ip = m.subrange(0, d);
        let fp = m.subrange(d + 1, m.len() as int);
        if ip.len() == 0 {
            is_count(fp)
        } else {
            is_count(ip) && digits_only(fp)
        }
    }
}

/// An unsigned numeric body: a mantissa followed by an optional exponent.
pub open spec fn is_number_body(b: Seq<char>) -> bool {
    let k = first_exp(b, 0);
    if k == b.len() {
        is_mantissa(b)
    } else {
        is_mantissa(b.subrange(0, k)) && is_exp_part(b.subrange(k + 1, b.len() as int))
    }
}

/// Whether a literal carries a numeric value: an optional sign, then a
/// special word or a numeric body.
pub open spec fn float_literal_valid(s: Seq<char>) -> bool {
    let b = strip_sign(s);
    is_special(b) || is_number_body(b)
}

/// The characters that can occur in a valid numeric literal: digits,
/// signs, the point, the exponent markers, and the letters of the special
/// words in either case.
pub open spec fn literal_char(c: char) -> bool {
    ||| is_digit(c)
    ||| c == '+'
    ||| c == '-'
    ||| c == '.'
    ||| c == 'e'
    ||| c == 'E'
    ||| crate::chars::char_upper(c) == 'I'
    ||| crate::chars::char_upper(c) == 'N'
    ||| crate::chars::char_upper(c) == 'F'
    ||| crate::chars::char_upper(c) == 'T'
    ||| crate::chars::char_upper(c) == 'Y'
    ||| crate::chars::char_upper(c) == 'A'
}

/// No `e` or `E` anywhere means the exponent search runs to the end.
pub proof fn lemma_first_exp_all(s: Seq<char>, i: int)
    requires
        0 <= i <= s.len(),
        forall|j: int| i <= j < s.len() ==> s[j] != 'e' && s[j] != 'E',
    ensures
        first_exp(s, i) == s.len(),
    decreases s.len() - i,
{
    if i < s.len() {
        lemma_first_exp_all(s, i + 1);
    }
}

/// No `.` anywhere means the point search runs to the end.
pub proof fn lemma_first_dot_all(s: Seq<char>, i: int)
    requires
        0 <= i <= s.len(),
        forall|j: int| i <= j < s.len() ==> s[j] != '.',
    ensures
        first_dot(s, i) == s.len(),
    decreases s.len() - i,
{
    if i < s.len() {
        lemma_first_dot_all(s, i + 1);
    }
}

proof fn lemma_mantissa_chars(m: Seq<char>)
    requires
        is_mantissa(m),
    ensures
        forall|i: int| 0 <= i < m.len() ==> is_digit(#[trigger] m[i]) || m[i] == '.',
{
    lemma_first_dot_bounds(m, 0);
    let d = first_dot(m, 0);
    assert forall|i: int| 0 <= i < m.len() implies is_digit(#[trigger] m[i]) || m[i] == '.' by {
        if d == m.len() {
            assert(is_digit(m[i]));
        } else if i < d {
            assert(m.subrange(0, d)[i] == m[i]);
            assert(is_digit(m[i]));
        } else if i == d {
            assert(m[i] == '.');
        } else {
            assert(m.subrange(d + 1, m.len() as int)[i - d - 1] == m[i]);
            assert(is_digit(m[i]));
        }
    }
}

proof fn lemma_exp_chars(x: Seq<char>)
    requires
        is_exp_part(x),
    ensures
        forall|i: int|
            0 <= i < x.len() ==> is_digit(#[trigger] x[i]) || x[i] == '+' || x[i] == '-',
{
    assert forall|i: int|
        0 <= i < x.len() implies is_digit(#[trigger] x[i]) || x[i] == '+' || x[i] == '-' by {
        if x[0] == '+' || x[0] == '-' {
            if i > 0 {
                assert(x.drop_first()[i - 1] == x[i]);
                assert(is_digit(x[i]));
            }
        } else {
            assert(is_digit(x[i]));
        }
    }
}

proof fn lemma_special_chars(b: Seq<char>)
    requires
        is_special(b),
    ensures
        forall|i: int| 0 <= i < b.len() ==> literal_char(#[trigger] b[i]),
{
    assert forall|i: int| 0 <= i < b.len() implies literal_char(#[trigger] b[i]) by {
        assert(seq_upper(b).len() == b.len());
        assert(seq_upper(b)[i] == crate::chars::char_upper(b[i]));
        if seq_upper(b) == seq!['I', 'N', 'F'] {
            assert(seq!['I', 'N', 'F'].len() == 3);
        } else if seq_upper(b) == seq!['I', 'N', 'F', 'I', 'N', 'I', 'T', 'Y'] {
            assert(seq!['I', 'N', 'F', 'I', 'N', 'I', 'T', 'Y'].len() == 8);
        } else {
            assert(seq!['N', 'A', 'N'].len() == 3);
        }
    }
}

/// Every character of a valid numeric literal is a [`literal_char`]; in
/// particular none is whitespace, a paren, a comma or a NUL.
pub proof fn lemma_float_literal_chars(s: Seq<char>)
    requires
        float_literal_valid(s),
    ensures
        forall|i: int| 0 <= i < s.len() ==> literal_char(#[trigger] s[i]),
{
    let b = strip_sign(s);
    let off: int = if s.len() > 0 && (s[0] == '+' || s[0] == '-') {
        1
    } else {
        0
    };
    assert(b.len() == s.len() - off);
    assert forall|i: int| 0 <= i < b.len() implies literal_char(#[trigger] b[i]) by {
        if is_special(b) {
            lemma_special_chars(b);
        } else {
            let k = first_exp(b, 0);
            lemma_first_exp_bounds(b, 0);
            if k == b.len() {
                lemma_mantissa_chars(b);
            } else {
                lemma_mantissa_chars(b.subrange(0, k));
                lemma_exp_chars(b.subrange(k + 1, b.len() as int));
                if i < k {
                    assert(b.subrange(0, k)[i] == b[i]);
                } else if i > k {
                    assert(b.subrange(k + 1, b.len() as int)[i - k - 1] == b[i]);
                }
            }
        }
    }
    assert forall|i: int| 0 <= i < s.len() implies literal_char(#[trigger] s[i]) by {
        if i >= off {
            assert(b[i - off] == s[i]);
        }
    }
}

proof fn lemma_first_exp_bounds(s: Seq<char>, i: int)
    requires
        0 <= i <= s.len(),
    ensures
        i <= first_exp(s, i) <= s.len(),
        first_exp(s, i) < s.len() ==> (s[first_exp(s, i)] == 'e' || s[first_exp(s, i)] == 'E'),
    decreases s.len() - i,
{
    if i < s.len() && !(s[i] == 'e' || s[i] == 'E') {
        lemma_first_exp_bounds(s, i + 1);
    }
}

proof fn lemma_first_dot_bounds(s: Seq<char>, i: int)
    requires
        0 <= i <= s.len(),
    ensures
        i <= first_dot(s, i) <= s.len(),
        first_dot(s, i) < s.len() ==> s[first_dot(s, i)] == '.',
    decreases s.len() - i,
{
    if i < s.len() && s[i] != '.' {
        lemma_first_dot_bounds(s, i + 1);
    }
}

/// Executable counterpart of [`first_exp`] starting from the beginning.
fn find_exp(v: &Vec<char>) -> (k: usize)
    ensures
        k == first_exp(v@, 0),
        k <= v@.len(),
        k < v@.len() ==> (v@[k as int] == 'e' || v@[k as int] == 'E'),
{
    let mut i: usize = 0;
    while i < v.len()
        invariant
            0 <= i <= v@.len(),
            first_exp(v@, 0) == first_exp(v@, i as int),
        decreases v@.len() - i,
    {
        let c = v[i];
        if c == 'e' || c == 'E' {
            return i;
        }
        i += 1;
    }
    i
}

/// Executable counterpart of [`first_dot`] starting from the beginning.
fn find_dot(v: &Vec<char>) -> (k: usize)
    ensures
        k == first_dot(v@, 0),
        k <= v@.len(),
        k < v@.len() ==> v@[k as int] == '.',
{
    let mut i: usize = 0;
    while i < v.len()
        invariant
            0 <= i <= v@.len(),
            first_dot(v@, 0) == first_dot(v@, i as int),
        decreases v@.len() - i,
    {
        let c = v[i];
        if c == '.' {
            return i;
        }
        i += 1;
    }
    i
}

/// Executable decimal digit test.
pub fn digit_check(c: char) -> (r: bool)
    ensures
        r == is_digit(c),
{
    let u = c as u32;
    48 <= u && u <= 57
}

/// Whether every character of the vector is a decimal digit.
fn digits_only_check(v: &Vec<char>) -> (r: bool)
    ensures
        r == digits_only(v@),
{
    let mut i: usize = 0;
    while i < v.len()
        invariant
            0 <= i <= v@.len(),
            forall|j: int| 0 <= j < i ==> is_digit(#[trigger] v@[j]),
        decreases v@.len() - i,
    {
        if !digit_check(v[i]) {
            return false;
        }
        i += 1;
    }
    true
}

/// The vector with one leading sign removed, if present.
fn strip_sign_vec(v: &Vec<char>) -> (r: Vec<char>)
    ensures
        r@ == strip_sign(v@),
{
    if v.len() > 0 && (v[0] == '+' || v[0] == '-') {
        let r = crate::chars::subvec(v, 1, v.len());
        proof {
            assert(r@ =~= v@.drop_first());
        }
        r
    } else {
        let r = crate::chars::subvec(v, 0, v.len());
        proof {
            assert(r@ =~= v@);
        }
        r
    }
}

/// Whether the vector is one of the special words `inf`, `infinity`, `nan`
/// in any case.
fn special_check(v: &Vec<char>) -> (r: bool)
    ensures
        r == is_special(v@),
{
    let u = chars_upper(v);
    let inf: Vec<char> = vec!['I', 'N', 'F'];
    let infinity: Vec<char> = vec!['I', 'N', 'F', 'I', 'N', 'I', 'T', 'Y'];
    let nan: Vec<char> = vec!['N', 'A', 'N'];
    proof {
        assert(inf@ =~= seq!['I', 'N', 'F']);
        assert(infinity@ =~= seq!['I', 'N', 'F', 'I', 'N', 'I', 'T', 'Y']);
        assert(nan@ =~= seq!['N', 'A', 'N']);
    }
    if crate::chars::chars_eq(&u, &inf) {
        return true;
    }
    if crate::chars::chars_eq(&u, &infinity) {
        return true;
    }
    crate::chars::chars_eq(&u, &nan)
}

/// Whether the vector is a mantissa.
fn mantissa_check(v: &Vec<char>) -> (r: bool)
    ensures
        r == is_mantissa(v@),
{
    let d = find_dot(v);
    if d == v.len() {
        v.len() > 0 && digits_only_check(v)
    } else {
        let ip = crate::chars::subvec(v, 0, d);
        let fp = crate::chars::subvec(v, d + 1, v.len());
        if ip.len() == 0 {
            fp.len() > 0 && digits_only_check(&fp)
        } else {
            (ip.len() > 0 && digits_only_check(&ip)) && digits_only_check(&fp)
        }
    }
}

/// Whether the vector is an exponent part.
fn exp_part_check(v: &Vec<char>) -> (r: bool)
    ensures
        r == is_exp_part(v@),
{
    let b = strip_sign_vec(v);
    b.len() > 0 && digits_only_check(&b)
}

/// Executable counterpart of [`float_literal_valid`]: whether a literal
/// carries a numeric value.
pub fn float_literal_check(v: &Vec<char>) -> (r: bool)
    ensures
        r == float_literal_valid(v@),
{
    let b = strip_sign_vec(v);
    if special_check(&b) {
        return true;
    }
    let k = find_exp(&b);
    let m = crate::chars::subvec(&b, 0, k);
    let mantissa_ok = mantissa_check(&m);
    if k == b.len() {
        proof {
            assert(b@.subrange(0, b@.len() as int) =~= b@);
        }
        mantissa_ok
    } else {
        let e = crate::chars::subvec(&b, k + 1, b.len());
        mantissa_ok && exp_part_check(&e)
    }
}

} // verus!
