//! Semantic-version triples.
//!
//! A version string decomposes into a `(major, minor, patch)` triple of
//! non-negative integers: the numeric value of the leading digits of the
//! string, of the text after the first dot, and of the text after the
//! second dot. A string without any dot decomposes to `(0, 0, 0)`, a
//! deliberate fallback for non-semver tags. Components cap at `u64::MAX`.

use vstd::prelude::*;

verus! {

/// `c` is an ASCII decimal digit.
pub open spec fn is_digit_char(c: char) -> bool {
    48 <= c as int && c as int <= 57
}

/// Numeric value of a digit character.
pub open spec fn digit_value(c: char) -> nat
    recommends
        is_digit_char(c),
{
    (c as int - 48) as nat
}

/// One step of decimal accumulation, saturating at `u64::MAX`.
pub open spec fn sat_add_digit(acc: nat, d: nat) -> nat {
    if acc * 10 + d > u64::MAX { u64::MAX as nat } else { (acc * 10 + d) as nat }
}

/// Value of the leading run of digits of `s`, accumulated onto `acc`.
pub open spec fn leading_number_rec(s: Seq<char>, acc: nat) -> nat
    decreases s.len(),
{
    if s.len() == 0 || !is_digit_char(s[0]) {
        acc
    } else {
        leading_number_rec(s.skip(1), sat_add_digit(acc, digit_value(s[0])))
    }
}

/// Numeric value of the leading run of digits of `s`; 0 when `s` does not
/// start with a digit.
pub open spec fn leading_number(s: Seq<char>) -> nat {
    leading_number_rec(s, 0)
}

/// The text after the first `'.'` of `s`, or empty when `s` has no dot.
pub open spec fn after_first_dot(s: Seq<char>) -> Seq<char>
    decreases s.len(),
{
    if s.len() == 0 {
        s
    } else if s[0] == '.' {
        s.skip(1)
    } else {
        after_first_dot(s.skip(1))
    }
}

pub open spec fn has_dot(s: Seq<char>) -> bool {
    s.contains('.')
}

/// Major component of a version string.
pub open spec fn major_of(s: Seq<char>) -> nat {
    if has_dot(s) {
        leading_number(s)
    } else {
        0
    }
}

/// Minor component of a version string.
pub open spec fn minor_of(s: Seq<char>) -> nat {
    if has_dot(s) {
        leading_number(after_first_dot(s))
    } else {
        0
    }
}

/// Patch component of a version string.
pub open spec fn patch_of(s: Seq<char>) -> nat {
    if has_dot(s) {
        leading_number(after_first_dot(after_first_dot(s)))
    } else {
        0
    }
}

/// Strict order on version strings: numeric comparison of the triples,
/// major first, then minor, then patch.
pub open spec fn version_lt(a: Seq<char>, b: Seq<char>) -> bool {
    major_of(a) < major_of(b)
    || (major_of(a) == major_of(b) && minor_of(a) < minor_of(b))
    || (major_of(a) == major_of(b) && minor_of(a) == minor_of(b) && patch_of(a) < patch_of(b))
}

/// Two version strings decompose to the same triple.
pub open spec fn version_eq(a: Seq<char>, b: Seq<char>) -> bool {
    major_of(a) == major_of(b) && minor_of(a) == minor_of(b) && patch_of(a) == patch_of(b)
}

fn char_is_digit(c: char) -> (r: bool)
    ensures
        r == is_digit_char(c),
{
    let u: u32 = c as u32;
    48 <= u && u <= 57
}

fn digit_of(c: char) -> (r: u64)
    requires
        is_digit_char(c),
    ensures
        r as nat == digit_value(c),
        r <= 9,
{
    (c as u32 - 48) as u64
}

fn push_digit(acc: u64, d: u64) -> (r: u64)
    requires
        d <= 9,
    ensures
        r as nat == sat_add_digit(acc as nat, d as nat),
{
    let wide: u128 = acc as u128 * 10 + d as u128;
    if wide > u64::MAX as u128 {
        u64::MAX
    } else {
        wide as u64
    }
}

fn leading_number_from(s: &str, acc: u64) -> (r: u64)
    ensures
        r as nat == leading_number_rec(s@, acc as nat),
    decreases s@.len(),
{
    let n: usize = s.unicode_len();
    if n == 0 {
        return acc;
    }
    let c: char = s.get_char(0);
    if !char_is_digit(c) {
        return acc;
    }
    let d: u64 = digit_of(c);
    let rest: &str = s.substring_char(1, n);
    proof {
        assert(rest@ =~= s@.skip(1));
    }
    leading_number_from(rest, push_digit(acc, d))
}

proof fn lemma_contains_dot_step(s: Seq<char>)
    requires
        s.len() > 0,
        s[0] != '.',
    ensures
        s.contains('.') == s.skip(1).contains('.'),
{
    if s.skip(1).contains('.') {
        let i = choose|i: int| 0 <= i < s.skip(1).len() && s.skip(1)[i] == '.';
        assert(s[i + 1] == '.');
        assert(s.contains('.'));
    }
    if s.contains('.') {
        let i = choose|i: int| 0 <= i < s.len() && s[i] == '.';
        assert(i != 0);
        assert(s.skip(1)[i - 1] == '.');
        assert(s.skip(1).contains('.'));
    }
}

fn contains_dot(s: &str) -> (r: bool)
    ensures
        r == has_dot(s@),
    decreases s@.len(),
{
    let n: usize = s.unicode_len();
    if n == 0 {
        return false;
    }
    let c: char = s.get_char(0);
    if c == '.' {
        proof {
            assert(s@[0] == '.');
        }
        return true;
    }
    let rest: &str = s.substring_char(1, n);
    proof {
        assert(rest@ =~= s@.skip(1));
        lemma_contains_dot_step(s@);
    }
    contains_dot(rest)
}

fn after_dot<'a>(s: &'a str) -> (r: &'a str)
    ensures
        r@ == after_first_dot(s@),
    decreases s@.len(),
{
    let n: usize = s.unicode_len();
    if n == 0 {
        return s;
    }
    let c: char = s.get_char(0);
    let rest: &str = s.substring_char(1, n);
    proof {
        assert(rest@ =~= s@.skip(1));
    }
    if c == '.' {
        rest
    } else {
        after_dot(rest)
    }
}

/// Decompose a version string into its numeric `(major, minor, patch)`
/// triple. A string without a dot decomposes to `(0, 0, 0)`.
pub fn get_version_iterations(version: &str) -> (r: (u64, u64, u64))
    ensures
        r.0 as nat == major_of(version@),
        r.1 as nat == minor_of(version@),
        r.2 as nat == patch_of(version@),
{
    if !contains_dot(version) {
        return (0, 0, 0);
    }
    let rest: &str = after_dot(version);
    let rest2: &str = after_dot(rest);
    let major: u64 = leading_number_from(version, 0);
    let minor: u64 = leading_number_from(rest, 0);
    let patch: u64 = leading_number_from(rest2, 0);
    (major, minor, patch)
}

/// Lexicographic order on strings by character code; the fixed
/// tie-break between version strings that decompose to one triple.
pub open spec fn seq_char_lt(a: Seq<char>, b: Seq<char>) -> bool
    decreases a.len(),
{
    if b.len() == 0 {
        false
    } else if a.len() == 0 {
        true
    } else if (a[0] as int) < (b[0] as int) {
        true
    } else if (b[0] as int) < (a[0] as int) {
        false
    } else {
        seq_char_lt(a.skip(1), b.skip(1))
    }
}

/// The lexicographic order is total: strings not ordered either way are
/// equal.
pub proof fn lemma_seq_char_lt_total(a: Seq<char>, b: Seq<char>)
    ensures
        seq_char_lt(a, b) || seq_char_lt(b, a) || a == b,
    decreases a.len(),
{
    if a.len() == 0 && b.len() == 0 {
        assert(a =~= b);
    } else if a.len() > 0 && b.len() > 0 && a[0] as int == b[0] as int {
        lemma_seq_char_lt_total(a.skip(1), b.skip(1));
        if !seq_char_lt(a, b) && !seq_char_lt(b, a) {
            assert(a.skip(1) == b.skip(1));
            assert(a =~= b) by {
                assert forall|i: int| 0 < i < a.len() implies a[i] == b[i] by {
                    assert(a.skip(1)[i - 1] == a[i]);
                    assert(b.skip(1)[i - 1] == b[i]);
                }
            }
        }
    }
}

/// The lexicographic order is irreflexive.
pub proof fn lemma_seq_char_lt_irrefl(a: Seq<char>)
    ensures
        !seq_char_lt(a, a),
    decreases a.len(),
{
    if a.len() > 0 {
        lemma_seq_char_lt_irrefl(a.skip(1));
    }
}

/// The lexicographic order is transitive.
pub proof fn lemma_seq_char_lt_trans(a: Seq<char>, b: Seq<char>, c: Seq<char>)
    requires
        seq_char_lt(a, b),
        seq_char_lt(b, c),
    ensures
        seq_char_lt(a, c),
    decreases a.len(),
{
    if a.len() > 0 && b.len() > 0 && c.len() > 0 {
        if a[0] as int == b[0] as int && b[0] as int == c[0] as int {
            lemma_seq_char_lt_trans(a.skip(1), b.skip(1), c.skip(1));
        }
    }
}

/// Compare two strings lexicographically by character code.
pub fn str_lt(a: &str, b: &str) -> (r: bool)
    ensures
        r == seq_char_lt(a@, b@),
    decreases a@.len(),
{
    let nb: usize = b.unicode_len();
    if nb == 0 {
        return false;
    }
    let na: usize = a.unicode_len();
    if na == 0 {
        return true;
    }
    let ca: u32 = a.get_char(0) as u32;
    let cb: u32 = b.get_char(0) as u32;
    if ca < cb {
        true
    } else if cb < ca {
        false
    } else {
        let ra: &str = a.substring_char(1, na);
        let rb: &str = b.substring_char(1, nb);
        proof {
            assert(ra@ =~= a@.skip(1));
            assert(rb@ =~= b@.skip(1));
        }
        str_lt(ra, rb)
    }
}

/// Compare two version strings by their numeric triples.
pub fn version_less(a: &str, b: &str) -> (r: bool)
    ensures
        r == version_lt(a@, b@),
{
    let ta: (u64, u64, u64) = get_version_iterations(a);
    let tb: (u64, u64, u64) = get_version_iterations(b);
    ta.0 < tb.0
    || (ta.0 == tb.0 && ta.1 < tb.1)
    || (ta.0 == tb.0 && ta.1 == tb.1 && ta.2 < tb.2)
}

/// Return the strictly higher of two version strings by numeric triple
/// ordering, or `None` when the triples are equal.
pub fn higher_version(a: &String, b: &String) -> (r: Option<String>)
    ensures
        ({
            if version_lt(b@, a@) {
                match r {
                    Some(v) => v@ == a@,
                    None => false,
                }
            } else if version_lt(a@, b@) {
                match r {
                    Some(v) => v@ == b@,
                    None => false,
                }
            } else {
                r is None
            }
        }),
{
    let ta: (u64, u64, u64) = get_version_iterations(a.as_str());
    let tb: (u64, u64, u64) = get_version_iterations(b.as_str());
    if ta.0 > tb.0 {
        Some(a.clone())
    } else if tb.0 > ta.0 {
        Some(b.clone())
    } else if ta.1 > tb.1 {
        Some(a.clone())
    } else if tb.1 > ta.1 {
        Some(b.clone())
    } else if ta.2 > tb.2 {
        Some(a.clone())
    } else if tb.2 > ta.2 {
        Some(b.clone())
    } else {
        None
    }
}

} // verus!
