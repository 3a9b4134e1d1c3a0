//! String helpers the engine needs: character-exact equality between
//! borrowed and owned strings, a lexicographic order on character
//! sequences (used to sort tag facets), and deep copies of the string
//! collections a photo record carries.

use vstd::prelude::*;
use vstd::string::StrSliceExecFns;

verus! {

/// Strict lexicographic order on character sequences, by unicode scalar
/// value: a proper prefix comes first, otherwise the first differing
/// character decides.
pub open spec fn char_seq_lt(a: Seq<char>, b: Seq<char>) -> bool
    decreases a.len(),
{
    if b.len() == 0 {
        false
    } else if a.len() == 0 {
        true
    } else if a[0] == b[0] {
        char_seq_lt(a.skip(1), b.skip(1))
    } else {
        (a[0] as u32) < (b[0] as u32)
    }
}

/// A shared prefix of equal characters does not affect the order of what
/// follows it.
proof fn lemma_char_seq_lt_skip(a: Seq<char>, b: Seq<char>, i: int)
    requires
        0 <= i <= a.len(),
        i <= b.len(),
        forall|j: int| 0 <= j < i ==> a[j] == b[j],
    ensures
        char_seq_lt(a, b) == char_seq_lt(a.skip(i), b.skip(i)),
    decreases i,
{
    if i == 0 {
        assert(a.skip(0) =~= a);
        assert(b.skip(0) =~= b);
    } else {
        assert(a[0] == b[0]);
        assert(char_seq_lt(a, b) == char_seq_lt(a.skip(1), b.skip(1)));
        assert(forall|j: int| 0 <= j < i - 1 ==> a.skip(1)[j] == b.skip(1)[j]);
        lemma_char_seq_lt_skip(a.skip(1), b.skip(1), i - 1);
        assert(a.skip(1).skip(i - 1) =~= a.skip(i));
        assert(b.skip(1).skip(i - 1) =~= b.skip(i));
    }
}

/// Distinct characters have distinct unicode scalar values.
proof fn lemma_char_scalar_injective(c: char, d: char)
    requires
        c != d,
    ensures
        (c as u32) != (d as u32),
{
    if (c as u32) == (d as u32) {
        vstd::utf8::char_u32_cast(c, c as u32);
        vstd::utf8::char_u32_cast(d, d as u32);
    }
}

/// Exactly one of `a < b`, `a == b`, `b < a` holds.
pub proof fn lemma_char_seq_lt_trichotomy(a: Seq<char>, b: Seq<char>)
    ensures
        char_seq_lt(a, b) || char_seq_lt(b, a) || a == b,
        char_seq_lt(a, b) ==> !char_seq_lt(b, a) && a != b,
        char_seq_lt(b, a) ==> !char_seq_lt(a, b) && a != b,
    decreases a.len(),
{
    if a.len() == 0 && b.len() == 0 {
        assert(a =~= b);
    } else if a.len() > 0 && b.len() > 0 {
        if a[0] == b[0] {
            lemma_char_seq_lt_trichotomy(a.skip(1), b.skip(1));
            if !char_seq_lt(a, b) && !char_seq_lt(b, a) {
                assert(a.skip(1) == b.skip(1));
                assert(a.len() == b.len());
                assert forall|j: int| 0 <= j < a.len() implies a[j] == b[j] by {
                    if j >= 1 {
                        assert(a[j] == a.skip(1)[j - 1]);
                        assert(b[j] == b.skip(1)[j - 1]);
                    }
                }
                assert(a =~= b);
            }
            if a == b {
                assert(a.skip(1) == b.skip(1));
            }
        } else {
            lemma_char_scalar_injective(a[0], b[0]);
        }
    }
}

/// The order is transitive.
pub proof fn lemma_char_seq_lt_trans(a: Seq<char>, b: Seq<char>, c: Seq<char>)
    requires
        char_seq_lt(a, b),
        char_seq_lt(b, c),
    ensures
        char_seq_lt(a, c),
    decreases a.len(),
{
    assert(b.len() > 0);
    assert(c.len() > 0);
    if a.len() > 0 {
        if a[0] == b[0] && b[0] == c[0] {
            lemma_char_seq_lt_trans(a.skip(1), b.skip(1), c.skip(1));
        } else {
            // At least one of the two head comparisons is strict, so the
            // head scalar strictly increases from `a` to `c`.
            if a[0] == b[0] {
                assert((b[0] as u32) < (c[0] as u32));
            } else if b[0] == c[0] {
                assert((a[0] as u32) < (b[0] as u32));
            } else {
                assert((a[0] as u32) < (b[0] as u32));
                assert((b[0] as u32) < (c[0] as u32));
            }
            assert((a[0] as u32) < (c[0] as u32));
            if a[0] == c[0] {
                assert(false);
            }
        }
    }
}

/// Character-exact equality of two borrowed strings.
pub fn str_eq(a: &str, b: &str) -> (r: bool)
    ensures
        r == (a@ == b@),
{
    let a_len = a.unicode_len();
    let b_len = b.unicode_len();
    if a_len != b_len {
        proof {
            assert(a@ != b@);
        }
        return false;
    }
    let mut i: usize = 0;
    while i < a_len
        invariant
            i <= a_len,
            a_len == a@.len(),
            a_len == b@.len(),
            forall|j: int| 0 <= j < i ==> a@[j] == b@[j],
        decreases a_len - i,
    {
        if a.get_char(i) != b.get_char(i) {
            proof {
                assert(a@[i as int] != b@[i as int]);
            }
            return false;
        }
        i += 1;
    }
    proof {
        assert(a@ =~= b@);
    }
    true
}

/// Lexicographic comparison of two borrowed strings.
pub fn str_lt(a: &str, b: &str) -> (r: bool)
    ensures
        r == char_seq_lt(a@, b@),
{
    let a_len = a.unicode_len();
    let b_len = b.unicode_len();
    let mut i: usize = 0;
    while i < a_len && i < b_len
        invariant
            i <= a_len,
            i <= b_len,
            a_len == a@.len(),
            b_len == b@.len(),
            forall|j: int| 0 <= j < i ==> a@[j] == b@[j],
        decreases a_len - i,
    {
        let ca = a.get_char(i);
        let cb = b.get_char(i);
        if ca as u32 != cb as u32 {
            proof {
                if ca != cb {
                } else {
                    assert(false);
                }
                lemma_char_seq_lt_skip(a@, b@, i as int);
                assert(a@.skip(i as int)[0] == a@[i as int]);
                assert(b@.skip(i as int)[0] == b@[i as int]);
            }
            return (ca as u32) < (cb as u32);
        }
        i += 1;
    }
    proof {
        lemma_char_seq_lt_skip(a@, b@, i as int);
    }
    i == a_len && i < b_len
}

/// Equality of optional owned strings, character for character.
pub fn opt_string_eq(a: &Option<String>, b: &Option<String>) -> (r: bool)
    ensures
        r == (a.deep_view() == b.deep_view()),
{
    match (a, b) {
        (Option::None, Option::None) => true,
        (Option::Some(x), Option::Some(y)) => *x == *y,
        _ => false,
    }
}

/// Equality of two string lists, element for element.
pub fn string_vec_eq(a: &Vec<String>, b: &Vec<String>) -> (r: bool)
    ensures
        r == (a.deep_view() == b.deep_view()),
{
    if a.len() != b.len() {
        proof {
            assert(a.deep_view().len() != b.deep_view().len());
        }
        return false;
    }
    let mut i: usize = 0;
    while i < a.len()
        invariant
            i <= a.len(),
            a.len() == b.len(),
            forall|j: int| 0 <= j < i ==> a.deep_view()[j] == b.deep_view()[j],
        decreases a.len() - i,
    {
        if !(a[i] == b[i]) {
            proof {
                assert(a.deep_view()[i as int] != b.deep_view()[i as int]);
            }
            return false;
        }
        i += 1;
    }
    proof {
        assert(a.deep_view() =~= b.deep_view());
    }
    true
}

/// Whether some element of `v` equals `s`, character for character.
pub fn contains_string(v: &Vec<String>, s: &str) -> (r: bool)
    ensures
        r == v.deep_view().contains(s@),
{
    let mut i: usize = 0;
    while i < v.len()
        invariant
            i <= v.len(),
            forall|j: int| 0 <= j < i ==> v.deep_view()[j] != s@,
        decreases v.len() - i,
    {
        if str_eq(v[i].as_str(), s) {
            proof {
                assert(v.deep_view()[i as int] == s@);
            }
            return true;
        }
        i += 1;
    }
    false
}

/// A deep copy of a string list.
pub fn clone_string_vec(v: &Vec<String>) -> (r: Vec<String>)
    ensures
        r@ == v@,
{
    let mut r: Vec<String> = Vec::new();
    let mut i: usize = 0;
    while i < v.len()
        invariant
            i <= v.len(),
            r@ =~= v@.take(i as int),
        decreases v.len() - i,
    {
        r.push(v[i].clone());
        i += 1;
    }
    proof {
        assert(v@.take(v@.len() as int) =~= v@);
    }
    r
}

/// A deep copy of an optional string.
pub fn clone_opt_string(v: &Option<String>) -> (r: Option<String>)
    ensures
        r == *v,
{
    match v {
        Option::None => Option::None,
        Option::Some(s) => Option::Some(s.clone()),
    }
}

} // verus!
