//! Character-level groundwork shared by the extractor, the decoder and the
//! reconciler: character classes, a lexicographic order on character
//! sequences, and sorted, deduplicated insertion into a vector.

use vstd::prelude::*;

verus! {

/// Whitespace accepted between structural elements of the wire format.
pub open spec fn is_ws(c: char) -> bool {
    c == ' ' || c == '\t' || c == '\n' || c == '\r'
}

/// Decimal digit.
pub open spec fn is_digit(c: char) -> bool {
    '0' as u32 <= c as u32 && c as u32 <= '9' as u32
}

/// Hexadecimal digit.
pub open spec fn is_hex_digit(c: char) -> bool {
    is_digit(c)
        || ('a' as u32 <= c as u32 && c as u32 <= 'f' as u32)
        || ('A' as u32 <= c as u32 && c as u32 <= 'F' as u32)
}

/// Numeric value of a hexadecimal digit.
pub open spec fn hex_val(c: char) -> u32
    recommends
        is_hex_digit(c),
{
    if is_digit(c) {
        (c as u32 - '0' as u32) as u32
    } else if 'a' as u32 <= c as u32 && c as u32 <= 'f' as u32 {
        (c as u32 - 'a' as u32 + 10) as u32
    } else {
        (c as u32 - 'A' as u32 + 10) as u32
    }
}

/// Characters that may form a variable identifier after the sigil:
/// letters, digits and the underscore.
pub open spec fn is_ident_char(c: char) -> bool {
    ('a' as u32 <= c as u32 && c as u32 <= 'z' as u32)
        || ('A' as u32 <= c as u32 && c as u32 <= 'Z' as u32)
        || is_digit(c)
        || c == '_'
}

/// Strict lexicographic order on character sequences, by code point.
pub open spec fn lex_lt(a: Seq<char>, b: Seq<char>) -> bool
    decreases a.len(),
{
    if b.len() == 0 {
        false
    } else if a.len() == 0 {
        true
    } else if (a[0] as u32) < (b[0] as u32) {
        true
    } else if a[0] == b[0] {
        lex_lt(a.skip(1), b.skip(1))
    } else {
        false
    }
}

/// The order is transitive.
pub proof fn lemma_lex_lt_trans(a: Seq<char>, b: Seq<char>, c: Seq<char>)
    requires
        lex_lt(a, b),
        lex_lt(b, c),
    ensures
        lex_lt(a, c),
    decreases a.len(),
{
    if a.len() == 0 {
    } else if a[0] == b[0] && b[0] == c[0] {
        lemma_lex_lt_trans(a.skip(1), b.skip(1), c.skip(1));
    }
}

/// The order is asymmetric: never both ways at once.
pub proof fn lemma_lex_lt_asym(a: Seq<char>, b: Seq<char>)
    ensures
        !(lex_lt(a, b) && lex_lt(b, a)),
    decreases a.len(),
{
    if a.len() > 0 && b.len() > 0 && a[0] == b[0] {
        lemma_lex_lt_asym(a.skip(1), b.skip(1));
    }
}

/// Any two character sequences are equal or ordered one way or the other.
pub proof fn lemma_lex_lt_connected(a: Seq<char>, b: Seq<char>)
    ensures
        a == b || lex_lt(a, b) || lex_lt(b, a),
    decreases a.len(),
{
    if a.len() == 0 && b.len() == 0 {
        assert(a =~= b);
    } else if a.len() > 0 && b.len() > 0 {
        if a[0] == b[0] {
            let at = a.skip(1);
            let bt = b.skip(1);
            lemma_lex_lt_connected(at, bt);
            if at == bt {
                assert(at.len() == a.len() - 1);
                assert(bt.len() == b.len() - 1);
                assert forall|i: int| 0 <= i < a.len() implies a[i] == b[i] by {
                    if i > 0 {
                        assert(at[i - 1] == a[i]);
                        assert(bt[i - 1] == b[i]);
                        assert(at[i - 1] == bt[i - 1]);
                    }
                }
                assert(a =~= b);
            }
        } else {
            vstd::utf8::char_u32_cast(a[0], a[0] as u32);
            vstd::utf8::char_u32_cast(b[0], b[0] as u32);
            assert(a[0] as u32 != b[0] as u32);
        }
    }
}

pub proof fn lemma_lex_lt_irrefl(a: Seq<char>)
    ensures
        !lex_lt(a, a),
{
    lemma_lex_lt_asym(a, a);
}

/// The sequence of character vectors is strictly increasing: sorted with no
/// duplicates.
pub open spec fn sorted_chars(s: Seq<Vec<char>>) -> bool {
    forall|i: int, j: int| 0 <= i < j < s.len() ==> lex_lt(s[i]@, s[j]@)
}

/// Some element of `s` views to `t`.
pub open spec fn has_chars(s: Seq<Vec<char>>, t: Seq<char>) -> bool {
    exists|k: int| 0 <= k < s.len() && s[k]@ == t
}

/// The sequence of strings is strictly increasing: sorted with no duplicates.
pub open spec fn sorted_strs(s: Seq<String>) -> bool {
    forall|i: int, j: int| 0 <= i < j < s.len() ==> lex_lt(s[i]@, s[j]@)
}

/// Some element of `s` views to `t`.
pub open spec fn has_str(s: Seq<String>, t: Seq<char>) -> bool {
    exists|k: int| 0 <= k < s.len() && s[k]@ == t
}

/// Two strictly sorted string sequences that hold the same names are equal,
/// element for element.
pub proof fn lemma_sorted_same_membership(r1: Seq<String>, r2: Seq<String>)
    requires
        sorted_strs(r1),
        sorted_strs(r2),
        forall|t: Seq<char>| has_str(r1, t) <==> has_str(r2, t),
    ensures
        r1.len() == r2.len(),
        forall|k: int| 0 <= k < r1.len() ==> r1[k]@ == r2[k]@,
    decreases r1.len(),
{
    if r1.len() == 0 {
        if r2.len() > 0 {
            assert(has_str(r2, r2[0]@));
            assert(has_str(r1, r2[0]@));
            assert(false);
        }
    } else if r2.len() == 0 {
        assert(has_str(r1, r1[0]@));
        assert(has_str(r2, r1[0]@));
        assert(false);
    } else {
        let a0 = r1[0]@;
        let b0 = r2[0]@;
        assert(has_str(r1, a0)) by {
            assert(r1[0]@ == a0);
        }
        assert(has_str(r2, b0)) by {
            assert(r2[0]@ == b0);
        }
        let k = choose|k: int| 0 <= k < r2.len() && r2[k]@ == a0;
        let m = choose|m: int| 0 <= m < r1.len() && r1[m]@ == b0;
        if k > 0 && m > 0 {
            assert(lex_lt(b0, a0));
            assert(lex_lt(a0, b0));
            lemma_lex_lt_asym(a0, b0);
            assert(false);
        }
        assert(a0 == b0);
        let t1 = r1.skip(1);
        let t2 = r2.skip(1);
        assert forall|p: int, q: int| 0 <= p < q < t1.len() implies lex_lt(t1[p]@, t1[q]@) by {
            assert(t1[p] == r1[p + 1]);
            assert(t1[q] == r1[q + 1]);
        }
        assert forall|p: int, q: int| 0 <= p < q < t2.len() implies lex_lt(t2[p]@, t2[q]@) by {
            assert(t2[p] == r2[p + 1]);
            assert(t2[q] == r2[q + 1]);
        }
        assert forall|t: Seq<char>| has_str(t1, t) <==> has_str(t2, t) by {
            if has_str(t1, t) {
                let w = choose|w: int| 0 <= w < t1.len() && t1[w]@ == t;
                assert(t1[w] == r1[w + 1]);
                assert(has_str(r1, t));
                assert(has_str(r2, t));
                let u = choose|u: int| 0 <= u < r2.len() && r2[u]@ == t;
                if u == 0 {
                    assert(lex_lt(a0, t));
                    lemma_lex_lt_irrefl(a0);
                    assert(false);
                }
                assert(t2[u - 1] == r2[u]);
                assert(has_str(t2, t));
            }
            if has_str(t2, t) {
                let w = choose|w: int| 0 <= w < t2.len() && t2[w]@ == t;
                assert(t2[w] == r2[w + 1]);
                assert(has_str(r2, t));
                assert(has_str(r1, t));
                let u = choose|u: int| 0 <= u < r1.len() && r1[u]@ == t;
                if u == 0 {
                    assert(lex_lt(b0, t));
                    lemma_lex_lt_irrefl(b0);
                    assert(false);
                }
                assert(t1[u - 1] == r1[u]);
                assert(has_str(t1, t));
            }
        }
        lemma_sorted_same_membership(t1, t2);
        assert forall|j: int| 0 <= j < r1.len() implies r1[j]@ == r2[j]@ by {
            if j > 0 {
                assert(t1[j - 1] == r1[j]);
                assert(t2[j - 1] == r2[j]);
                assert(t1[j - 1]@ == t2[j - 1]@);
            }
        }
    }
}

/// Relies on `str::chars` and `Iterator::collect`: the characters of the
/// slice, in order.
#[verifier::external_body]
pub fn chars_of(s: &str) -> (r: Vec<char>)
    ensures
        r@ == s@,
{
    s.chars().collect()
}

/// Relies on `String: FromIterator<char>`: the string made of exactly the
/// given characters, in order.
#[verifier::external_body]
pub fn string_from_chars(v: &Vec<char>) -> (r: String)
    ensures
        r@ == v@,
{
    v.iter().collect()
}

/// Relies on `char::from_u32`: `Some` exactly for Unicode scalar values,
/// that is everything up to 0x10FFFF except the surrogate range.
#[verifier::external_body]
pub fn char_from_u32(u: u32) -> (r: Option<char>)
    ensures
        r == (if u < 0xD800 || (0xE000 <= u && u <= 0x10FFFF) {
            Some(u as char)
        } else {
            None::<char>
        }),
{
    char::from_u32(u)
}

/// Character-by-character equality of two character vectors.
pub fn chars_eq(a: &Vec<char>, b: &Vec<char>) -> (r: bool)
    ensures
        r == (a@ == b@),
{
    if a.len() != b.len() {
        return false;
    }
    let mut i: usize = 0;
    while i < a.len()
        invariant
            0 <= i <= a.len(),
            a.len() == b.len(),
            forall|k: int| 0 <= k < i ==> a@[k] == b@[k],
        decreases a.len() - i,
    {
        if a[i] != b[i] {
            return false;
        }
        i += 1;
    }
    assert(a@ =~= b@);
    true
}

/// Executable decision procedure for `lex_lt`.
pub fn chars_lt(a: &Vec<char>, b: &Vec<char>) -> (r: bool)
    ensures
        r == lex_lt(a@, b@),
{
    proof {
        assert(a@.skip(0) =~= a@);
        assert(b@.skip(0) =~= b@);
    }
    let mut i: usize = 0;
    while i < a.len() && i < b.len()
        invariant
            0 <= i,
            i <= a.len(),
            i <= b.len(),
            lex_lt(a@, b@) == lex_lt(a@.skip(i as int), b@.skip(i as int)),
        decreases a.len() - i,
    {
        let ca = a[i];
        let cb = b[i];
        proof {
            assert(a@.skip(i as int)[0] == a@[i as int]);
            assert(b@.skip(i as int)[0] == b@[i as int]);
            assert(a@.skip(i as int).skip(1) =~= a@.skip(i as int + 1));
            assert(b@.skip(i as int).skip(1) =~= b@.skip(i as int + 1));
        }
        if ca == cb {
            i += 1;
        } else {
            return (ca as u32) < (cb as u32);
        }
    }
    proof {
        assert(a@.skip(i as int).len() == a@.len() - i);
        assert(b@.skip(i as int).len() == b@.len() - i);
    }
    i < b.len()
}

/// Inserts `x` into a strictly sorted vector, keeping it strictly sorted;
/// if an equal element is already present, the vector is unchanged.
pub fn insert_sorted(out: &mut Vec<Vec<char>>, x: Vec<char>)
    requires
        sorted_chars(old(out)@),
    ensures
        sorted_chars(final(out)@),
        forall|t: Seq<char>|
            has_chars(final(out)@, t) <==> (has_chars(old(out)@, t) || t == x@),
{
    let mut i: usize = 0;
    while i < out.len() && chars_lt(&out[i], &x)
        invariant
            0 <= i <= out.len(),
            sorted_chars(out@),
            out@ == old(out)@,
            forall|k: int| 0 <= k < i ==> lex_lt(out@[k]@, x@),
        decreases out.len() - i,
    {
        i += 1;
    }
    if i < out.len() && chars_eq(&out[i], &x) {
        proof {
            assert(has_chars(out@, x@)) by {
                assert(out@[i as int]@ == x@);
            }
        }
        return;
    }
    proof {
        if i < out.len() {
            lemma_lex_lt_connected(out@[i as int]@, x@);
            assert(lex_lt(x@, out@[i as int]@));
        }
    }
    let ghost prev = out@;
    let ghost xv = x@;
    out.insert(i, x);
    proof {
        let s = out@;
        assert forall|p: int, q: int| 0 <= p < q < s.len() implies lex_lt(s[p]@, s[q]@) by {
            if q < i {
                assert(s[p] == prev[p]);
                assert(s[q] == prev[q]);
            } else if p > i {
                assert(s[p] == prev[p - 1]);
                assert(s[q] == prev[q - 1]);
            } else if p < i && q == i {
                assert(s[p] == prev[p]);
                assert(s[q]@ == xv);
            } else if p == i && q > i {
                assert(s[p]@ == xv);
                assert(s[q] == prev[q - 1]);
                if q - 1 > i {
                    assert(lex_lt(prev[i as int]@, prev[q - 1]@));
                    lemma_lex_lt_trans(xv, prev[i as int]@, prev[q - 1]@);
                }
            } else if p < i && q > i {
                assert(s[p] == prev[p]);
                assert(s[q] == prev[q - 1]);
                if q - 1 == i {
                    assert(lex_lt(prev[p]@, xv));
                } else {
                    assert(lex_lt(prev[p]@, prev[q - 1]@));
                }
            }
        }
        assert forall|t: Seq<char>|
            has_chars(s, t) <==> (has_chars(prev, t) || t == xv) by {
            if has_chars(prev, t) {
                let k = choose|k: int| 0 <= k < prev.len() && prev[k]@ == t;
                if k < i {
                    assert(s[k]@ == t);
                } else {
                    assert(s[k + 1]@ == t);
                }
            }
            if t == xv {
                assert(s[i as int]@ == t);
            }
            if has_chars(s, t) {
                let k = choose|k: int| 0 <= k < s.len() && s[k]@ == t;
                if k < i {
                    assert(prev[k]@ == t);
                } else if k == i {
                    assert(t == xv);
                } else {
                    assert(prev[k - 1]@ == t);
                }
            }
        }
    }
}

/// Turns a vector of character vectors into the corresponding strings,
/// element for element.
pub fn to_strings(v: &Vec<Vec<char>>) -> (r: Vec<String>)
    ensures
        r@.len() == v@.len(),
        forall|k: int| 0 <= k < v@.len() ==> r@[k]@ == v@[k]@,
{
    let mut r: Vec<String> = Vec::new();
    let mut i: usize = 0;
    while i < v.len()
        invariant
            0 <= i <= v.len(),
            r@.len() == i,
            forall|k: int| 0 <= k < i ==> r@[k]@ == v@[k]@,
        decreases v.len() - i,
    {
        let s = string_from_chars(&v[i]);
        r.push(s);
        i += 1;
    }
    r
}

/// Whether some element of the vector equals the given string.
pub fn contains_string(v: &Vec<String>, x: &String) -> (r: bool)
    ensures
        r == has_str(v@, x@),
{
    let mut i: usize = 0;
    while i < v.len()
        invariant
            0 <= i <= v.len(),
            forall|k: int| 0 <= k < i ==> v@[k]@ != x@,
        decreases v.len() - i,
    {
        let e = &v[i];
        if e.eq(x) {
            assert(has_str(v@, x@)) by {
                assert(v@[i as int]@ == x@);
            }
            return true;
        }
        i += 1;
    }
    false
}

} // verus!
