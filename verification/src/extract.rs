//! Token extraction: scans pipeline-definition text for variable references,
//! a sigil `$` followed by identifier characters, and returns the sorted,
//! deduplicated set of referenced names with the sigil stripped.

use vstd::prelude::*;

use crate::text::{
    chars_of, has_chars, has_str, insert_sorted, is_ident_char, lemma_lex_lt_asym,
    lex_lt, sorted_chars, sorted_strs, to_strings,
};

verus! {

/// End of the run of identifier characters that starts at `i`: the first
/// position at or after `i` holding no identifier character.
pub open spec fn run_end(s: Seq<char>, i: int) -> int
    decreases s.len() - i,
{
    if i < s.len() && is_ident_char(s[i]) {
        run_end(s, i + 1)
    } else {
        i
    }
}

/// The candidate name referenced by the sigil at position `i`: the run of
/// identifier characters that follows it, possibly empty.
pub open spec fn token_at(s: Seq<char>, i: int) -> Seq<char> {
    s.subrange(i + 1, run_end(s, i + 1))
}

/// `t` is one of the variable references of `s`: some sigil in `s` is
/// followed by exactly the non-empty name `t`.
pub open spec fn is_token_of(s: Seq<char>, t: Seq<char>) -> bool {
    exists|i: int| 0 <= i < s.len() && s[i] == '$' && token_at(s, i) == t && t.len() > 0
}

/// As `is_token_of`, restricted to sigils before position `n`.
pub open spec fn is_token_upto(s: Seq<char>, t: Seq<char>, n: int) -> bool {
    exists|i: int| 0 <= i < n && i < s.len() && s[i] == '$' && token_at(s, i) == t && t.len() > 0
}

proof fn lemma_run_end(s: Seq<char>, i: int)
    requires
        0 <= i <= s.len(),
    ensures
        i <= run_end(s, i) <= s.len(),
        forall|k: int| i <= k < run_end(s, i) ==> is_ident_char(s[k]),
        run_end(s, i) == s.len() || !is_ident_char(s[run_end(s, i)]),
    decreases s.len() - i,
{
    if i < s.len() && is_ident_char(s[i]) {
        lemma_run_end(s, i + 1);
    }
}

proof fn lemma_upto_step(s: Seq<char>, t: Seq<char>, i: int)
    requires
        0 <= i < s.len(),
    ensures
        is_token_upto(s, t, i + 1) <==> (is_token_upto(s, t, i) || (s[i] == '$'
            && token_at(s, i) == t && t.len() > 0)),
{
    if is_token_upto(s, t, i + 1) {
        let k = choose|k: int|
            0 <= k < i + 1 && k < s.len() && s[k] == '$' && token_at(s, k) == t && t.len() > 0;
        if k < i {
            assert(is_token_upto(s, t, i));
        }
    }
}

/// Executable test for `is_ident_char`.
pub fn ident_char(c: char) -> (r: bool)
    ensures
        r == is_ident_char(c),
{
    let u = c as u32;
    (('a' as u32) <= u && u <= ('z' as u32)) || (('A' as u32) <= u && u <= ('Z' as u32))
        || (('0' as u32) <= u && u <= ('9' as u32)) || c == '_'
}

/// Extracts the set of variable references of `file_text`: every non-empty
/// run of identifier characters that follows a `$`, with the sigil stripped,
/// sorted lexicographically and deduplicated.
pub fn extract_tokens(file_text: &str) -> (r: Vec<String>)
    ensures
        sorted_strs(r@),
        forall|t: Seq<char>| has_str(r@, t) <==> is_token_of(file_text@, t),
{
    let v = chars_of(file_text);
    let mut out: Vec<Vec<char>> = Vec::new();
    let mut i: usize = 0;
    while i < v.len()
        invariant
            v@ == file_text@,
            0 <= i <= v.len(),
            sorted_chars(out@),
            forall|t: Seq<char>| has_chars(out@, t) <==> is_token_upto(v@, t, i as int),
        decreases v.len() - i,
    {
        let ghost prev = out@;
        if v[i] == '$' {
            let mut j: usize = i + 1;
            proof {
                lemma_run_end(v@, i as int + 1);
            }
            while j < v.len() && ident_char(v[j])
                invariant
                    i + 1 <= j <= v.len(),
                    v@ == file_text@,
                    run_end(v@, i as int + 1) == run_end(v@, j as int),
                decreases v.len() - j,
            {
                j += 1;
            }
            proof {
                assert(run_end(v@, j as int) == j);
            }
            if j > i + 1 {
                let mut tok: Vec<char> = Vec::new();
                let mut k: usize = i + 1;
                while k < j
                    invariant
                        i + 1 <= k <= j <= v.len(),
                        v@ == file_text@,
                        tok@ == v@.subrange(i as int + 1, k as int),
                    decreases j - k,
                {
                    tok.push(v[k]);
                    proof {
                        assert(v@.subrange(i as int + 1, k as int + 1) =~= v@.subrange(
                            i as int + 1,
                            k as int,
                        ).push(v@[k as int]));
                    }
                    k += 1;
                }
                assert(tok@ == token_at(v@, i as int));
                insert_sorted(&mut out, tok);
            } else {
                assert(token_at(v@, i as int).len() == 0);
            }
        }
        proof {
            assert forall|t: Seq<char>|
                has_chars(out@, t) <==> is_token_upto(v@, t, i as int + 1) by {
                lemma_upto_step(v@, t, i as int);
            }
        }
        i += 1;
    }
    let r = to_strings(&out);
    proof {
        assert forall|t: Seq<char>| has_str(r@, t) <==> is_token_of(v@, t) by {
            if has_str(r@, t) {
                let k = choose|k: int| 0 <= k < r@.len() && r@[k]@ == t;
                assert(out@[k]@ == t);
                assert(has_chars(out@, t));
            }
            if is_token_of(v@, t) {
                assert(is_token_upto(v@, t, v@.len() as int));
                assert(has_chars(out@, t));
                let k = choose|k: int| 0 <= k < out@.len() && out@[k]@ == t;
                assert(r@[k]@ == t);
            }
        }
        assert forall|p: int, q: int| 0 <= p < q < r@.len() implies lex_lt(r@[p]@, r@[q]@) by {
            assert(r@[p]@ == out@[p]@);
            assert(r@[q]@ == out@[q]@);
        }
    }
    r
}

/// Every extracted token is non-empty and holds only identifier characters:
/// letters, digits and the underscore.
pub proof fn lemma_tokens_wellformed(s: Seq<char>, t: Seq<char>)
    requires
        is_token_of(s, t),
    ensures
        t.len() > 0,
        forall|k: int| 0 <= k < t.len() ==> is_ident_char(t[k]),
{
    let i = choose|i: int|
        0 <= i < s.len() && s[i] == '$' && token_at(s, i) == t && t.len() > 0;
    lemma_run_end(s, i + 1);
    assert forall|k: int| 0 <= k < t.len() implies is_ident_char(t[k]) by {
        assert(t[k] == s[i + 1 + k]);
    }
}

/// A token set never holds the same name twice: the strict sort order rules
/// duplicates out.
pub proof fn lemma_token_set_deduplicated(r: Seq<String>)
    requires
        sorted_strs(r),
    ensures
        forall|p: int, q: int| 0 <= p < q < r.len() ==> r[p]@ != r[q]@,
{
    assert forall|p: int, q: int| 0 <= p < q < r.len() implies r[p]@ != r[q]@ by {
        assert(lex_lt(r[p]@, r[q]@));
        lemma_lex_lt_asym(r[p]@, r[q]@);
    }
}

/// Extraction is a pure function of the text: any two sorted token sets with
/// the membership that `extract_tokens` promises for the same text are equal,
/// so extracting twice from the same text yields the same token set.
pub proof fn lemma_extraction_deterministic(s: Seq<char>, r1: Seq<String>, r2: Seq<String>)
    requires
        sorted_strs(r1),
        sorted_strs(r2),
        forall|t: Seq<char>| has_str(r1, t) <==> is_token_of(s, t),
        forall|t: Seq<char>| has_str(r2, t) <==> is_token_of(s, t),
    ensures
        r1.len() == r2.len(),
        forall|k: int| 0 <= k < r1.len() ==> r1[k]@ == r2[k]@,
{
    assert forall|t: Seq<char>| has_str(r1, t) <==> has_str(r2, t) by {
        assert(has_str(r1, t) <==> is_token_of(s, t));
        assert(has_str(r2, t) <==> is_token_of(s, t));
    }
    crate::text::lemma_sorted_same_membership(r1, r2);
}

} // verus!
