//! Reconciler: computes which file-referenced tokens have no matching
//! remotely declared name, and bundles the three ordered sequences of the
//! report.

use vstd::prelude::*;

use crate::extract::{extract_tokens, is_token_of};
use crate::records::{decode_variables, has_name, recs_view, spec_decode, DecodeError};
use crate::text::{contains_string, has_str, lemma_sorted_same_membership, lex_lt, sorted_strs};

verus! {

/// The three ordered sequences of one reconciliation: remote names, file
/// tokens, and the tokens missing remotely.
pub struct ReconciliationReport {
    pub names: Vec<String>,
    pub tokens: Vec<String>,
    pub missing: Vec<String>,
}

impl ReconciliationReport {
    /// Well-formedness: all three sequences are sorted and deduplicated,
    /// and the missing sequence holds exactly the tokens absent from the
    /// names.
    pub open spec fn wf(self) -> bool {
        &&& sorted_strs(self.names@)
        &&& sorted_strs(self.tokens@)
        &&& sorted_strs(self.missing@)
        &&& forall|t: Seq<char>|
            has_str(self.missing@, t) <==> (has_str(self.tokens@, t) && !has_str(self.names@, t))
    }
}

/// The tokens that are not among the names, in token order: the asymmetric
/// set difference, by exact case-sensitive equality.
pub fn missing_tokens(names: &Vec<String>, tokens: &Vec<String>) -> (r: Vec<String>)
    requires
        sorted_strs(tokens@),
    ensures
        sorted_strs(r@),
        forall|t: Seq<char>| has_str(r@, t) <==> (has_str(tokens@, t) && !has_str(names@, t)),
{
    let mut out: Vec<String> = Vec::new();
    let mut i: usize = 0;
    while i < tokens.len()
        invariant
            0 <= i <= tokens@.len(),
            sorted_strs(tokens@),
            sorted_strs(out@),
            forall|t: Seq<char>|
                has_str(out@, t) <==> ((exists|m: int| 0 <= m < i && tokens@[m]@ == t)
                    && !has_str(names@, t)),
        decreases tokens@.len() - i,
    {
        let tok = &tokens[i];
        let ghost prevout = out@;
        if !contains_string(names, tok) {
            let cloned = tok.clone();
            out.push(cloned);
            proof {
                assert(out@[out@.len() - 1]@ == tokens@[i as int]@);
                assert forall|p: int, q: int| 0 <= p < q < out@.len() implies lex_lt(
                    out@[p]@,
                    out@[q]@,
                ) by {
                    if q == out@.len() - 1 {
                        assert(has_str(prevout, prevout[p]@)) by {
                            assert(prevout[p]@ == prevout[p]@);
                        }
                        let m = choose|m: int| 0 <= m < i && tokens@[m]@ == prevout[p]@;
                        assert(lex_lt(tokens@[m]@, tokens@[i as int]@));
                    } else {
                        assert(out@[p]@ == prevout[p]@);
                        assert(out@[q]@ == prevout[q]@);
                    }
                }
                assert forall|t: Seq<char>|
                    has_str(out@, t) <==> ((exists|m: int| 0 <= m < i + 1 && tokens@[m]@ == t)
                        && !has_str(names@, t)) by {
                    if has_str(out@, t) {
                        let k = choose|k: int| 0 <= k < out@.len() && out@[k]@ == t;
                        if k == out@.len() - 1 {
                            assert(t == tokens@[i as int]@);
                        } else {
                            assert(prevout[k]@ == t);
                            assert(has_str(prevout, t));
                        }
                    }
                    if (exists|m: int| 0 <= m < i + 1 && tokens@[m]@ == t) && !has_str(
                        names@,
                        t,
                    ) {
                        let m = choose|m: int| 0 <= m < i + 1 && tokens@[m]@ == t;
                        if m == i {
                            assert(out@[out@.len() - 1]@ == t);
                        } else {
                            assert(has_str(prevout, t));
                            let k = choose|k: int| 0 <= k < prevout.len() && prevout[k]@ == t;
                            assert(out@[k]@ == t);
                        }
                    }
                }
            }
        } else {
            proof {
                assert(has_str(names@, tokens@[i as int]@));
                assert forall|t: Seq<char>|
                    has_str(out@, t) <==> ((exists|m: int| 0 <= m < i + 1 && tokens@[m]@ == t)
                        && !has_str(names@, t)) by {
                    if (exists|m: int| 0 <= m < i + 1 && tokens@[m]@ == t) && !has_str(
                        names@,
                        t,
                    ) {
                        let m = choose|m: int| 0 <= m < i + 1 && tokens@[m]@ == t;
                        if m == i {
                            assert(t == tokens@[i as int]@);
                            assert(false);
                        }
                    }
                }
            }
        }
        i += 1;
    }
    out
}

/// Builds the report for a name set and a token set: keeps both and
/// computes the missing sequence.
pub fn reconcile(names: Vec<String>, tokens: Vec<String>) -> (r: ReconciliationReport)
    requires
        sorted_strs(names@),
        sorted_strs(tokens@),
    ensures
        r.wf(),
        r.names@ == names@,
        r.tokens@ == tokens@,
{
    let missing = missing_tokens(&names, &tokens);
    ReconciliationReport { names, tokens, missing }
}

/// The missing set is a subset of the token set and shares nothing with the
/// name set.
pub proof fn lemma_missing_subset_disjoint(r: ReconciliationReport)
    requires
        r.wf(),
    ensures
        forall|t: Seq<char>| has_str(r.missing@, t) ==> has_str(r.tokens@, t),
        forall|t: Seq<char>| !(has_str(r.missing@, t) && has_str(r.names@, t)),
{
}

/// An empty token set leaves nothing missing, whatever the name set.
pub proof fn lemma_empty_tokens(r: ReconciliationReport)
    requires
        r.wf(),
        r.tokens@.len() == 0,
    ensures
        r.missing@.len() == 0,
{
    if r.missing@.len() > 0 {
        assert(has_str(r.missing@, r.missing@[0]@)) by {
            assert(r.missing@[0]@ == r.missing@[0]@);
        }
        assert(has_str(r.tokens@, r.missing@[0]@));
        let k = choose|k: int| 0 <= k < r.tokens@.len() && r.tokens@[k]@ == r.missing@[0]@;
        assert(false);
    }
}

/// With no remote names and a non-empty token set, the missing sequence is
/// the token sequence itself; indeed it is so even for an empty token set.
pub proof fn lemma_empty_names(r: ReconciliationReport)
    requires
        r.wf(),
        r.names@.len() == 0,
    ensures
        r.missing@.len() == r.tokens@.len(),
        forall|k: int| 0 <= k < r.tokens@.len() ==> r.missing@[k]@ == r.tokens@[k]@,
{
    assert forall|t: Seq<char>| has_str(r.missing@, t) <==> has_str(r.tokens@, t) by {
        if has_str(r.names@, t) {
            let k = choose|k: int| 0 <= k < r.names@.len() && r.names@[k]@ == t;
            assert(false);
        }
    }
    lemma_sorted_same_membership(r.missing@, r.tokens@);
}

/// The whole pipeline after the fetch: decodes the response body into the
/// name set, extracts the token set from the file text, and reconciles the
/// two. Succeeds exactly when the body decodes.
pub fn reconcile_from_sources(body: &str, file_text: &str) -> (r: Result<
    ReconciliationReport,
    DecodeError,
>)
    requires
        2 * body@.len() + 16 <= usize::MAX,
    ensures
        (match r {
            Ok(rep) => match spec_decode(body@) {
                Some(recs) => rep.wf() && (forall|t: Seq<char>|
                    has_str(rep.names@, t) <==> has_name(recs, t)) && (forall|t: Seq<char>|
                    has_str(rep.tokens@, t) <==> is_token_of(file_text@, t)),
                None => false,
            },
            Err(e) => spec_decode(body@) is None,
        }),
{
    match decode_variables(body) {
        Err(e) => Err(e),
        Ok(records) => {
            let names = crate::records::variable_names(&records);
            let tokens = extract_tokens(file_text);
            Ok(reconcile(names, tokens))
        },
    }
}

} // verus!
