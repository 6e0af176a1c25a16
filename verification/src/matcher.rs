//! Matching a candidate against the literal segments of a pattern: the
//! candidate begins with the first literal, each later literal is looked for
//! at its leftmost occurrence in what is left, and what stands before it is
//! the captured value.
use crate::errors::{MatchError, MatchFault};
use crate::text::{
    chars_of, find_from, first_occurrence, lemma_first_occurrence, matches_at, occurs_at,
    substring, texts,
};
use vstd::prelude::*;

verus! {

/// How far a match has come: the position in the candidate behind the last
/// literal that was matched, and the values captured so far.
pub struct Progress {
    pub at: int,
    pub values: Seq<Seq<char>>,
}

/// Matches one more literal. An empty literal takes all that is left of the
/// candidate as the value. Another one is taken at its leftmost occurrence at
/// or after the current position, and the value is what stands before it.
pub open spec fn take_literal(p: Progress, literal: Seq<char>, s: Seq<char>) -> Result<
    Progress,
    MatchFault,
> {
    if literal.len() == 0 {
        Ok(Progress { at: s.len() as int, values: p.values.push(s.subrange(p.at, s.len() as int)) })
    } else {
        match first_occurrence(s, literal, p.at) {
            Some(found) => Ok(
                Progress {
                    at: found + literal.len(),
                    values: p.values.push(s.subrange(p.at, found)),
                },
            ),
            None => Err(MatchFault::LiteralNotFound { literal }),
        }
    }
}

/// The match of the candidate `s` after the literals `0..=k`, or the first
/// fault on the way.
pub open spec fn progress(literals: Seq<Seq<char>>, s: Seq<char>, k: nat) -> Result<
    Progress,
    MatchFault,
>
    decreases k,
{
    if k == 0 {
        if occurs_at(s, literals[0], 0) {
            Ok(Progress { at: literals[0].len() as int, values: Seq::empty() })
        } else {
            Err(MatchFault::PrefixMismatch { literal: literals[0] })
        }
    } else {
        match progress(literals, s, (k - 1) as nat) {
            Err(e) => Err(e),
            Ok(p) => take_literal(p, literals[k as int], s),
        }
    }
}

/// The values that the candidate `s` holds between the given literals, one for
/// each literal but the first, or the reason why `s` does not match.
pub open spec fn capture_spec(literals: Seq<Seq<char>>, s: Seq<char>) -> Result<
    Seq<Seq<char>>,
    MatchFault,
> {
    match progress(literals, s, (literals.len() - 1) as nat) {
        Err(e) => Err(e),
        Ok(p) => if p.at == s.len() {
            Ok(p.values)
        } else {
            Err(MatchFault::SuffixMismatch { literal: literals.last() })
        },
    }
}

/// The literals `0..=k` with the values `0..k` between them.
pub open spec fn interleave_upto(literals: Seq<Seq<char>>, values: Seq<Seq<char>>, k: nat) -> Seq<
    char,
>
    decreases k,
{
    if k == 0 {
        literals[0]
    } else {
        interleave_upto(literals, values, (k - 1) as nat) + values[k - 1] + literals[k as int]
    }
}

/// The literals with the values between them.
pub open spec fn interleave(literals: Seq<Seq<char>>, values: Seq<Seq<char>>) -> Seq<char> {
    interleave_upto(literals, values, values.len())
}

/// A fault after some literals is the fault of the whole match.
pub proof fn lemma_progress_fault_stays(literals: Seq<Seq<char>>, s: Seq<char>, k: nat, n: nat)
    requires
        k <= n,
        progress(literals, s, k) is Err,
    ensures
        progress(literals, s, n) == progress(literals, s, k),
    decreases n - k,
{
    if k < n {
        lemma_progress_fault_stays(literals, s, k, (n - 1) as nat);
    }
}

/// Values beyond the first `k` have no part in `interleave_upto(.., k)`.
pub proof fn lemma_interleave_prefix(
    literals: Seq<Seq<char>>,
    values: Seq<Seq<char>>,
    more: Seq<Seq<char>>,
    k: nat,
)
    requires
        k <= values.len() <= more.len(),
        forall|i: int| 0 <= i < values.len() ==> values[i] == more[i],
    ensures
        interleave_upto(literals, more, k) == interleave_upto(literals, values, k),
    decreases k,
{
    if k > 0 {
        lemma_interleave_prefix(literals, values, more, (k - 1) as nat);
    }
}

/// After the literals `0..=k` the match has captured `k` values, stands inside
/// the candidate, and what lies behind it is the literals read so far with the
/// values between them.
pub proof fn lemma_progress_rebuilds(literals: Seq<Seq<char>>, s: Seq<char>, k: nat)
    requires
        k < literals.len(),
    ensures
        match progress(literals, s, k) {
            Ok(p) => {
                &&& 0 <= p.at <= s.len()
                &&& p.values.len() == k
                &&& s.take(p.at) == interleave_upto(literals, p.values, k)
            },
            Err(_) => true,
        },
    decreases k,
{
    if k == 0 {
        if occurs_at(s, literals[0], 0) {
            assert(s.take(literals[0].len() as int) =~= s.subrange(0, 0 + literals[0].len() as int));
        }
    } else {
        lemma_progress_rebuilds(literals, s, (k - 1) as nat);
        match progress(literals, s, (k - 1) as nat) {
            Err(_) => {},
            Ok(p) => {
                let literal = literals[k as int];
                match take_literal(p, literal, s) {
                    Err(_) => {},
                    Ok(q) => {
                        lemma_interleave_prefix(literals, p.values, q.values, (k - 1) as nat);
                        if literal.len() == 0 {
                            assert(s.take(q.at) =~= s.take(p.at) + s.subrange(p.at, s.len() as int)
                                + literal);
                        } else {
                            lemma_first_occurrence(s, literal, p.at);
                            let found = first_occurrence(s, literal, p.at)->0;
                            assert(s.take(q.at) =~= s.take(p.at) + s.subrange(p.at, found)
                                + s.subrange(found, found + literal.len()));
                        }
                    },
                }
            },
        }
    }
}

/// Matches `s` against the literals `consts` and hands out the captured
/// values, in order.
pub fn capture(consts: &Vec<String>, s: &str) -> (r: Result<Vec<String>, MatchError>)
    requires
        consts.len() >= 1,
    ensures
        match r {
            Ok(values) => capture_spec(texts(consts@), s@) == Ok::<Seq<Seq<char>>, MatchFault>(
                texts(values@),
            ),
            Err(e) => capture_spec(texts(consts@), s@) == Err::<Seq<Seq<char>>, MatchFault>(e@),
        },
{
    let ghost literals = texts(consts@);
    let ghost last = (consts.len() - 1) as nat;
    let hay: Vec<char> = chars_of(s);
    let first: Vec<char> = chars_of(consts[0].as_str());
    if !matches_at(&hay, &first, 0) {
        proof {
            lemma_progress_fault_stays(literals, s@, 0, last);
        }
        return Err(MatchError::PrefixMismatch { literal: consts[0].clone() });
    }
    let mut at: usize = first.len();
    let mut values: Vec<String> = Vec::new();
    let mut k: usize = 1;
    assert(texts(values@) =~= Seq::<Seq<char>>::empty());
    while k < consts.len()
        invariant
            1 <= k <= consts.len(),
            hay@ == s@,
            literals == texts(consts@),
            last == consts.len() - 1,
            at <= hay.len(),
            progress(literals, s@, (k - 1) as nat) == Ok::<Progress, MatchFault>(
                Progress { at: at as int, values: texts(values@) },
            ),
        decreases consts.len() - k,
    {
        let literal: Vec<char> = chars_of(consts[k].as_str());
        if literal.len() == 0 {
            let value: String = substring(s, at, hay.len());
            proof {
                assert(texts(values@.push(value)) =~= texts(values@).push(value@));
            }
            values.push(value);
            at = hay.len();
        } else {
            match find_from(&hay, &literal, at) {
                None => {
                    proof {
                        lemma_progress_fault_stays(literals, s@, k as nat, last);
                    }
                    return Err(MatchError::LiteralNotFound { literal: consts[k].clone() });
                },
                Some(found) => {
                    proof {
                        lemma_first_occurrence(hay@, literal@, at as int);
                    }
                    let value: String = substring(s, at, found);
                    proof {
                        assert(texts(values@.push(value)) =~= texts(values@).push(value@));
                    }
                    values.push(value);
                    at = found + literal.len();
                },
            }
        }
        k += 1;
    }
    if at != hay.len() {
        return Err(MatchError::SuffixMismatch { literal: consts[consts.len() - 1].clone() });
    }
    Ok(values)
}

} // verus!
