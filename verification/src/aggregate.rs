//! What matching hands out beyond the captured values of one candidate: the
//! captures with their placeholders, the index of names, and the results of
//! many candidates by row and by column.
use crate::errors::{MatchError, MatchFault};
use crate::matcher::{capture_spec, lemma_progress_rebuilds};
use crate::shape::Shape;
use crate::text::texts;
use crate::vars::{captures_of, Capture, NamedVar};
use vstd::hash_map::StringHashMap;
use vstd::prelude::*;

verus! {

/// The index of names: each name with the position at which it stands, the
/// last such position where a name stands more than once.
pub open spec fn name_index(names: Seq<Seq<char>>) -> Map<Seq<char>, usize>
    decreases names.len(),
{
    if names.len() == 0 {
        Map::empty()
    } else {
        name_index(names.drop_last()).insert(names.last(), (names.len() - 1) as usize)
    }
}

/// The captures of the candidate `s`: each captured value with the hint and
/// the identifier of its placeholder.
pub open spec fn parse_spec(p: Shape, s: Seq<char>) -> Result<Seq<Capture>, MatchFault> {
    match capture_spec(p.literals, s) {
        Err(e) => Err(e),
        Ok(values) => Ok(
            Seq::new(
                values.len(),
                |k: int| Capture { value: values[k], hint: p.slots[k].hint, name: p.slots[k].name },
            ),
        ),
    }
}

/// The captured values of each candidate, in the order of the candidates, or
/// the fault of the first candidate that does not match.
pub open spec fn capture_all_spec(literals: Seq<Seq<char>>, candidates: Seq<Seq<char>>) -> Result<
    Seq<Seq<Seq<char>>>,
    MatchFault,
>
    decreases candidates.len(),
{
    if candidates.len() == 0 {
        Ok(Seq::empty())
    } else {
        match capture_all_spec(literals, candidates.drop_last()) {
            Err(e) => Err(e),
            Ok(rows) => match capture_spec(literals, candidates.last()) {
                Err(e) => Err(e),
                Ok(values) => Ok(rows.push(values)),
            },
        }
    }
}

/// What placeholder `j` captured in each row.
pub open spec fn column(rows: Seq<Seq<Seq<char>>>, j: int) -> Seq<Seq<char>> {
    Seq::new(rows.len(), |i: int| rows[i][j])
}

/// The columns of the first `k` placeholders, each under the name of its
/// placeholder. Where two placeholders share a name, the later one's column
/// stands under it.
pub open spec fn label_columns(names: Seq<Seq<char>>, rows: Seq<Seq<Seq<char>>>, k: nat) -> Map<
    Seq<char>,
    Seq<Seq<char>>,
>
    decreases k,
{
    if k == 0 {
        Map::empty()
    } else {
        label_columns(names, rows, (k - 1) as nat).insert(names[k - 1], column(rows, k - 1))
    }
}

/// The captured values of all candidates by column: one list for the name of
/// each placeholder, or the fault of the first candidate that does not match.
pub open spec fn capture_columns_spec(p: Shape, candidates: Seq<Seq<char>>) -> Result<
    Map<Seq<char>, Seq<Seq<char>>>,
    MatchFault,
> {
    match capture_all_spec(p.literals, candidates) {
        Err(e) => Err(e),
        Ok(rows) => Ok(label_columns(p.names(), rows, p.slots.len())),
    }
}

/// The texts of rows of strings.
pub open spec fn tables(rows: Seq<Vec<String>>) -> Seq<Seq<Seq<char>>> {
    Seq::new(rows.len(), |i: int| texts(rows[i]@))
}

/// Whether the lists of strings in `d` have the texts that `m` gives, under
/// the same keys.
pub open spec fn dict_matches(
    d: Map<Seq<char>, Vec<String>>,
    m: Map<Seq<char>, Seq<Seq<char>>>,
) -> bool {
    &&& d.dom() =~= m.dom()
    &&& forall|k: Seq<char>| #[trigger] d.contains_key(k) ==> texts(d[k]@) == m[k]
}

/// `r` is what parsing the candidate `s` with the pattern `p` gives.
pub open spec fn parse_outcome(r: Result<Vec<NamedVar>, MatchError>, p: Shape, s: Seq<char>) -> bool {
    match r {
        Ok(found) => parse_spec(p, s) == Ok::<Seq<Capture>, MatchFault>(captures_of(found@)),
        Err(e) => parse_spec(p, s) == Err::<Seq<Capture>, MatchFault>(e@),
    }
}

/// `r` is what matching the candidate `s` against `literals` gives, with
/// `keys` as the index of names.
pub open spec fn unformat_outcome(
    r: Result<(StringHashMap<usize>, Vec<String>), MatchError>,
    keys: Map<Seq<char>, usize>,
    literals: Seq<Seq<char>>,
    s: Seq<char>,
) -> bool {
    match r {
        Ok((index, values)) => {
            &&& index@ == keys
            &&& capture_spec(literals, s) == Ok::<Seq<Seq<char>>, MatchFault>(texts(values@))
        },
        Err(e) => capture_spec(literals, s) == Err::<Seq<Seq<char>>, MatchFault>(e@),
    }
}

/// `r` is what matching each of `candidates` against `literals` gives, with
/// `keys` as the index of names.
pub open spec fn unformat_all_outcome(
    r: Result<(StringHashMap<usize>, Vec<Vec<String>>), MatchError>,
    keys: Map<Seq<char>, usize>,
    literals: Seq<Seq<char>>,
    candidates: Seq<Seq<char>>,
) -> bool {
    match r {
        Ok((index, rows)) => {
            &&& index@ == keys
            &&& capture_all_spec(literals, candidates) == Ok::<Seq<Seq<Seq<char>>>, MatchFault>(
                tables(rows@),
            )
        },
        Err(e) => capture_all_spec(literals, candidates) == Err::<
            Seq<Seq<Seq<char>>>,
            MatchFault,
        >(e@),
    }
}

/// `r` is what matching each of `candidates` with the pattern `p` gives by
/// column, with `keys` as the index of names.
pub open spec fn unformat_to_dict_outcome(
    r: Result<(StringHashMap<usize>, StringHashMap<Vec<String>>), MatchError>,
    keys: Map<Seq<char>, usize>,
    p: Shape,
    candidates: Seq<Seq<char>>,
) -> bool {
    match r {
        Ok((index, dict)) => {
            &&& index@ == keys
            &&& match capture_columns_spec(p, candidates) {
                Ok(m) => dict_matches(dict@, m),
                Err(_) => false,
            }
        },
        Err(e) => capture_columns_spec(p, candidates) == Err::<
            Map<Seq<char>, Seq<Seq<char>>>,
            MatchFault,
        >(e@),
    }
}

/// A candidate that matches yields one value for each placeholder.
pub proof fn lemma_capture_count(literals: Seq<Seq<char>>, s: Seq<char>)
    requires
        literals.len() >= 1,
    ensures
        match capture_spec(literals, s) {
            Ok(values) => values.len() == literals.len() - 1,
            Err(_) => true,
        },
{
    lemma_progress_rebuilds(literals, s, (literals.len() - 1) as nat);
}

/// A fault among the first candidates is the fault of all of them.
pub proof fn lemma_capture_all_fault_stays(
    literals: Seq<Seq<char>>,
    candidates: Seq<Seq<char>>,
    i: int,
)
    requires
        0 <= i <= candidates.len(),
        capture_all_spec(literals, candidates.take(i)) is Err,
    ensures
        capture_all_spec(literals, candidates) == capture_all_spec(literals, candidates.take(i)),
    decreases candidates.len() - i,
{
    if i < candidates.len() {
        assert(candidates.take(i + 1).drop_last() =~= candidates.take(i));
        lemma_capture_all_fault_stays(literals, candidates, i + 1);
    } else {
        assert(candidates.take(i) =~= candidates);
    }
}

/// Where all candidates match, there is one row for each candidate: the
/// values that this candidate holds, one for each placeholder.
pub proof fn lemma_capture_all_rows(literals: Seq<Seq<char>>, candidates: Seq<Seq<char>>)
    requires
        literals.len() >= 1,
    ensures
        match capture_all_spec(literals, candidates) {
            Ok(rows) => {
                &&& rows.len() == candidates.len()
                &&& forall|i: int|
                    0 <= i < rows.len() ==> capture_spec(literals, candidates[i]) == Ok::<
                        Seq<Seq<char>>,
                        MatchFault,
                    >(#[trigger] rows[i])
                &&& forall|i: int|
                    0 <= i < rows.len() ==> (#[trigger] rows[i]).len() == literals.len() - 1
            },
            Err(_) => true,
        },
    decreases candidates.len(),
{
    if candidates.len() > 0 {
        lemma_capture_all_rows(literals, candidates.drop_last());
        lemma_capture_count(literals, candidates.last());
    }
}

} // verus!
