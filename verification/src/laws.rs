//! Laws that relate compiling, matching, rendering and replacing hints.
use crate::aggregate::{
    capture_all_spec, column, label_columns, lemma_capture_all_rows, name_index, unformat_outcome,
};
use crate::classify::{has_identifier, is_named_spec, survey, Survey};
use crate::compiler::{
    lemma_position_of,
    compile_named_spec, compile_spec, first_repeat, lemma_compiled_is_wf, lemma_first_repeat,
    lemma_position_is, parse_slot, scan, scan_start, scan_step, Scan,
};
use crate::errors::{MatchError, MatchFault, SyntaxFault};
use crate::matcher::{
    capture_spec, interleave, interleave_upto, lemma_interleave_prefix, lemma_progress_rebuilds,
    progress, take_literal,
};
use crate::text::{first_occurrence, lemma_first_occurrence, trim_spec};
use crate::shape::{distinct, plain, plain_word, slot_text, Shape};
use crate::vars::Slot;
use vstd::hash_map::StringHashMap;
use vstd::prelude::*;

verus! {

/// Round trip: the values captured from a candidate that matches, put back
/// between the literals, give the candidate again.
pub proof fn law_round_trip(literals: Seq<Seq<char>>, s: Seq<char>)
    requires
        literals.len() >= 1,
    ensures
        match capture_spec(literals, s) {
            Ok(values) => values.len() == literals.len() - 1 && interleave(literals, values) == s,
            Err(_) => true,
        },
{
    lemma_progress_rebuilds(literals, s, (literals.len() - 1) as nat);
    match capture_spec(literals, s) {
        Ok(values) => {
            assert(s.take(s.len() as int) =~= s);
        },
        Err(_) => {},
    }
}

/// Whether value `j` ends where the literal behind it first occurs: a literal
/// that is not empty stands at its leftmost occurrence at or after the
/// place where the value begins, and before an empty literal the value runs
/// to the end of the candidate.
pub open spec fn stands_leftmost(
    literals: Seq<Seq<char>>,
    s: Seq<char>,
    values: Seq<Seq<char>>,
    j: int,
) -> bool {
    let from = interleave_upto(literals, values, j as nat).len();
    if literals[j + 1].len() == 0 {
        from + values[j].len() == s.len()
    } else {
        first_occurrence(s, literals[j + 1], from as int) == Some((from + values[j].len()) as int)
    }
}

/// After the literals `0..=k` each value captured so far ends where the
/// literal behind it first occurs.
pub proof fn lemma_progress_leftmost(literals: Seq<Seq<char>>, s: Seq<char>, k: nat)
    requires
        k < literals.len(),
    ensures
        match progress(literals, s, k) {
            Ok(p) => forall|j: int| 0 <= j < k ==> stands_leftmost(literals, s, p.values, j),
            Err(_) => true,
        },
    decreases k,
{
    if k > 0 {
        lemma_progress_leftmost(literals, s, (k - 1) as nat);
        lemma_progress_rebuilds(literals, s, (k - 1) as nat);
        lemma_progress_rebuilds(literals, s, k);
        match progress(literals, s, (k - 1) as nat) {
            Err(_) => {},
            Ok(p) => {
                match take_literal(p, literals[k as int], s) {
                    Err(_) => {},
                    Ok(q) => {
                        assert forall|j: int| 0 <= j < k implies stands_leftmost(
                            literals,
                            s,
                            q.values,
                            j,
                        ) by {
                            lemma_interleave_prefix(literals, p.values, q.values, j as nat);
                            if j < k - 1 {
                                assert(stands_leftmost(literals, s, p.values, j));
                                assert(q.values[j] == p.values[j]);
                            } else {
                                assert(s.take(p.at).len() == p.at);
                                if literals[k as int].len() > 0 {
                                    lemma_first_occurrence(s, literals[k as int], p.at);
                                }
                            }
                        }
                    },
                }
            },
        }
    }
}

/// Leftmost matching: in a candidate that matches, every literal but the
/// first stands at its leftmost occurrence behind the literal before it,
/// and a value before an empty literal runs to the end of the candidate.
pub proof fn law_leftmost(literals: Seq<Seq<char>>, s: Seq<char>)
    requires
        literals.len() >= 1,
    ensures
        match capture_spec(literals, s) {
            Ok(values) => forall|j: int|
                0 <= j < values.len() ==> stands_leftmost(literals, s, values, j),
            Err(_) => true,
        },
{
    lemma_progress_leftmost(literals, s, (literals.len() - 1) as nat);
    lemma_progress_rebuilds(literals, s, (literals.len() - 1) as nat);
}

/// Many candidates: where all of them match, row `i` holds what candidate
/// `i` captures. Where one does not, the fault is that of the first
/// candidate that does not match.
pub proof fn law_capture_all(literals: Seq<Seq<char>>, candidates: Seq<Seq<char>>)
    requires
        literals.len() >= 1,
    ensures
        match capture_all_spec(literals, candidates) {
            Ok(rows) => {
                &&& rows.len() == candidates.len()
                &&& forall|i: int|
                    0 <= i < rows.len() ==> capture_spec(literals, candidates[i]) == Ok::<
                        Seq<Seq<char>>,
                        MatchFault,
                    >(#[trigger] rows[i])
            },
            Err(e) => exists|i: int|
                {
                    &&& 0 <= i < candidates.len()
                    &&& capture_spec(literals, candidates[i]) == Err::<Seq<Seq<char>>, MatchFault>(
                        e,
                    )
                    &&& forall|j: int| 0 <= j < i ==> capture_spec(literals, #[trigger] candidates[j]) is Ok
                },
        },
    decreases candidates.len(),
{
    lemma_capture_all_rows(literals, candidates);
    if candidates.len() > 0 {
        let prev = candidates.drop_last();
        let last = candidates.len() - 1;
        law_capture_all(literals, prev);
        lemma_capture_all_rows(literals, prev);
        match capture_all_spec(literals, prev) {
            Err(e) => {
                let i = choose|i: int|
                    {
                        &&& 0 <= i < prev.len()
                        &&& capture_spec(literals, prev[i]) == Err::<Seq<Seq<char>>, MatchFault>(e)
                        &&& forall|j: int| 0 <= j < i ==> capture_spec(literals, #[trigger] prev[j]) is Ok
                    };
                assert(candidates[i] == prev[i]);
                assert forall|j: int| 0 <= j < i implies capture_spec(
                    literals,
                    #[trigger] candidates[j],
                ) is Ok by {
                    assert(candidates[j] == prev[j]);
                }
            },
            Ok(rows) => {
                match capture_spec(literals, candidates.last()) {
                    Err(e) => {
                        assert forall|j: int| 0 <= j < last implies capture_spec(
                            literals,
                            #[trigger] candidates[j],
                        ) is Ok by {
                            assert(candidates[j] == prev[j]);
                            assert(capture_spec(literals, prev[j]) == Ok::<Seq<Seq<char>>, MatchFault>(rows[j]));
                        }
                        assert(candidates[last] == candidates.last());
                    },
                    Ok(_) => {},
                }
            },
        }
    }
}

/// `matches` says yes exactly where `unformat` succeeds.
pub proof fn law_matches_agrees(
    literals: Seq<Seq<char>>,
    s: Seq<char>,
    keys: Map<Seq<char>, usize>,
    r: Result<(StringHashMap<usize>, Vec<String>), MatchError>,
    b: bool,
)
    requires
        unformat_outcome(r, keys, literals, s),
        b == (capture_spec(literals, s) is Ok),
    ensures
        b == (r is Ok),
{
}

/// A pattern has as many format hints as identifiers as placeholders, and
/// one literal more.
pub proof fn law_counts(p: Shape)
    requires
        p.wf(),
    ensures
        p.hints().len() == p.names().len(),
        p.names().len() == p.placeholder_count(),
        p.placeholder_count() == p.literals.len() - 1,
{
}

/// Replacing the format hints gives a pattern whose hints are the new ones,
/// with the literals and the identifiers that it had.
pub proof fn law_with_hints(p: Shape, hints: Seq<Seq<char>>)
    requires
        p.wf(),
        hints.len() == p.placeholder_count(),
    ensures
        p.with_hints(hints).wf(),
        p.with_hints(hints).hints() == hints,
        p.with_hints(hints).names() == p.names(),
        p.with_hints(hints).literals == p.literals,
{
    let q = p.with_hints(hints);
    assert(q.hints() =~= hints);
    assert(q.names() =~= p.names());
}

/// The scanner run over `b`, from the state or fault `from`.
pub open spec fn run(from: Result<Scan, SyntaxFault>, b: Seq<char>) -> Result<Scan, SyntaxFault>
    decreases b.len(),
{
    if b.len() == 0 {
        from
    } else {
        match run(from, b.drop_last()) {
            Err(e) => Err(e),
            Ok(st) => scan_step(st, b.last()),
        }
    }
}

/// A scan is a run from the start.
pub proof fn lemma_scan_is_run(t: Seq<char>)
    ensures
        scan(t) == run(Ok(scan_start()), t),
    decreases t.len(),
{
    if t.len() > 0 {
        lemma_scan_is_run(t.drop_last());
    }
}

/// A run over two texts in a row is a run over the first followed by a run
/// over the second.
pub proof fn lemma_run_concat(from: Result<Scan, SyntaxFault>, a: Seq<char>, b: Seq<char>)
    ensures
        run(from, a + b) == run(run(from, a), b),
    decreases b.len(),
{
    if b.len() == 0 {
        assert(a + b =~= a);
    } else {
        assert((a + b).drop_last() =~= a + b.drop_last());
        lemma_run_concat(from, a, b.drop_last());
    }
}

/// A run over one character is one step.
pub proof fn lemma_run_one(st: Scan, c: char)
    ensures
        run(Ok(st), seq![c]) == scan_step(st, c),
{
    let one = seq![c];
    let from: Result<Scan, SyntaxFault> = Ok(st);
    assert(one.drop_last() =~= Seq::<char>::empty());
    assert(run(from, one.drop_last()) == from);
    assert(one.last() == c);
}

/// A run over text without braces adds the text to what is being collected.
pub proof fn lemma_run_plain(st: Scan, b: Seq<char>)
    requires
        plain(b),
    ensures
        run(Ok(st), b) == Ok::<Scan, SyntaxFault>(
            Scan {
                literals: st.literals,
                slots: st.slots,
                text: st.text + b,
                inside: st.inside,
                closed: st.closed && b.len() == 0,
            },
        ),
    decreases b.len(),
{
    if b.len() == 0 {
        assert(st.text + b =~= st.text);
    } else {
        lemma_run_plain(st, b.drop_last());
        assert(st.text + b =~= (st.text + b.drop_last()).push(b.last()));
    }
}

/// The text between the braces of a placeholder.
pub open spec fn slot_body(slot: Slot) -> Seq<char> {
    match slot.hint {
        Some(h) => slot.name + seq![':'] + h,
        None => slot.name,
    }
}

/// Reading back the text of a placeholder whose identifier and hint a
/// template can spell gives that placeholder.
pub proof fn lemma_parse_slot_body(slot: Slot)
    requires
        plain_word(slot.name),
        match slot.hint {
            Some(h) => plain_word(h) && trim_spec(h) == h,
            None => true,
        },
    ensures
        plain(slot_body(slot)),
        parse_slot(slot_body(slot)) == Ok::<Slot, SyntaxFault>(slot),
        slot_text(slot) == seq!['{'] + slot_body(slot) + seq!['}'],
{
    let body = slot_body(slot);
    match slot.hint {
        None => {
            lemma_position_is(body, ':', body.len() as int);
        },
        Some(h) => {
            let at = slot.name.len() as int;
            lemma_position_is(body, ':', at);
            let rest = body.skip(at + 1);
            assert(rest =~= h);
            lemma_position_is(rest, ':', rest.len() as int);
            assert(body.take(at) =~= slot.name);
            assert(slot_text(slot) =~= seq!['{'] + slot_body(slot) + seq!['}']);
        },
    }
}

/// The scanner after the rendered text up to literal `k` has gathered the
/// literals and placeholders before `k`, and holds literal `k` as its text.
pub proof fn lemma_scan_render_upto(p: Shape, k: nat)
    requires
        p.wf(),
        p.canonical(),
        k <= p.slots.len(),
    ensures
        scan(p.render_upto(k)) == Ok::<Scan, SyntaxFault>(
            Scan {
                literals: p.literals.take(k as int),
                slots: p.slots.take(k as int),
                text: p.literals[k as int],
                inside: false,
                closed: k > 0 && p.literals[k as int].len() == 0,
            },
        ),
    decreases k,
{
    let start: Result<Scan, SyntaxFault> = Ok(scan_start());
    if k == 0 {
        let lit = p.literals[0];
        lemma_scan_is_run(lit);
        lemma_run_plain(scan_start(), lit);
        assert(scan_start().text + lit =~= lit);
        assert(p.literals.take(0) =~= Seq::<Seq<char>>::empty());
        assert(p.slots.take(0) =~= Seq::<Slot>::empty());
    } else {
        let j = (k - 1) as nat;
        lemma_scan_render_upto(p, j);
        let prefix = p.render_upto(j);
        let slot = p.slots[j as int];
        let body = slot_body(slot);
        let lit = p.literals[k as int];
        lemma_parse_slot_body(slot);
        let open = seq!['{'];
        let close = seq!['}'];
        let whole = p.render_upto(k);
        assert(whole =~= prefix + open + body + close + lit);
        lemma_scan_is_run(whole);
        lemma_scan_is_run(prefix);
        lemma_run_concat(start, prefix + open + body + close, lit);
        lemma_run_concat(start, prefix + open + body, close);
        lemma_run_concat(start, prefix + open, body);
        lemma_run_concat(start, prefix, open);
        let s0 = scan(prefix)->Ok_0;
        lemma_run_one(s0, '{');
        let s1 = scan_step(s0, '{')->Ok_0;
        assert(s0.literals.push(s0.text) =~= p.literals.take(k as int));
        lemma_run_plain(s1, body);
        let s2 = run(Ok(s1), body)->Ok_0;
        assert(s1.text + body =~= body);
        lemma_run_one(s2, '}');
        let s3 = scan_step(s2, '}')->Ok_0;
        assert(s2.slots.push(slot) =~= p.slots.take(k as int));
        lemma_run_plain(s3, lit);
        assert(s3.text + lit =~= lit);
    }
}

/// Rendering and recompiling: the text of a pattern whose hints a template
/// can spell compiles to that pattern.
pub proof fn law_render_recompiles(p: Shape)
    requires
        p.wf(),
        p.canonical(),
    ensures
        compile_spec(p.render()) == Ok::<Shape, SyntaxFault>(p),
{
    let n = p.slots.len();
    lemma_scan_render_upto(p, n);
    assert(p.literals.take(n as int).push(p.literals[n as int]) =~= p.literals);
    assert(p.slots.take(n as int) =~= p.slots);
}

/// Rendering and recompiling, for every template: the pattern that a
/// template compiles to is the pattern that its own rendered text compiles
/// to. And the text of a pattern compiles to that pattern exactly where
/// the pattern is well formed with hints that a template can spell.
pub proof fn law_compiled_recompiles(t: Seq<char>, p: Shape)
    ensures
        compile_spec(t) == Ok::<Shape, SyntaxFault>(p) ==> compile_spec(p.render()) == Ok::<
            Shape,
            SyntaxFault,
        >(p),
        compile_spec(p.render()) == Ok::<Shape, SyntaxFault>(p) <==> p.wf() && p.canonical(),
{
    lemma_compiled_is_wf(t);
    lemma_compiled_is_wf(p.render());
    if p.wf() && p.canonical() {
        law_render_recompiles(p);
    }
}

/// Named compilation succeeds exactly where positional compilation does and
/// no identifier stands twice, and then gives the same pattern. It fails
/// with the fault of positional compilation, or else with an identifier
/// that stands twice. Positional compilation never fails for an identifier
/// that stands twice.
pub proof fn law_named_compilation(t: Seq<char>)
    ensures
        match compile_spec(t) {
            Ok(p) => if distinct(p.names()) {
                compile_named_spec(t) == Ok::<Shape, SyntaxFault>(p)
            } else {
                exists|i: int, j: int|
                    0 <= i < j < p.names().len() && p.names()[i] == p.names()[j]
                        && compile_named_spec(t) == Err::<Shape, SyntaxFault>(
                        SyntaxFault::DuplicateIdentifier { name: p.names()[j] },
                    )
            },
            Err(e) => compile_named_spec(t) == Err::<Shape, SyntaxFault>(e) && !(e is DuplicateIdentifier),
        },
{
    match compile_spec(t) {
        Ok(p) => {
            let names = p.names();
            lemma_first_repeat(names, names.len());
            assert(names.take(names.len() as int) =~= names);
            match first_repeat(names, names.len()) {
                Some(j) => {
                    let prev = names.take(j);
                    let i = choose|i: int| 0 <= i < prev.len() && prev[i] == names[j];
                    assert(names[i] == names[j]);
                },
                None => {},
            }
        },
        Err(e) => {
            lemma_compile_fault_kind(t);
        },
    }
}

/// A scan never fails for an identifier that stands twice.
pub proof fn lemma_compile_fault_kind(t: Seq<char>)
    ensures
        match scan(t) {
            Err(e) => !(e is DuplicateIdentifier),
            Ok(_) => true,
        },
    decreases t.len(),
{
    if t.len() > 0 {
        lemma_compile_fault_kind(t.drop_last());
    }
}

/// The index of names holds the names and nothing else, and gives each name
/// the last position at which it stands: its only position, where the
/// names differ from each other.
pub proof fn law_name_index(names: Seq<Seq<char>>)
    requires
        names.len() <= usize::MAX,
    ensures
        forall|x: Seq<char>| name_index(names).contains_key(x) <==> names.contains(x),
        forall|i: int|
            0 <= i < names.len() && (forall|j: int| i < j < names.len() ==> names[j] != names[i])
                ==> name_index(names)[#[trigger] names[i]] == i,
    decreases names.len(),
{
    if names.len() > 0 {
        let prev = names.drop_last();
        let last = names.len() - 1;
        law_name_index(prev);
        assert forall|x: Seq<char>| name_index(names).contains_key(x) <==> names.contains(
            x,
        ) by {
            if names.contains(x) {
                let a = choose|a: int| 0 <= a < names.len() && names[a] == x;
                if a < prev.len() {
                    assert(prev[a] == x);
                }
            }
            if prev.contains(x) {
                let a = choose|a: int| 0 <= a < prev.len() && prev[a] == x;
                assert(names[a] == x);
            }
            assert(names[last] == names.last());
        }
        assert forall|i: int|
            0 <= i < names.len() && (forall|j: int|
                i < j < names.len() ==> names[j] != names[i]) implies name_index(
            names,
        )[#[trigger] names[i]] == i by {
            if i < last {
                assert(prev[i] == names[i]);
                assert(names[last] != names[i]);
                assert forall|j: int| i < j < prev.len() implies prev[j] != prev[i] by {
                    assert(prev[j] == names[j]);
                }
            }
        }
    }
}

/// The columns stand under the names of the placeholders and under nothing
/// else, and under each name stands the column of the last placeholder of
/// that name: of its only placeholder, where the names differ from each
/// other.
pub proof fn law_label_columns(names: Seq<Seq<char>>, rows: Seq<Seq<Seq<char>>>, k: nat)
    requires
        k <= names.len(),
    ensures
        forall|x: Seq<char>|
            label_columns(names, rows, k).contains_key(x) <==> names.take(k as int).contains(x),
        forall|i: int|
            0 <= i < k && (forall|j: int| i < j < k ==> names[j] != names[i]) ==> label_columns(
                names,
                rows,
                k,
            )[#[trigger] names[i]] == column(rows, i),
    decreases k,
{
    if k > 0 {
        let prev = names.take(k - 1);
        let now = names.take(k as int);
        law_label_columns(names, rows, (k - 1) as nat);
        assert forall|x: Seq<char>|
            label_columns(names, rows, k).contains_key(x) <==> now.contains(x) by {
            if now.contains(x) {
                let a = choose|a: int| 0 <= a < now.len() && now[a] == x;
                if a < k - 1 {
                    assert(prev[a] == x);
                }
            }
            if prev.contains(x) {
                let a = choose|a: int| 0 <= a < prev.len() && prev[a] == x;
                assert(now[a] == x);
            }
            assert(now[k - 1] == names[k - 1]);
        }
        assert forall|i: int|
            0 <= i < k && (forall|j: int| i < j < k ==> names[j] != names[i]) implies label_columns(
            names,
            rows,
            k,
        )[#[trigger] names[i]] == column(rows, i) by {
            if i < k - 1 {
                assert(names[k - 1] != names[i]);
            }
        }
    }
}

/// Whether a survey and a scan of the same text agree: they are inside a
/// placeholder together and then hold the same text, and the survey knows of
/// the placeholders that the scan has gathered whether they have an
/// identifier.
pub open spec fn survey_agrees(sc: Scan, sv: Survey) -> bool {
    &&& sv.inside == sc.inside
    &&& sc.inside ==> sv.text == sc.text
    &&& sv.named is None <==> sc.slots.len() == 0
    &&& forall|k: int|
        0 <= k < sc.slots.len() ==> sv.named == Some((#[trigger] sc.slots[k]).name.len() > 0)
}

/// Whether some of `slots` have an identifier and others have none.
pub open spec fn mixed(slots: Seq<Slot>) -> bool {
    exists|i: int, j: int|
        0 <= i < slots.len() && 0 <= j < slots.len() && (#[trigger] slots[i]).name.len() > 0 && (
        #[trigger] slots[j]).name.len() == 0
}

/// The placeholder read from a text has an identifier exactly where the
/// text has one.
pub proof fn lemma_slot_has_identifier(body: Seq<char>)
    ensures
        match parse_slot(body) {
            Ok(slot) => slot.name.len() > 0 <==> has_identifier(body),
            Err(_) => true,
        },
{
    lemma_position_of(body, ':');
}

/// Where a scan does not fail, the survey of the same text agrees with it,
/// or has failed because the placeholders are mixed.
pub proof fn lemma_survey_follows_scan(t: Seq<char>)
    requires
        scan(t) is Ok,
    ensures
        match survey(t) {
            Ok(sv) => survey_agrees(scan(t)->Ok_0, sv),
            Err(e) => e == SyntaxFault::MixedPattern && mixed(scan(t)->Ok_0.slots),
        },
    decreases t.len(),
{
    if t.len() > 0 {
        let c = t.last();
        lemma_survey_follows_scan(t.drop_last());
        let sc0 = scan(t.drop_last())->Ok_0;
        let sc = scan(t)->Ok_0;
        match survey(t.drop_last()) {
            Err(_) => {
                let (i, j) = choose|i: int, j: int|
                    0 <= i < sc0.slots.len() && 0 <= j < sc0.slots.len() && (
                    #[trigger] sc0.slots[i]).name.len() > 0 && (#[trigger] sc0.slots[j]).name.len()
                        == 0;
                assert(sc.slots[i] == sc0.slots[i] && sc.slots[j] == sc0.slots[j]);
            },
            Ok(sv0) => {
                if c == '}' {
                    lemma_slot_has_identifier(sc0.text);
                    let slot = parse_slot(sc0.text)->Ok_0;
                    let last = sc0.slots.len() as int;
                    assert(sc.slots[last] == slot);
                    if sv0.named == Some(!has_identifier(sv0.text)) {
                        assert(sc0.slots.len() > 0);
                        assert(sc.slots[0] == sc0.slots[0]);
                        if has_identifier(sv0.text) {
                            assert(sc.slots[last].name.len() > 0 && sc.slots[0].name.len() == 0);
                        } else {
                            assert(sc.slots[0].name.len() > 0 && sc.slots[last].name.len() == 0);
                        }
                    } else {
                        let sv = survey(t)->Ok_0;
                        assert forall|k: int| 0 <= k < sc.slots.len() implies sv.named == Some(
                            (#[trigger] sc.slots[k]).name.len() > 0,
                        ) by {
                            if k < last {
                                assert(sc.slots[k] == sc0.slots[k]);
                            }
                        }
                    }
                }
            },
        }
    }
}

/// Classifying and compiling: of a template that compiles, the classifier
/// says `true` exactly where there are placeholders and each has an
/// identifier, and `false` exactly where there are placeholders and none
/// has an identifier. It fails where there is no placeholder, and where
/// some placeholders have an identifier and others have none.
pub proof fn law_classification(t: Seq<char>)
    ensures
        match compile_spec(t) {
            Ok(p) => match is_named_spec(t) {
                Ok(named) => p.slots.len() > 0 && forall|k: int|
                    0 <= k < p.slots.len() ==> ((#[trigger] p.slots[k]).name.len() > 0) == named,
                Err(e) => if p.slots.len() == 0 {
                    e == SyntaxFault::NoPlaceholder
                } else {
                    e == SyntaxFault::MixedPattern && mixed(p.slots)
                },
            },
            Err(_) => true,
        },
{
    if scan(t) is Ok {
        lemma_survey_follows_scan(t);
    }
}

} // verus!
