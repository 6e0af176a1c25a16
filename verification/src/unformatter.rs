//! Compiled patterns, positional and named, and what can be asked of them.
use crate::aggregate::{
    capture_all_spec, column, dict_matches, label_columns, lemma_capture_all_fault_stays,
    lemma_capture_all_rows, lemma_capture_count, name_index, parse_outcome, tables,
    unformat_all_outcome, unformat_outcome, unformat_to_dict_outcome,
};
use crate::compiler::{compile, compile_named, compile_named_spec, compile_spec};
use crate::errors::{LengthMismatchError, MatchError, MatchFault, SyntaxError, SyntaxFault};
use crate::matcher::{capture, capture_spec};
use crate::shape::{distinct, slot_text, Shape};
use crate::text::{slice_texts, texts};
use crate::vars::{captures_of, slots_of, Capture, NamedVar, Slot, Var};
use vstd::hash_map::StringHashMap;
use vstd::prelude::*;

verus! {

/// A copy of an optional string.
fn copy_hint(fmt: &Option<String>) -> (r: Option<String>)
    ensures
        r == *fmt,
{
    match fmt {
        Some(f) => Some(f.clone()),
        None => None,
    }
}

/// What a compiled pattern offers, whichever way its results are keyed. A
/// type that implements the trait hands out its literal segments and its
/// placeholders, and says what index of names goes with a match.
pub trait PatternTrait {
    /// The pattern as mathematics sees it.
    spec fn shape(&self) -> Shape;

    /// The index of names that goes with every match of this pattern.
    spec fn keys(&self) -> Map<Seq<char>, usize>;

    /// The literal segments, in order.
    fn consts(&self) -> (r: &Vec<String>)
        ensures
            self.shape().wf(),
            texts(r@) == self.shape().literals,
    ;

    /// The placeholders, in order.
    fn vars(&self) -> (r: &Vec<Var>)
        ensures
            slots_of(r@) == self.shape().slots,
    ;

    /// The index of names that goes with every match of this pattern.
    fn name_index(&self) -> (r: StringHashMap<usize>)
        ensures
            r@ == self.keys(),
    ;

    /// Matches `s` and hands out each captured value with the hint and the
    /// identifier of its placeholder.
    fn parse_string(&self, s: &str) -> (r: Result<Vec<NamedVar>, MatchError>)
        ensures
            parse_outcome(r, self.shape(), s@),
    {
        let consts = self.consts();
        let vars = self.vars();
        proof {
            lemma_capture_count(self.shape().literals, s@);
        }
        match capture(consts, s) {
            Err(e) => Err(e),
            Ok(values) => {
                let mut found: Vec<NamedVar> = Vec::new();
                let mut k: usize = 0;
                while k < values.len()
                    invariant
                        k <= values.len() == vars.len(),
                        found.len() == k,
                        forall|i: int|
                            0 <= i < k ==> (#[trigger] found@[i])@ == (Capture {
                                value: values@[i]@,
                                hint: vars@[i]@.hint,
                                name: vars@[i]@.name,
                            }),
                    decreases values.len() - k,
                {
                    found.push(
                        NamedVar {
                            value: values[k].clone(),
                            fmt: copy_hint(&vars[k].fmt),
                            name: vars[k].value.clone(),
                        },
                    );
                    k += 1;
                }
                proof {
                    let p = self.shape();
                    let expected = Seq::new(
                        texts(values@).len(),
                        |k: int|
                            Capture {
                                value: texts(values@)[k],
                                hint: p.slots[k].hint,
                                name: p.slots[k].name,
                            },
                    );
                    assert(captures_of(found@) =~= expected);
                }
                Ok(found)
            },
        }
    }

    /// Matches `s` and hands out the index of names with the captured values.
    fn unformat(&self, s: &str) -> (r: Result<(StringHashMap<usize>, Vec<String>), MatchError>)
        ensures
            unformat_outcome(r, self.keys(), self.shape().literals, s@),
    ;

    /// Matches each candidate in turn and hands out the index of names with
    /// one row of captured values for each candidate. The first candidate
    /// that does not match ends the work with its fault.
    fn unformat_all(&self, s: Vec<&str>) -> (r: Result<
        (StringHashMap<usize>, Vec<Vec<String>>),
        MatchError,
    >)
        ensures
            unformat_all_outcome(r, self.keys(), self.shape().literals, slice_texts(s@)),
    {
        let ghost literals = self.shape().literals;
        let ghost candidates = slice_texts(s@);
        let mut rows: Vec<Vec<String>> = Vec::new();
        let mut i: usize = 0;
        assert(candidates.take(0) =~= Seq::<Seq<char>>::empty());
        assert(tables(rows@) =~= Seq::<Seq<Seq<char>>>::empty());
        while i < s.len()
            invariant
                i <= s.len(),
                literals == self.shape().literals,
                candidates == slice_texts(s@),
                capture_all_spec(literals, candidates.take(i as int)) == Ok::<
                    Seq<Seq<Seq<char>>>,
                    MatchFault,
                >(tables(rows@)),
            decreases s.len() - i,
        {
            proof {
                assert(candidates.take(i + 1).drop_last() =~= candidates.take(i as int));
                assert(candidates.take(i + 1).last() == s@[i as int]@);
            }
            match self.unformat(s[i]) {
                Err(e) => {
                    proof {
                        lemma_capture_all_fault_stays(literals, candidates, i + 1);
                    }
                    return Err(e);
                },
                Ok((_, values)) => {
                    proof {
                        assert(tables(rows@.push(values)) =~= tables(rows@).push(texts(values@)));
                    }
                    rows.push(values);
                },
            }
            i += 1;
        }
        proof {
            assert(candidates.take(s.len() as int) =~= candidates);
        }
        Ok((self.name_index(), rows))
    }

    /// Matches each candidate in turn and hands out the index of names with
    /// the captured values by column: under the identifier of each
    /// placeholder, what it captured in each candidate. Where two
    /// placeholders share an identifier, the column of the later one stands
    /// under it. The first candidate that does not match ends the work with
    /// its fault.
    fn unformat_to_dict(&self, s: Vec<&str>) -> (r: Result<
        (StringHashMap<usize>, StringHashMap<Vec<String>>),
        MatchError,
    >)
        ensures
            unformat_to_dict_outcome(r, self.keys(), self.shape(), slice_texts(s@)),
    {
        let ghost p = self.shape();
        let ghost candidates = slice_texts(s@);
        let consts = self.consts();
        match self.unformat_all(s) {
            Err(e) => Err(e),
            Ok((index, rows)) => {
                let vars = self.vars();
                let n: usize = consts.len() - 1;
                let ghost names = p.names();
                let ghost table = tables(rows@);
                proof {
                    lemma_capture_all_rows(p.literals, candidates);
                    assert forall|i: int| 0 <= i < rows.len() implies (#[trigger] rows@[i]).len()
                        == n by {
                        assert(table[i] == texts(rows@[i]@));
                    }
                }
                let mut dict: StringHashMap<Vec<String>> = StringHashMap::new();
                let mut j: usize = 0;
                while j < n
                    invariant
                        j <= n == vars.len(),
                        names == Shape::names_of(slots_of(vars@)),
                        table == tables(rows@),
                        forall|i: int| 0 <= i < rows.len() ==> (#[trigger] rows@[i]).len() == n,
                        dict_matches(dict@, label_columns(names, table, j as nat)),
                    decreases n - j,
                {
                    let mut col: Vec<String> = Vec::new();
                    let mut i: usize = 0;
                    while i < rows.len()
                        invariant
                            i <= rows.len(),
                            j < n,
                            col.len() == i,
                            forall|i: int| 0 <= i < rows.len() ==> (#[trigger] rows@[i]).len() == n,
                            forall|a: int| 0 <= a < i ==> (#[trigger] col@[a])@ == rows@[a]@[j as int]@,
                        decreases rows.len() - i,
                    {
                        col.push(rows[i][j].clone());
                        i += 1;
                    }
                    proof {
                        assert(texts(col@) =~= column(table, j as int));
                        assert(names[j as int] == vars@[j as int].value@);
                    }
                    dict.insert(vars[j].value.clone(), col);
                    j += 1;
                }
                Ok((index, dict))
            },
        }
    }

    /// Whether `s` matches the pattern.
    fn matches(&self, s: String) -> (b: bool)
        ensures
            b == (capture_spec(self.shape().literals, s@) is Ok),
    {
        self.parse_string(s.as_str()).is_ok()
    }

    /// The format hints of the placeholders, in order; the empty string
    /// where a placeholder has none.
    fn formats(&self) -> (r: Vec<String>)
        ensures
            texts(r@) == self.shape().hints(),
    {
        let vars = self.vars();
        let mut formats: Vec<String> = Vec::new();
        let mut k: usize = 0;
        while k < vars.len()
            invariant
                k <= vars.len(),
                formats.len() == k,
                forall|i: int|
                    0 <= i < k ==> (#[trigger] formats@[i])@ == (match vars@[i]@.hint {
                        Some(h) => h,
                        None => Seq::<char>::empty(),
                    }),
            decreases vars.len() - k,
        {
            match &vars[k].fmt {
                Some(fmt) => formats.push(fmt.clone()),
                None => formats.push(String::new()),
            }
            k += 1;
        }
        assert(texts(formats@) =~= self.shape().hints());
        formats
    }

    /// The identifiers of the placeholders, in order; the empty string for
    /// a placeholder without one.
    fn variables(&self) -> (r: Vec<String>)
        ensures
            texts(r@) == self.shape().names(),
    {
        let vars = self.vars();
        let mut variables: Vec<String> = Vec::new();
        let mut k: usize = 0;
        while k < vars.len()
            invariant
                k <= vars.len(),
                variables.len() == k,
                forall|i: int| 0 <= i < k ==> (#[trigger] variables@[i])@ == vars@[i]@.name,
            decreases vars.len() - k,
        {
            variables.push(vars[k].value.clone());
            k += 1;
        }
        assert(texts(variables@) =~= self.shape().names());
        variables
    }

    /// The template text of the pattern: the literal segments with
    /// `{identifier}` or `{identifier:hint}` between them.
    fn pattern(&self) -> (r: String)
        ensures
            r@ == self.shape().render(),
    {
        let consts = self.consts();
        let vars = self.vars();
        let ghost p = self.shape();
        let mut s: String = consts[0].clone();
        let mut k: usize = 0;
        proof {
            reveal_strlit("{");
            reveal_strlit("}");
            reveal_strlit(":");
            assert("{"@ =~= seq!['{']);
            assert("}"@ =~= seq!['}']);
            assert(":"@ =~= seq![':']);
        }
        while k < vars.len()
            invariant
                k <= vars.len(),
                consts.len() == vars.len() + 1,
                p.literals == texts(consts@),
                p.slots == slots_of(vars@),
                "{"@ == seq!['{'],
                "}"@ == seq!['}'],
                ":"@ == seq![':'],
                s@ == p.render_upto(k as nat),
            decreases vars.len() - k,
        {
            let ghost before = s@;
            s.append("{");
            s.append(vars[k].value.as_str());
            match &vars[k].fmt {
                Some(fmt) => {
                    s.append(":");
                    s.append(fmt.as_str());
                },
                None => {},
            }
            s.append("}");
            s.append(consts[k + 1].as_str());
            proof {
                assert(s@ =~= before + slot_text(p.slots[k as int]) + p.literals[k + 1]);
            }
            k += 1;
        }
        s
    }
}

/// The placeholders `vars` with `formats` as their format hints.
pub fn update_format(vars: &Vec<Var>, formats: &Vec<String>) -> (r: Result<
    Vec<Var>,
    LengthMismatchError,
>)
    ensures
        match r {
            Ok(out) => {
                &&& formats.len() == vars.len()
                &&& out.len() == vars.len()
                &&& forall|k: int|
                    0 <= k < out.len() ==> (#[trigger] out@[k])@ == (Slot {
                        name: vars@[k]@.name,
                        hint: Some(formats@[k]@),
                    })
            },
            Err(e) => {
                &&& formats.len() != vars.len()
                &&& e == (LengthMismatchError { expected: vars.len(), given: formats.len() })
            },
        },
{
    if formats.len() != vars.len() {
        return Err(LengthMismatchError { expected: vars.len(), given: formats.len() });
    }
    let mut out: Vec<Var> = Vec::new();
    let mut k: usize = 0;
    while k < vars.len()
        invariant
            k <= vars.len() == formats.len(),
            out.len() == k,
            forall|i: int|
                0 <= i < k ==> (#[trigger] out@[i])@ == (Slot {
                    name: vars@[i]@.name,
                    hint: Some(formats@[i]@),
                }),
        decreases vars.len() - k,
    {
        out.push(Var { value: vars[k].value.clone(), fmt: Some(formats[k].clone()) });
        k += 1;
    }
    Ok(out)
}

/// A copy of a list of strings.
fn copy_strings(v: &Vec<String>) -> (r: Vec<String>)
    ensures
        texts(r@) == texts(v@),
{
    let mut out: Vec<String> = Vec::new();
    let mut k: usize = 0;
    while k < v.len()
        invariant
            k <= v.len(),
            out.len() == k,
            forall|i: int| 0 <= i < k ==> (#[trigger] out@[i])@ == v@[i]@,
        decreases v.len() - k,
    {
        out.push(v[k].clone());
        k += 1;
    }
    assert(texts(out@) =~= texts(v@));
    out
}

/// A positional pattern: its placeholders are told apart by their position,
/// and their identifiers may be empty or repeat.
pub struct FormatPattern {
    consts: Vec<String>,
    vars: Vec<Var>,
}

impl View for FormatPattern {
    type V = Shape;

    closed spec fn view(&self) -> Shape {
        Shape { literals: texts(self.consts@), slots: slots_of(self.vars@) }
    }
}

impl PatternTrait for FormatPattern {
    open spec fn shape(&self) -> Shape {
        self@
    }

    /// A positional pattern has no index of names.
    open spec fn keys(&self) -> Map<Seq<char>, usize> {
        Map::empty()
    }

    fn consts(&self) -> (r: &Vec<String>) {
        proof {
            use_type_invariant(self);
        }
        &self.consts
    }

    fn vars(&self) -> (r: &Vec<Var>) {
        &self.vars
    }

    fn name_index(&self) -> (r: StringHashMap<usize>) {
        StringHashMap::new()
    }

    fn unformat(&self, s: &str) -> (r: Result<(StringHashMap<usize>, Vec<String>), MatchError>) {
        match self.parse_string(s) {
            Err(e) => Err(e),
            Ok(found) => {
                let mut values: Vec<String> = Vec::new();
                let mut k: usize = 0;
                while k < found.len()
                    invariant
                        k <= found.len(),
                        values.len() == k,
                        forall|i: int| 0 <= i < k ==> (#[trigger] values@[i])@ == found@[i]@.value,
                    decreases found.len() - k,
                {
                    values.push(found[k].value.clone());
                    k += 1;
                }
                proof {
                    let expected = capture_spec(self@.literals, s@)->Ok_0;
                    assert(captures_of(found@).len() == expected.len());
                    assert forall|i: int| 0 <= i < expected.len() implies texts(values@)[i]
                        == expected[i] by {
                        assert(captures_of(found@)[i].value == expected[i]);
                    }
                    assert(texts(values@) =~= expected);
                }
                Ok((StringHashMap::new(), values))
            },
        }
    }
}

impl FormatPattern {
    #[verifier::type_invariant]
    spec fn inv(self) -> bool {
        self@.wf()
    }

    /// Compiles `s` into a positional pattern.
    pub fn new(s: &str) -> (r: Result<Self, SyntaxError>)
        ensures
            match r {
                Ok(p) => {
                    &&& compile_spec(s@) == Ok::<Shape, SyntaxFault>(p@)
                    &&& p@.wf()
                    &&& p@.canonical()
                },
                Err(e) => compile_spec(s@) == Err::<Shape, SyntaxFault>(e@),
            },
    {
        match compile(s) {
            Err(e) => Err(e),
            Ok((consts, vars)) => Ok(FormatPattern { consts, vars }),
        }
    }

    /// Matches `s` and hands out an empty index of names with the captured
    /// values, in the order of the placeholders.
    pub fn unformat(&self, s: &str) -> (r: Result<(StringHashMap<usize>, Vec<String>), MatchError>)
        ensures
            unformat_outcome(r, self.keys(), self@.literals, s@),
    {
        PatternTrait::unformat(self, s)
    }

    /// Matches each candidate in turn; one row of captured values for each.
    pub fn unformat_all(&self, s: Vec<&str>) -> (r: Result<
        (StringHashMap<usize>, Vec<Vec<String>>),
        MatchError,
    >)
        ensures
            unformat_all_outcome(r, self.keys(), self@.literals, slice_texts(s@)),
    {
        PatternTrait::unformat_all(self, s)
    }

    /// Matches each candidate in turn; one column of captured values under
    /// the identifier of each placeholder.
    pub fn unformat_to_dict(&self, s: Vec<&str>) -> (r: Result<
        (StringHashMap<usize>, StringHashMap<Vec<String>>),
        MatchError,
    >)
        ensures
            unformat_to_dict_outcome(r, self.keys(), self@, slice_texts(s@)),
    {
        PatternTrait::unformat_to_dict(self, s)
    }

    /// Whether `s` matches the pattern.
    pub fn matches(&self, s: String) -> (b: bool)
        ensures
            b == (capture_spec(self@.literals, s@) is Ok),
    {
        PatternTrait::matches(self, s)
    }

    /// The format hints of the placeholders, in order.
    pub fn formats(&self) -> (r: Vec<String>)
        ensures
            texts(r@) == self@.hints(),
    {
        PatternTrait::formats(self)
    }

    /// The identifiers of the placeholders, in order.
    pub fn variables(&self) -> (r: Vec<String>)
        ensures
            texts(r@) == self@.names(),
    {
        PatternTrait::variables(self)
    }

    /// The template text of the pattern.
    pub fn pattern(&self) -> (r: String)
        ensures
            r@ == self@.render(),
    {
        PatternTrait::pattern(self)
    }

    /// The same pattern with `formats` as the format hints of its
    /// placeholders, one for each.
    pub fn with_formats(&self, formats: Vec<String>) -> (r: Result<
        FormatPattern,
        LengthMismatchError,
    >)
        ensures
            match r {
                Ok(p) => {
                    &&& formats.len() == self@.slots.len()
                    &&& p@ == self@.with_hints(texts(formats@))
                    &&& p@.wf()
                },
                Err(e) => {
                    &&& formats.len() != self@.slots.len()
                    &&& e.expected == self@.slots.len()
                    &&& e.given == formats.len()
                },
            },
    {
        proof {
            use_type_invariant(self);
        }
        match update_format(&self.vars, &formats) {
            Err(e) => Err(e),
            Ok(vars) => {
                let consts: Vec<String> = copy_strings(&self.consts);
                proof {
                    let q = self@.with_hints(texts(formats@));
                    assert(slots_of(vars@) =~= q.slots);
                }
                Ok(FormatPattern { consts, vars })
            },
        }
    }
}

/// A named pattern: no two of its placeholders share an identifier, and a
/// match hands out the position of each identifier.
pub struct NamedFormatPattern {
    consts: Vec<String>,
    vars: Vec<Var>,
}

impl View for NamedFormatPattern {
    type V = Shape;

    closed spec fn view(&self) -> Shape {
        Shape { literals: texts(self.consts@), slots: slots_of(self.vars@) }
    }
}

impl PatternTrait for NamedFormatPattern {
    open spec fn shape(&self) -> Shape {
        self@
    }

    /// A named pattern gives each identifier the position of its placeholder.
    open spec fn keys(&self) -> Map<Seq<char>, usize> {
        name_index(self@.names())
    }

    fn consts(&self) -> (r: &Vec<String>) {
        proof {
            use_type_invariant(self);
        }
        &self.consts
    }

    fn vars(&self) -> (r: &Vec<Var>) {
        &self.vars
    }

    fn name_index(&self) -> (r: StringHashMap<usize>) {
        let ghost names = self@.names();
        let mut index: StringHashMap<usize> = StringHashMap::new();
        let mut k: usize = 0;
        assert(names.take(0) =~= Seq::<Seq<char>>::empty());
        while k < self.vars.len()
            invariant
                k <= self.vars.len(),
                names == self@.names(),
                names.len() == self.vars.len(),
                index@ == name_index(names.take(k as int)),
            decreases self.vars.len() - k,
        {
            proof {
                assert(names.take(k + 1).drop_last() =~= names.take(k as int));
                assert(names.take(k + 1).last() == self.vars@[k as int].value@);
            }
            index.insert(self.vars[k].value.clone(), k);
            k += 1;
        }
        assert(names.take(names.len() as int) =~= names);
        index
    }

    fn unformat(&self, s: &str) -> (r: Result<(StringHashMap<usize>, Vec<String>), MatchError>) {
        match self.parse_string(s) {
            Err(e) => Err(e),
            Ok(found) => {
                let ghost names = self@.names();
                let ghost expected = capture_spec(self@.literals, s@)->Ok_0;
                proof {
                    use_type_invariant(self);
                    lemma_capture_count(self@.literals, s@);
                    assert(captures_of(found@).len() == expected.len());
                    assert forall|i: int| 0 <= i < found.len() implies {
                        &&& (#[trigger] found@[i])@.name == names[i]
                        &&& found@[i]@.value == expected[i]
                    } by {
                        assert(captures_of(found@)[i] == found@[i]@);
                    }
                }
                let mut index: StringHashMap<usize> = StringHashMap::new();
                let mut values: Vec<String> = Vec::new();
                let mut k: usize = 0;
                assert(names.take(0) =~= Seq::<Seq<char>>::empty());
                while k < found.len()
                    invariant
                        k <= found.len() == names.len(),
                        values.len() == k,
                        forall|i: int|
                            0 <= i < found.len() ==> (#[trigger] found@[i])@.name == names[i],
                        index@ == name_index(names.take(k as int)),
                        forall|i: int| 0 <= i < k ==> (#[trigger] values@[i])@ == found@[i]@.value,
                    decreases found.len() - k,
                {
                    proof {
                        assert(names.take(k + 1).drop_last() =~= names.take(k as int));
                        assert(names.take(k + 1).last() == found@[k as int].name@);
                    }
                    index.insert(found[k].name.clone(), k);
                    values.push(found[k].value.clone());
                    k += 1;
                }
                proof {
                    assert(names.take(names.len() as int) =~= names);
                    assert(texts(values@) =~= expected);
                }
                Ok((index, values))
            },
        }
    }
}

impl NamedFormatPattern {
    #[verifier::type_invariant]
    spec fn inv(self) -> bool {
        self@.wf() && distinct(self@.names())
    }

    /// Compiles `s` into a named pattern.
    pub fn new(s: &str) -> (r: Result<Self, SyntaxError>)
        ensures
            match r {
                Ok(p) => {
                    &&& compile_named_spec(s@) == Ok::<Shape, SyntaxFault>(p@)
                    &&& p@.wf()
                    &&& p@.canonical()
                    &&& distinct(p@.names())
                },
                Err(e) => compile_named_spec(s@) == Err::<Shape, SyntaxFault>(e@),
            },
    {
        match compile_named(s) {
            Err(e) => Err(e),
            Ok((consts, vars)) => Ok(NamedFormatPattern { consts, vars }),
        }
    }

    /// Matches `s` and hands out the position of each identifier with the
    /// captured values, in the order of the placeholders.
    pub fn unformat(&self, s: &str) -> (r: Result<(StringHashMap<usize>, Vec<String>), MatchError>)
        ensures
            unformat_outcome(r, self.keys(), self@.literals, s@),
            distinct(self@.names()),
    {
        proof {
            use_type_invariant(self);
        }
        PatternTrait::unformat(self, s)
    }

    /// Matches each candidate in turn; one row of captured values for each.
    pub fn unformat_all(&self, s: Vec<&str>) -> (r: Result<
        (StringHashMap<usize>, Vec<Vec<String>>),
        MatchError,
    >)
        ensures
            unformat_all_outcome(r, self.keys(), self@.literals, slice_texts(s@)),
            distinct(self@.names()),
    {
        proof {
            use_type_invariant(self);
        }
        PatternTrait::unformat_all(self, s)
    }

    /// Matches each candidate in turn; one column of captured values under
    /// the identifier of each placeholder.
    pub fn unformat_to_dict(&self, s: Vec<&str>) -> (r: Result<
        (StringHashMap<usize>, StringHashMap<Vec<String>>),
        MatchError,
    >)
        ensures
            unformat_to_dict_outcome(r, self.keys(), self@, slice_texts(s@)),
            distinct(self@.names()),
    {
        proof {
            use_type_invariant(self);
        }
        PatternTrait::unformat_to_dict(self, s)
    }

    /// Whether `s` matches the pattern.
    pub fn matches(&self, s: String) -> (b: bool)
        ensures
            b == (capture_spec(self@.literals, s@) is Ok),
    {
        PatternTrait::matches(self, s)
    }

    /// The format hints of the placeholders, in order.
    pub fn formats(&self) -> (r: Vec<String>)
        ensures
            texts(r@) == self@.hints(),
    {
        PatternTrait::formats(self)
    }

    /// The identifiers of the placeholders, in order. No two of them are
    /// equal.
    pub fn variables(&self) -> (r: Vec<String>)
        ensures
            texts(r@) == self@.names(),
            distinct(self@.names()),
    {
        proof {
            use_type_invariant(self);
        }
        PatternTrait::variables(self)
    }

    /// The template text of the pattern.
    pub fn pattern(&self) -> (r: String)
        ensures
            r@ == self@.render(),
    {
        PatternTrait::pattern(self)
    }

    /// The same pattern with `formats` as the format hints of its
    /// placeholders, one for each.
    pub fn with_formats(&self, formats: Vec<String>) -> (r: Result<
        NamedFormatPattern,
        LengthMismatchError,
    >)
        ensures
            match r {
                Ok(p) => {
                    &&& formats.len() == self@.slots.len()
                    &&& p@ == self@.with_hints(texts(formats@))
                    &&& p@.wf()
                    &&& distinct(p@.names())
                },
                Err(e) => {
                    &&& formats.len() != self@.slots.len()
                    &&& e.expected == self@.slots.len()
                    &&& e.given == formats.len()
                },
            },
    {
        proof {
            use_type_invariant(self);
        }
        match update_format(&self.vars, &formats) {
            Err(e) => Err(e),
            Ok(vars) => {
                let consts: Vec<String> = copy_strings(&self.consts);
                proof {
                    let q = self@.with_hints(texts(formats@));
                    assert(slots_of(vars@) =~= q.slots);
                    assert(q.names() =~= self@.names());
                }
                Ok(NamedFormatPattern { consts, vars })
            },
        }
    }
}

} // verus!
