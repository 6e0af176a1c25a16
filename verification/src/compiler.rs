//! From template text to a pattern: a scanner with two states, outside and
//! inside a placeholder.
use crate::errors::{SyntaxError, SyntaxFault};
use crate::shape::{distinct, free_of, plain, plain_word, Shape};
use crate::text::{
    chars_of, lemma_trim_end_shape, lemma_trim_idempotent, lemma_trim_start_shape, substring,
    texts, trim_bounds, trim_spec, trim_start,
};
use crate::vars::{slots_of, Slot, Var};
use vstd::hash_set::StringHashSet;
use vstd::prelude::*;

verus! {

/// What the scanner has gathered after some prefix of the template.
pub struct Scan {
    /// The literal segments that were completed.
    pub literals: Seq<Seq<char>>,
    /// The placeholders that were completed.
    pub slots: Seq<Slot>,
    /// The text collected since the last brace.
    pub text: Seq<char>,
    /// Whether the scanner is inside a placeholder.
    pub inside: bool,
    /// Whether the last character closed a placeholder.
    pub closed: bool,
}

/// The scanner before the first character.
pub open spec fn scan_start() -> Scan {
    Scan {
        literals: Seq::empty(),
        slots: Seq::empty(),
        text: Seq::empty(),
        inside: false,
        closed: false,
    }
}

/// The first position of `c` in `s`, or the length of `s` where `c` is absent.
pub open spec fn position_of(s: Seq<char>, c: char) -> int
    decreases s.len(),
{
    if s.len() == 0 || s[0] == c {
        0
    } else {
        1 + position_of(s.drop_first(), c)
    }
}

/// The placeholder that the text between two braces denotes. Without a colon
/// the whole text is the identifier. With one colon the identifier stands
/// before it and the hint, trimmed, after it. A second colon is a fault.
pub open spec fn parse_slot(body: Seq<char>) -> Result<Slot, SyntaxFault> {
    let at = position_of(body, ':');
    if at == body.len() {
        Ok(Slot { name: body, hint: None })
    } else {
        let rest = body.skip(at + 1);
        if position_of(rest, ':') < rest.len() {
            Err(SyntaxFault::InvalidPlaceholderSyntax { placeholder: body })
        } else {
            Ok(Slot { name: body.take(at), hint: Some(trim_spec(rest)) })
        }
    }
}

/// One step of the scanner, on the character `c`.
pub open spec fn scan_step(st: Scan, c: char) -> Result<Scan, SyntaxFault> {
    if c == '{' {
        if st.inside {
            Err(SyntaxFault::RepeatedOpen)
        } else if st.closed {
            Err(SyntaxFault::AdjacentPlaceholders)
        } else {
            Ok(
                Scan {
                    literals: st.literals.push(st.text),
                    slots: st.slots,
                    text: Seq::empty(),
                    inside: true,
                    closed: false,
                },
            )
        }
    } else if c == '}' {
        if !st.inside {
            Err(SyntaxFault::UnmatchedClose)
        } else {
            match parse_slot(st.text) {
                Err(e) => Err(e),
                Ok(slot) => Ok(
                    Scan {
                        literals: st.literals,
                        slots: st.slots.push(slot),
                        text: Seq::empty(),
                        inside: false,
                        closed: true,
                    },
                ),
            }
        }
    } else {
        Ok(
            Scan {
                literals: st.literals,
                slots: st.slots,
                text: st.text.push(c),
                inside: st.inside,
                closed: false,
            },
        )
    }
}

/// The scanner after the whole of `t`, or the first fault on the way.
pub open spec fn scan(t: Seq<char>) -> Result<Scan, SyntaxFault>
    decreases t.len(),
{
    if t.len() == 0 {
        Ok(scan_start())
    } else {
        match scan(t.drop_last()) {
            Err(e) => Err(e),
            Ok(st) => scan_step(st, t.last()),
        }
    }
}

/// The pattern that the template `t` denotes, or the first fault in it.
pub open spec fn compile_spec(t: Seq<char>) -> Result<Shape, SyntaxFault> {
    match scan(t) {
        Err(e) => Err(e),
        Ok(st) => if st.inside {
            Err(SyntaxFault::UnterminatedPlaceholder)
        } else {
            Ok(Shape { literals: st.literals.push(st.text), slots: st.slots })
        },
    }
}

/// The first position among the first `k` names whose name stands at an
/// earlier position too.
pub open spec fn first_repeat(names: Seq<Seq<char>>, k: nat) -> Option<int>
    decreases k,
{
    if k == 0 {
        None
    } else {
        match first_repeat(names, (k - 1) as nat) {
            Some(j) => Some(j),
            None => if names.take(k - 1).contains(names[k - 1]) {
                Some(k - 1)
            } else {
                None
            },
        }
    }
}

/// The first name that stands at an earlier position too, if there is one.
pub open spec fn repeated_name(names: Seq<Seq<char>>) -> Option<Seq<char>> {
    match first_repeat(names, names.len()) {
        Some(j) => Some(names[j]),
        None => None,
    }
}

/// The named pattern that the template `t` denotes: the pattern that it
/// denotes, unless an identifier repeats. The fault then names the first
/// identifier that stood in the template before.
pub open spec fn compile_named_spec(t: Seq<char>) -> Result<Shape, SyntaxFault> {
    match compile_spec(t) {
        Err(e) => Err(e),
        Ok(p) => match repeated_name(p.names()) {
            Some(name) => Err(SyntaxFault::DuplicateIdentifier { name }),
            None => Ok(p),
        },
    }
}

/// What holds of the scanner at every point of a scan.
pub open spec fn scan_inv(st: Scan) -> bool {
    &&& st.literals.len() == st.slots.len() + if st.inside { 1int } else { 0int }
    &&& plain(st.text)
    &&& forall|k: int| 0 <= k < st.literals.len() ==> plain(#[trigger] st.literals[k])
    &&& forall|k: int| 0 < k < st.literals.len() ==> (#[trigger] st.literals[k]).len() > 0
    &&& forall|k: int| 0 <= k < st.slots.len() ==> plain_word((#[trigger] st.slots[k]).name)
    &&& forall|k: int|
        0 <= k < st.slots.len() ==> match (#[trigger] st.slots[k]).hint {
            Some(h) => plain_word(h) && trim_spec(h) == h,
            None => true,
        }
    &&& st.closed ==> !st.inside
    &&& !st.inside && st.slots.len() > 0 ==> (st.closed <==> st.text.len() == 0)
}

/// `position_of` is in range, stands on `c` where it is below the length, and
/// nothing before it is `c`.
pub proof fn lemma_position_of(s: Seq<char>, c: char)
    ensures
        0 <= position_of(s, c) <= s.len(),
        position_of(s, c) < s.len() ==> s[position_of(s, c)] == c,
        forall|k: int| 0 <= k < position_of(s, c) ==> s[k] != c,
    decreases s.len(),
{
    if s.len() == 0 || s[0] == c {
    } else {
        lemma_position_of(s.drop_first(), c);
        let p = position_of(s.drop_first(), c);
        assert forall|k: int| 0 <= k < p + 1 implies s[k] != c by {
            if k > 0 {
                assert(s.drop_first()[k - 1] == s[k]);
            }
        }
        if p < s.drop_first().len() {
            assert(s.drop_first()[p] == s[p + 1]);
        }
    }
}

/// A position that stands on the first `c` of `s`, or at its end where `c` is
/// absent, is `position_of`.
pub proof fn lemma_position_is(s: Seq<char>, c: char, at: int)
    requires
        0 <= at <= s.len(),
        forall|k: int| 0 <= k < at ==> s[k] != c,
        at < s.len() ==> s[at] == c,
    ensures
        position_of(s, c) == at,
{
    lemma_position_of(s, c);
}

/// What is left after trimming holds no character that was not there before.
pub proof fn lemma_trim_keeps_free(s: Seq<char>, c: char)
    requires
        free_of(s, c),
    ensures
        free_of(trim_spec(s), c),
{
    lemma_trim_start_shape(s);
    lemma_trim_end_shape(trim_start(s));
}

/// A placeholder read from text without braces has an identifier without
/// braces and colons, and a hint that a template can spell.
pub proof fn lemma_parse_slot_clean(body: Seq<char>)
    requires
        plain(body),
    ensures
        match parse_slot(body) {
            Ok(slot) => {
                &&& plain_word(slot.name)
                &&& match slot.hint {
                    Some(h) => plain_word(h) && trim_spec(h) == h,
                    None => true,
                }
            },
            Err(_) => true,
        },
{
    lemma_position_of(body, ':');
    let at = position_of(body, ':');
    if at < body.len() {
        let rest = body.skip(at + 1);
        lemma_position_of(rest, ':');
        if position_of(rest, ':') == rest.len() {
            lemma_trim_keeps_free(rest, ':');
            lemma_trim_keeps_free(rest, '{');
            lemma_trim_keeps_free(rest, '}');
            lemma_trim_idempotent(rest);
        }
    }
}

/// One step of the scanner keeps what holds of it.
pub proof fn lemma_scan_step_inv(st: Scan, c: char)
    requires
        scan_inv(st),
    ensures
        match scan_step(st, c) {
            Ok(next) => scan_inv(next),
            Err(_) => true,
        },
{
    if c == '{' {
    } else if c == '}' {
        if st.inside {
            lemma_parse_slot_clean(st.text);
        }
    } else {
    }
}

/// A scan that does not fail ends in a state of which `scan_inv` holds.
pub proof fn lemma_scan_inv(t: Seq<char>)
    ensures
        match scan(t) {
            Ok(st) => scan_inv(st),
            Err(_) => true,
        },
    decreases t.len(),
{
    if t.len() > 0 {
        lemma_scan_inv(t.drop_last());
        match scan(t.drop_last()) {
            Ok(st) => lemma_scan_step_inv(st, t.last()),
            Err(_) => {},
        }
    }
}

/// A fault in a prefix of the template is the fault of the whole template.
pub proof fn lemma_scan_fault_stays(t: Seq<char>, i: int)
    requires
        0 <= i <= t.len(),
        scan(t.take(i)) is Err,
    ensures
        scan(t) == scan(t.take(i)),
    decreases t.len() - i,
{
    if i < t.len() {
        assert(t.take(i + 1).drop_last() =~= t.take(i));
        lemma_scan_fault_stays(t, i + 1);
    } else {
        assert(t.take(i) =~= t);
    }
}

/// Every pattern that a template denotes is well formed, and its hints are
/// such as a template can spell.
pub proof fn lemma_compiled_is_wf(t: Seq<char>)
    ensures
        match compile_spec(t) {
            Ok(p) => p.wf() && p.canonical(),
            Err(_) => true,
        },
{
    lemma_scan_inv(t);
}

/// The first position of `c` in `t[lo..hi]`, or `hi` where it is absent.
fn find_char(t: &Vec<char>, lo: usize, hi: usize, c: char) -> (at: usize)
    requires
        lo <= hi <= t.len(),
    ensures
        lo <= at <= hi,
        at - lo == position_of(t@.subrange(lo as int, hi as int), c),
{
    let mut at: usize = lo;
    while at < hi && t[at] != c
        invariant
            lo <= at <= hi <= t.len(),
            forall|k: int| lo <= k < at ==> t@[k] != c,
        decreases hi - at,
    {
        at += 1;
    }
    proof {
        lemma_position_is(t@.subrange(lo as int, hi as int), c, at - lo);
    }
    at
}

/// Reads the placeholder whose text is `t[lo..hi]`.
fn read_slot(template: &str, t: &Vec<char>, lo: usize, hi: usize) -> (r: Result<Var, SyntaxError>)
    requires
        t@ == template@,
        lo <= hi <= t.len(),
    ensures
        match r {
            Ok(v) => parse_slot(t@.subrange(lo as int, hi as int)) == Ok::<Slot, SyntaxFault>(v@),
            Err(e) => parse_slot(t@.subrange(lo as int, hi as int)) == Err::<Slot, SyntaxFault>(
                e@,
            ),
        },
{
    let ghost body = t@.subrange(lo as int, hi as int);
    let colon: usize = find_char(t, lo, hi, ':');
    if colon == hi {
        return Ok(Var { value: substring(template, lo, hi), fmt: None });
    }
    assert(body.skip(colon - lo + 1) =~= t@.subrange(colon + 1, hi as int));
    assert(body.take(colon - lo) =~= t@.subrange(lo as int, colon as int));
    let second: usize = find_char(t, colon + 1, hi, ':');
    if second < hi {
        return Err(SyntaxError::InvalidPlaceholderSyntax { placeholder: substring(template, lo, hi) });
    }
    let (a, b) = trim_bounds(t, colon + 1, hi);
    Ok(Var { value: substring(template, lo, colon), fmt: Some(substring(template, a, b)) })
}

/// Compiles `template` into its literal segments and its placeholders.
pub fn compile(template: &str) -> (r: Result<(Vec<String>, Vec<Var>), SyntaxError>)
    ensures
        match r {
            Ok((consts, vars)) => {
                let p = Shape { literals: texts(consts@), slots: slots_of(vars@) };
                compile_spec(template@) == Ok::<Shape, SyntaxFault>(p) && p.wf() && p.canonical()
            },
            Err(e) => compile_spec(template@) == Err::<Shape, SyntaxFault>(e@),
        },
{
    let t: Vec<char> = chars_of(template);
    let n: usize = t.len();
    let mut consts: Vec<String> = Vec::new();
    let mut vars: Vec<Var> = Vec::new();
    let mut start: usize = 0;
    let mut inside: bool = false;
    let mut closed: bool = false;
    let mut i: usize = 0;
    assert(t@.take(0) =~= Seq::<char>::empty());
    assert(texts(consts@) =~= Seq::<Seq<char>>::empty());
    assert(slots_of(vars@) =~= Seq::<Slot>::empty());
    assert(t@.subrange(0, 0) =~= Seq::<char>::empty());
    while i < n
        invariant
            start <= i <= n,
            n == t.len(),
            t@ == template@,
            scan(t@.take(i as int)) == Ok::<Scan, SyntaxFault>(
                Scan {
                    literals: texts(consts@),
                    slots: slots_of(vars@),
                    text: t@.subrange(start as int, i as int),
                    inside,
                    closed,
                },
            ),
        decreases n - i,
    {
        let c: char = t[i];
        let ghost before = scan(t@.take(i as int))->Ok_0;
        proof {
            assert(t@.take(i + 1).drop_last() =~= t@.take(i as int));
            assert(t@.take(i + 1).last() == c);
            assert(scan(t@.take(i + 1)) == scan_step(before, c));
        }
        if c == '{' {
            if inside {
                proof {
                    lemma_scan_fault_stays(t@, i + 1);
                }
                return Err(SyntaxError::RepeatedOpen);
            }
            if closed {
                proof {
                    lemma_scan_fault_stays(t@, i + 1);
                }
                return Err(SyntaxError::AdjacentPlaceholders);
            }
            let literal: String = substring(template, start, i);
            proof {
                assert(texts(consts@.push(literal)) =~= texts(consts@).push(literal@));
            }
            consts.push(literal);
            start = i + 1;
            inside = true;
            closed = false;
        } else if c == '}' {
            if !inside {
                proof {
                    lemma_scan_fault_stays(t@, i + 1);
                }
                return Err(SyntaxError::UnmatchedClose);
            }
            match read_slot(template, &t, start, i) {
                Err(e) => {
                    proof {
                        lemma_scan_fault_stays(t@, i + 1);
                    }
                    return Err(e);
                },
                Ok(var) => {
                    proof {
                        assert(slots_of(vars@.push(var)) =~= slots_of(vars@).push(var@));
                    }
                    vars.push(var);
                },
            }
            start = i + 1;
            inside = false;
            closed = true;
        } else {
            proof {
                assert(t@.subrange(start as int, i + 1) =~= t@.subrange(
                    start as int,
                    i as int,
                ).push(c));
            }
            closed = false;
        }
        proof {
            if c == '{' || c == '}' {
                assert(t@.subrange(i + 1, i + 1) =~= Seq::<char>::empty());
            }
        }
        i += 1;
    }
    proof {
        assert(t@.take(n as int) =~= t@);
        lemma_compiled_is_wf(t@);
    }
    if inside {
        return Err(SyntaxError::UnterminatedPlaceholder);
    }
    let literal: String = substring(template, start, n);
    proof {
        assert(texts(consts@.push(literal)) =~= texts(consts@).push(literal@));
    }
    consts.push(literal);
    Ok((consts, vars))
}

/// `first_repeat` finds nothing exactly where the names differ from each
/// other, and what it finds is a name that stood at an earlier position.
pub proof fn lemma_first_repeat(names: Seq<Seq<char>>, k: nat)
    requires
        k <= names.len(),
    ensures
        match first_repeat(names, k) {
            Some(j) => 0 <= j < k && names.take(j).contains(names[j]) && !distinct(names.take(k as int)),
            None => distinct(names.take(k as int)),
        },
    decreases k,
{
    if k > 0 {
        lemma_first_repeat(names, (k - 1) as nat);
        let prev = names.take(k - 1);
        let now = names.take(k as int);
        match first_repeat(names, (k - 1) as nat) {
            Some(j) => {
                let (a, b) = choose|a: int, b: int| 0 <= a < b < prev.len() && prev[a] == prev[b];
                assert(now[a] == now[b]);
            },
            None => {
                if prev.contains(names[k - 1]) {
                    let a = choose|a: int| 0 <= a < prev.len() && prev[a] == names[k - 1];
                    assert(now[a] == now[k - 1]);
                } else {
                    assert forall|a: int, b: int| 0 <= a < b < now.len() implies now[a] != now[b] by {
                        if b == k - 1 {
                            assert(prev[a] == now[a]);
                        } else {
                            assert(prev[a] == now[a] && prev[b] == now[b]);
                        }
                    }
                }
            },
        }
    }
}

/// Looks for an identifier that stands twice among `vars`.
pub fn check_distinct(vars: &Vec<Var>) -> (r: Result<(), SyntaxError>)
    ensures
        match r {
            Ok(_) => repeated_name(Shape::names_of(slots_of(vars@))) is None,
            Err(e) => repeated_name(Shape::names_of(slots_of(vars@))) matches Some(name) && e@ == (
            SyntaxFault::DuplicateIdentifier { name }),
        },
{
    let ghost names = Shape::names_of(slots_of(vars@));
    let mut seen: StringHashSet = StringHashSet::new();
    let mut k: usize = 0;
    while k < vars.len()
        invariant
            k <= vars.len(),
            names == Shape::names_of(slots_of(vars@)),
            first_repeat(names, k as nat) is None,
            forall|x: Seq<char>| seen@.contains(x) <==> names.take(k as int).contains(x),
        decreases vars.len() - k,
    {
        assert(names[k as int] == vars@[k as int].value@);
        if seen.contains(vars[k].value.as_str()) {
            proof {
                lemma_first_repeat_stays(names, (k + 1) as nat, vars.len() as nat);
            }
            return Err(SyntaxError::DuplicateIdentifier { name: vars[k].value.clone() });
        }
        seen.insert(vars[k].value.clone());
        proof {
            let prev = names.take(k as int);
            let now = names.take(k + 1);
            assert forall|x: Seq<char>| seen@.contains(x) <==> now.contains(x) by {
                if now.contains(x) {
                    let a = choose|a: int| 0 <= a < now.len() && now[a] == x;
                    if a < k {
                        assert(prev[a] == x);
                    }
                }
                if prev.contains(x) {
                    let a = choose|a: int| 0 <= a < prev.len() && prev[a] == x;
                    assert(now[a] == x);
                }
                assert(now[k as int] == names[k as int]);
            }
        }
        k += 1;
    }
    Ok(())
}

/// A repeat among the first names is the first repeat among all of them.
pub proof fn lemma_first_repeat_stays(names: Seq<Seq<char>>, k: nat, n: nat)
    requires
        k <= n,
        first_repeat(names, k) is Some,
    ensures
        first_repeat(names, n) == first_repeat(names, k),
    decreases n - k,
{
    if k < n {
        lemma_first_repeat_stays(names, k, (n - 1) as nat);
    }
}

/// Compiles `template` into the literal segments and the placeholders of a
/// named pattern: one in which no identifier stands twice.
pub fn compile_named(template: &str) -> (r: Result<(Vec<String>, Vec<Var>), SyntaxError>)
    ensures
        match r {
            Ok((consts, vars)) => {
                let p = Shape { literals: texts(consts@), slots: slots_of(vars@) };
                &&& compile_named_spec(template@) == Ok::<Shape, SyntaxFault>(p)
                &&& p.wf()
                &&& p.canonical()
                &&& distinct(p.names())
            },
            Err(e) => compile_named_spec(template@) == Err::<Shape, SyntaxFault>(e@),
        },
{
    match compile(template) {
        Err(e) => Err(e),
        Ok((consts, vars)) => {
            match check_distinct(&vars) {
                Err(e) => Err(e),
                Ok(_) => {
                    proof {
                        let names = Shape::names_of(slots_of(vars@));
                        lemma_first_repeat(names, names.len());
                        assert(names.take(names.len() as int) =~= names);
                    }
                    Ok((consts, vars))
                },
            }
        },
    }
}

} // verus!
