//! Placeholders, captures and a name-keyed table of placeholders.
use vstd::hash_map::StringHashMap;
use vstd::prelude::*;

verus! {

/// A placeholder as mathematics sees it: its identifier, which may be empty,
/// and its format hint, if it carries one.
pub struct Slot {
    pub name: Seq<char>,
    pub hint: Option<Seq<char>>,
}

/// A captured value as mathematics sees it: the text that stood in the
/// candidate, with the hint and the identifier of its placeholder.
pub struct Capture {
    pub value: Seq<char>,
    pub hint: Option<Seq<char>>,
    pub name: Seq<char>,
}

/// The text of an optional string.
pub open spec fn hint_text(fmt: Option<String>) -> Option<Seq<char>> {
    match fmt {
        Some(f) => Some(f@),
        None => None,
    }
}

/// A placeholder of a pattern, `{value:fmt}` in the template: `value` is its
/// identifier and `fmt` its format hint.
#[derive(Debug, PartialEq, Eq)]
pub struct Var {
    pub value: String,
    pub fmt: Option<String>,
}

impl View for Var {
    type V = Slot;

    open spec fn view(&self) -> Slot {
        Slot { name: self.value@, hint: hint_text(self.fmt) }
    }
}

impl Clone for Var {
    fn clone(&self) -> (r: Self)
        ensures
            r == *self,
    {
        let fmt: Option<String> = match &self.fmt {
            Some(f) => Some(f.clone()),
            None => None,
        };
        Var { value: self.value.clone(), fmt }
    }
}

/// The substring that one placeholder captured from a candidate, with that
/// placeholder's format hint and identifier.
#[derive(Debug, PartialEq, Eq)]
pub struct NamedVar {
    pub value: String,
    pub fmt: Option<String>,
    pub name: String,
}

impl View for NamedVar {
    type V = Capture;

    open spec fn view(&self) -> Capture {
        Capture { value: self.value@, hint: hint_text(self.fmt), name: self.name@ }
    }
}

/// The models of a sequence of placeholders.
pub open spec fn slots_of(v: Seq<Var>) -> Seq<Slot> {
    Seq::new(v.len(), |i: int| v[i]@)
}

/// The models of a sequence of captures.
pub open spec fn captures_of(v: Seq<NamedVar>) -> Seq<Capture> {
    Seq::new(v.len(), |i: int| v[i]@)
}

/// Placeholders keyed by their identifier. Adding a placeholder under an
/// identifier that is already present replaces the earlier one.
pub struct VarHashmap {
    pub vars: StringHashMap<Var>,
}

impl View for VarHashmap {
    type V = Map<Seq<char>, Var>;

    open spec fn view(&self) -> Map<Seq<char>, Var> {
        self.vars@
    }
}

impl VarHashmap {
    /// An empty table.
    pub fn new() -> (r: VarHashmap)
        ensures
            r@ == Map::<Seq<char>, Var>::empty(),
    {
        VarHashmap { vars: StringHashMap::new() }
    }

    /// Files `var` under its identifier.
    pub fn add(&mut self, var: Var)
        ensures
            final(self)@ == old(self)@.insert(var.value@, var),
    {
        let key: String = var.value.clone();
        self.vars.insert(key, var);
    }

    /// The placeholder filed under `name`, if there is one.
    pub fn get(&self, name: &str) -> (r: Option<&Var>)
        ensures
            match r {
                Some(v) => self@.contains_key(name@) && *v == self@[name@],
                None => !self@.contains_key(name@),
            },
    {
        self.vars.get(name)
    }
}

} // verus!
