//! The mathematical model of a compiled pattern.
use crate::text::trim_spec;
use crate::vars::Slot;
use vstd::prelude::*;

verus! {

/// Whether the character `c` is absent from `s`.
pub open spec fn free_of(s: Seq<char>, c: char) -> bool {
    forall|i: int| 0 <= i < s.len() ==> s[i] != c
}

/// Text without braces: what a literal segment may hold.
pub open spec fn plain(s: Seq<char>) -> bool {
    free_of(s, '{') && free_of(s, '}')
}

/// Text without braces and colons: what an identifier may hold.
pub open spec fn plain_word(s: Seq<char>) -> bool {
    plain(s) && free_of(s, ':')
}

/// Whether no two entries of `names` are equal.
pub open spec fn distinct(names: Seq<Seq<char>>) -> bool {
    forall|i: int, j: int| 0 <= i < j < names.len() ==> names[i] != names[j]
}

/// A placeholder as the template spells it: `{name}` or `{name:hint}`.
pub open spec fn slot_text(slot: Slot) -> Seq<char> {
    match slot.hint {
        Some(h) => seq!['{'] + slot.name + seq![':'] + h + seq!['}'],
        None => seq!['{'] + slot.name + seq!['}'],
    }
}

/// A pattern: literal segments with a placeholder between each two of them.
pub struct Shape {
    pub literals: Seq<Seq<char>>,
    pub slots: Seq<Slot>,
}

impl Shape {
    /// What holds of every pattern: there is one literal more than there are
    /// placeholders, literals hold no brace, identifiers hold no brace and no
    /// colon, and a literal between two placeholders is not empty.
    pub open spec fn wf(self) -> bool {
        &&& self.literals.len() == self.slots.len() + 1
        &&& forall|k: int| 0 <= k < self.literals.len() ==> plain(#[trigger] self.literals[k])
        &&& forall|k: int| 0 < k < self.slots.len() ==> (#[trigger] self.literals[k]).len() > 0
        &&& forall|k: int|
            0 <= k < self.slots.len() ==> plain_word((#[trigger] self.slots[k]).name)
    }

    /// Whether every format hint is one that a template can spell: without
    /// braces and colons, and without white space at either end.
    pub open spec fn canonical(self) -> bool {
        forall|k: int|
            0 <= k < self.slots.len() ==> match (#[trigger] self.slots[k]).hint {
                Some(h) => plain_word(h) && trim_spec(h) == h,
                None => true,
            }
    }

    /// The number of placeholders.
    pub open spec fn placeholder_count(self) -> nat {
        self.slots.len()
    }

    /// The identifiers of `slots`, in order.
    pub open spec fn names_of(slots: Seq<Slot>) -> Seq<Seq<char>> {
        Seq::new(slots.len(), |k: int| slots[k].name)
    }

    /// The identifiers of the placeholders, in order.
    pub open spec fn names(self) -> Seq<Seq<char>> {
        Self::names_of(self.slots)
    }

    /// The format hints of the placeholders, in order; the empty text where a
    /// placeholder has none.
    pub open spec fn hints(self) -> Seq<Seq<char>> {
        Seq::new(
            self.slots.len(),
            |k: int|
                match self.slots[k].hint {
                    Some(h) => h,
                    None => Seq::<char>::empty(),
                },
        )
    }

    /// The same pattern with `hints` as the format hints of its placeholders.
    pub open spec fn with_hints(self, hints: Seq<Seq<char>>) -> Shape {
        Shape {
            literals: self.literals,
            slots: Seq::new(
                self.slots.len(),
                |k: int| Slot { name: self.slots[k].name, hint: Some(hints[k]) },
            ),
        }
    }

    /// The template text up to and including literal number `k`.
    pub open spec fn render_upto(self, k: nat) -> Seq<char>
        decreases k,
    {
        if k == 0 {
            self.literals[0]
        } else {
            self.render_upto((k - 1) as nat) + slot_text(self.slots[k - 1])
                + self.literals[k as int]
        }
    }

    /// The template text of the pattern: its literals with the placeholders
    /// between them.
    pub open spec fn render(self) -> Seq<char> {
        self.render_upto(self.slots.len())
    }
}

} // verus!
