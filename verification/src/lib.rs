//! Formatting in reverse: a template such as `"{name} is {age:int}"` is
//! compiled into a pattern, and the pattern tells of a candidate string
//! whether filling the template could have produced it, and with which
//! values.
pub mod aggregate;
pub mod classify;
pub mod compiler;
pub mod errors;
pub mod laws;
pub mod matcher;
pub mod shape;
pub mod text;
pub mod unformatter;
pub mod vars;

pub use crate::classify::is_named_pattern;
pub use crate::unformatter::{FormatPattern, NamedFormatPattern, PatternTrait};
pub use crate::vars::{NamedVar, Var, VarHashmap};

use crate::aggregate::name_index;
use crate::classify::is_named_spec;
use crate::compiler::{compile_named_spec, compile_spec};
use crate::errors::{UnformatError, UnformatFault};
use crate::matcher::capture_spec;
use crate::shape::Shape;
use crate::text::texts;
use vstd::hash_map::StringHashMap;
use vstd::prelude::*;

verus! {

/// What matching `text` against the pattern `p` gives, with `keys` as the
/// index of names.
pub open spec fn match_with(p: Shape, keys: Map<Seq<char>, usize>, text: Seq<char>) -> Result<
    (Map<Seq<char>, usize>, Seq<Seq<char>>),
    UnformatFault,
> {
    match capture_spec(p.literals, text) {
        Err(e) => Err(UnformatFault::Match(e)),
        Ok(values) => Ok((keys, values)),
    }
}

/// What the template `ptn` captures from `text`. The template is classified
/// first. A named one is compiled as a named pattern, and the result holds
/// the position of each identifier. A positional one is compiled as a
/// positional pattern, and the index of names is empty.
pub open spec fn unformat_spec(ptn: Seq<char>, text: Seq<char>) -> Result<
    (Map<Seq<char>, usize>, Seq<Seq<char>>),
    UnformatFault,
> {
    match is_named_spec(ptn) {
        Err(e) => Err(UnformatFault::Syntax(e)),
        Ok(true) => match compile_named_spec(ptn) {
            Err(e) => Err(UnformatFault::Syntax(e)),
            Ok(p) => match_with(p, name_index(p.names()), text),
        },
        Ok(false) => match compile_spec(ptn) {
            Err(e) => Err(UnformatFault::Syntax(e)),
            Ok(p) => match_with(p, Map::empty(), text),
        },
    }
}

/// Compiles the template `ptn`, as a named or as a positional pattern
/// according to its placeholders, and matches `text` against it.
pub fn unformat(ptn: &str, text: &str) -> (r: Result<
    (StringHashMap<usize>, Vec<String>),
    UnformatError,
>)
    ensures
        match r {
            Ok((index, values)) => unformat_spec(ptn@, text@) == Ok::<
                (Map<Seq<char>, usize>, Seq<Seq<char>>),
                UnformatFault,
            >((index@, texts(values@))),
            Err(e) => unformat_spec(ptn@, text@) == Err::<
                (Map<Seq<char>, usize>, Seq<Seq<char>>),
                UnformatFault,
            >(e@),
        },
{
    match is_named_pattern(ptn) {
        Err(e) => Err(UnformatError::Syntax(e)),
        Ok(true) => match NamedFormatPattern::new(ptn) {
            Err(e) => Err(UnformatError::Syntax(e)),
            Ok(p) => match p.unformat(text) {
                Err(e) => Err(UnformatError::Match(e)),
                Ok((index, values)) => Ok((index, values)),
            },
        },
        Ok(false) => match FormatPattern::new(ptn) {
            Err(e) => Err(UnformatError::Syntax(e)),
            Ok(p) => match p.unformat(text) {
                Err(e) => Err(UnformatError::Match(e)),
                Ok((index, values)) => Ok((index, values)),
            },
        },
    }
}

} // verus!
