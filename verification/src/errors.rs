//! The ways in which compiling a template, matching a candidate or replacing
//! format hints can fail.
use crate::text::substring;
use vstd::prelude::*;

verus! {

/// Why a template is not a pattern, as mathematics sees it.
pub enum SyntaxFault {
    AdjacentPlaceholders,
    InvalidPlaceholderSyntax { placeholder: Seq<char> },
    UnterminatedPlaceholder,
    RepeatedOpen,
    UnmatchedClose,
    DuplicateIdentifier { name: Seq<char> },
    MixedPattern,
    NoPlaceholder,
}

/// Why a template is not a pattern.
#[derive(Debug, PartialEq, Eq)]
pub enum SyntaxError {
    /// A `{` directly follows a `}`: nothing would tell the two captures apart.
    AdjacentPlaceholders,
    /// The text between two braces holds more than one `:`.
    InvalidPlaceholderSyntax { placeholder: String },
    /// The template ends inside a placeholder.
    UnterminatedPlaceholder,
    /// A `{` stands inside a placeholder.
    RepeatedOpen,
    /// A `}` stands outside any placeholder.
    UnmatchedClose,
    /// Two placeholders of a named pattern share the identifier `name`.
    DuplicateIdentifier { name: String },
    /// Some placeholders of the template are empty and others are not.
    MixedPattern,
    /// The template holds no placeholder to classify it by.
    NoPlaceholder,
}

impl View for SyntaxError {
    type V = SyntaxFault;

    open spec fn view(&self) -> SyntaxFault {
        match self {
            SyntaxError::AdjacentPlaceholders => SyntaxFault::AdjacentPlaceholders,
            SyntaxError::InvalidPlaceholderSyntax { placeholder } => {
                SyntaxFault::InvalidPlaceholderSyntax { placeholder: placeholder@ }
            },
            SyntaxError::UnterminatedPlaceholder => SyntaxFault::UnterminatedPlaceholder,
            SyntaxError::RepeatedOpen => SyntaxFault::RepeatedOpen,
            SyntaxError::UnmatchedClose => SyntaxFault::UnmatchedClose,
            SyntaxError::DuplicateIdentifier { name } => {
                SyntaxFault::DuplicateIdentifier { name: name@ }
            },
            SyntaxError::MixedPattern => SyntaxFault::MixedPattern,
            SyntaxError::NoPlaceholder => SyntaxFault::NoPlaceholder,
        }
    }
}

/// Why a candidate does not match a pattern, as mathematics sees it.
pub enum MatchFault {
    PrefixMismatch { literal: Seq<char> },
    LiteralNotFound { literal: Seq<char> },
    SuffixMismatch { literal: Seq<char> },
}

/// Why a candidate does not match a pattern. Each variant carries the literal
/// segment of the pattern that the candidate failed on.
#[derive(Debug, PartialEq, Eq)]
pub enum MatchError {
    /// The candidate does not begin with the pattern's first literal.
    PrefixMismatch { literal: String },
    /// A later literal does not occur in what is left of the candidate.
    LiteralNotFound { literal: String },
    /// Text is left over after the pattern's last literal.
    SuffixMismatch { literal: String },
}

impl View for MatchError {
    type V = MatchFault;

    open spec fn view(&self) -> MatchFault {
        match self {
            MatchError::PrefixMismatch { literal } => MatchFault::PrefixMismatch {
                literal: literal@,
            },
            MatchError::LiteralNotFound { literal } => MatchFault::LiteralNotFound {
                literal: literal@,
            },
            MatchError::SuffixMismatch { literal } => MatchFault::SuffixMismatch {
                literal: literal@,
            },
        }
    }
}

/// As many format hints must be given as the pattern has placeholders.
#[derive(Debug, PartialEq, Eq, Clone, Copy)]
pub struct LengthMismatchError {
    /// The number of placeholders of the pattern.
    pub expected: usize,
    /// The number of hints that were given.
    pub given: usize,
}

/// Why a template and a candidate could not be matched, as mathematics sees it.
pub enum UnformatFault {
    Syntax(SyntaxFault),
    Match(MatchFault),
}

/// Why a template and a candidate could not be matched in one step.
#[derive(Debug, PartialEq, Eq)]
pub enum UnformatError {
    Syntax(SyntaxError),
    Match(MatchError),
}

impl View for UnformatError {
    type V = UnformatFault;

    open spec fn view(&self) -> UnformatFault {
        match self {
            UnformatError::Syntax(e) => UnformatFault::Syntax(e@),
            UnformatError::Match(e) => UnformatFault::Match(e@),
        }
    }
}

/// A literal as a message shows it: whole where it has at most twelve
/// characters, else its first twelve characters and three full stops.
pub open spec fn str_repr_spec(s: Seq<char>) -> Seq<char> {
    if s.len() > 12 {
        s.take(12) + "..."@
    } else {
        s
    }
}

/// A literal as a message shows it.
pub fn str_repr(s: &str) -> (r: String)
    ensures
        r@ == str_repr_spec(s@),
{
    if s.unicode_len() > 12 {
        let mut r: String = substring(s, 0, 12);
        assert(s@.take(12) =~= s@.subrange(0, 12));
        r.append("...");
        r
    } else {
        s.to_owned()
    }
}

impl SyntaxFault {
    /// The fault in words.
    pub open spec fn message(self) -> Seq<char> {
        match self {
            SyntaxFault::AdjacentPlaceholders => "'{{' cannot follow '}}'"@,
            SyntaxFault::InvalidPlaceholderSyntax { placeholder } => "Invalid format string: "@
                + placeholder,
            SyntaxFault::UnterminatedPlaceholder => "Invalid format pattern: `{` not closed."@,
            SyntaxFault::RepeatedOpen => "Invalid format pattern: repeated `{`."@,
            SyntaxFault::UnmatchedClose => "Invalid format pattern: `}` closed before `{`."@,
            SyntaxFault::DuplicateIdentifier { name } => "Duplicate variable name: "@ + name,
            SyntaxFault::MixedPattern => "Uneven format pattern"@,
            SyntaxFault::NoPlaceholder => "Invalid format pattern: Did not encounter `{...}`."@,
        }
    }
}

impl SyntaxError {
    /// The fault in words.
    pub fn message(&self) -> (r: String)
        ensures
            r@ == self@.message(),
    {
        match self {
            SyntaxError::AdjacentPlaceholders => "'{{' cannot follow '}}'".to_owned(),
            SyntaxError::InvalidPlaceholderSyntax { placeholder } => {
                let mut r: String = "Invalid format string: ".to_owned();
                r.append(placeholder.as_str());
                r
            },
            SyntaxError::UnterminatedPlaceholder => {
                "Invalid format pattern: `{` not closed.".to_owned()
            },
            SyntaxError::RepeatedOpen => "Invalid format pattern: repeated `{`.".to_owned(),
            SyntaxError::UnmatchedClose => {
                "Invalid format pattern: `}` closed before `{`.".to_owned()
            },
            SyntaxError::DuplicateIdentifier { name } => {
                let mut r: String = "Duplicate variable name: ".to_owned();
                r.append(name.as_str());
                r
            },
            SyntaxError::MixedPattern => "Uneven format pattern".to_owned(),
            SyntaxError::NoPlaceholder => {
                "Invalid format pattern: Did not encounter `{...}`.".to_owned()
            },
        }
    }
}

impl MatchFault {
    /// The fault in words, with the literal that the candidate failed on.
    pub open spec fn message(self) -> Seq<char> {
        match self {
            MatchFault::PrefixMismatch { literal } => "Input should starts with "@
                + str_repr_spec(literal),
            MatchFault::LiteralNotFound { literal } => "Input does not contain '"@
                + str_repr_spec(literal) + "'."@,
            MatchFault::SuffixMismatch { literal } => "Input should ends with '"@
                + str_repr_spec(literal) + "'."@,
        }
    }
}

impl MatchError {
    /// The fault in words, with the literal that the candidate failed on.
    pub fn message(&self) -> (r: String)
        ensures
            r@ == self@.message(),
    {
        match self {
            MatchError::PrefixMismatch { literal } => {
                let mut r: String = "Input should starts with ".to_owned();
                r.append(str_repr(literal.as_str()).as_str());
                r
            },
            MatchError::LiteralNotFound { literal } => {
                let mut r: String = "Input does not contain '".to_owned();
                r.append(str_repr(literal.as_str()).as_str());
                r.append("'.");
                r
            },
            MatchError::SuffixMismatch { literal } => {
                let mut r: String = "Input should ends with '".to_owned();
                r.append(str_repr(literal.as_str()).as_str());
                r.append("'.");
                r
            },
        }
    }
}

impl LengthMismatchError {
    /// The fault in words.
    pub fn message(&self) -> (r: String)
        ensures
            r@ == "Length of formats must be same as length of variables."@,
    {
        "Length of formats must be same as length of variables.".to_owned()
    }
}

impl UnformatFault {
    /// The fault in words.
    pub open spec fn message(self) -> Seq<char> {
        match self {
            UnformatFault::Syntax(e) => e.message(),
            UnformatFault::Match(e) => e.message(),
        }
    }
}

impl UnformatError {
    /// The fault in words.
    pub fn message(&self) -> (r: String)
        ensures
            r@ == self@.message(),
    {
        match self {
            UnformatError::Syntax(e) => e.message(),
            UnformatError::Match(e) => e.message(),
        }
    }
}

} // verus!
