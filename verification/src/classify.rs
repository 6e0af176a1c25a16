//! Telling named templates from positional ones without compiling them.
use crate::compiler::{lemma_position_of, position_of};
use crate::errors::{SyntaxError, SyntaxFault};
use vstd::prelude::*;

verus! {

/// Whether the text between two braces begins with an identifier: whether
/// anything stands before its first colon, or in it at all where it has no
/// colon. A format hint does not count.
pub open spec fn has_identifier(body: Seq<char>) -> bool {
    position_of(body, ':') > 0
}

/// What a survey of a template knows after some prefix of it.
pub struct Survey {
    /// Whether the survey is inside a placeholder.
    pub inside: bool,
    /// The text of the placeholder that the survey is inside of.
    pub text: Seq<char>,
    /// Whether the placeholders closed so far have an identifier; `None`
    /// before the first placeholder closes.
    pub named: Option<bool>,
}

/// The survey before the first character.
pub open spec fn survey_start() -> Survey {
    Survey { inside: false, text: Seq::empty(), named: None }
}

/// One step of the survey, on the character `c`.
pub open spec fn survey_step(st: Survey, c: char) -> Result<Survey, SyntaxFault> {
    if c == '{' {
        if st.inside {
            Err(SyntaxFault::RepeatedOpen)
        } else {
            Ok(Survey { inside: true, text: Seq::empty(), named: st.named })
        }
    } else if c == '}' {
        if !st.inside {
            Err(SyntaxFault::UnmatchedClose)
        } else if st.named == Some(!has_identifier(st.text)) {
            Err(SyntaxFault::MixedPattern)
        } else {
            Ok(Survey { inside: false, text: Seq::empty(), named: Some(has_identifier(st.text)) })
        }
    } else if st.inside {
        Ok(Survey { inside: true, text: st.text.push(c), named: st.named })
    } else {
        Ok(st)
    }
}

/// The survey after the whole of `t`, or the first fault on the way.
pub open spec fn survey(t: Seq<char>) -> Result<Survey, SyntaxFault>
    decreases t.len(),
{
    if t.len() == 0 {
        Ok(survey_start())
    } else {
        match survey(t.drop_last()) {
            Err(e) => Err(e),
            Ok(st) => survey_step(st, t.last()),
        }
    }
}

/// Whether the template `t` is a named one: whether its placeholders have
/// an identifier. The braces must pair up without nesting, there must be a
/// placeholder, and either all placeholders have an identifier or none has.
pub open spec fn is_named_spec(t: Seq<char>) -> Result<bool, SyntaxFault> {
    match survey(t) {
        Err(e) => Err(e),
        Ok(st) => if st.inside {
            Err(SyntaxFault::UnterminatedPlaceholder)
        } else {
            match st.named {
                Some(named) => Ok(named),
                None => Err(SyntaxFault::NoPlaceholder),
            }
        },
    }
}

/// A fault in a prefix of the template is the fault of the whole template.
pub proof fn lemma_survey_fault_stays(t: Seq<char>, i: int)
    requires
        0 <= i <= t.len(),
        survey(t.take(i)) is Err,
    ensures
        survey(t) == survey(t.take(i)),
    decreases t.len() - i,
{
    if i < t.len() {
        assert(t.take(i + 1).drop_last() =~= t.take(i));
        lemma_survey_fault_stays(t, i + 1);
    } else {
        assert(t.take(i) =~= t);
    }
}

/// Text has an identifier exactly where it begins with a character other
/// than a colon.
pub proof fn lemma_has_identifier(body: Seq<char>)
    ensures
        has_identifier(body) <==> body.len() > 0 && body[0] != ':',
{
    if body.len() > 0 && body[0] != ':' {
        lemma_position_of(body.drop_first(), ':');
    }
}

/// Classifies a template as named (`true`) or positional (`false`).
pub fn is_named_pattern(ptn: &str) -> (r: Result<bool, SyntaxError>)
    ensures
        match r {
            Ok(named) => is_named_spec(ptn@) == Ok::<bool, SyntaxFault>(named),
            Err(e) => is_named_spec(ptn@) == Err::<bool, SyntaxFault>(e@),
        },
{
    let mut inside: bool = false;
    let mut blank: bool = true;
    let mut filled: bool = false;
    let mut named: Option<bool> = None;
    let ghost mut text: Seq<char> = Seq::empty();
    assert(ptn@.take(0) =~= Seq::<char>::empty());
    proof {
        lemma_has_identifier(text);
    }
    for c in it: ptn.chars()
        invariant
            it.seq() == ptn@,
            blank == (text.len() == 0),
            filled == has_identifier(text),
            survey(ptn@.take(it.index() as int)) == Ok::<Survey, SyntaxFault>(
                Survey { inside, text, named },
            ),
    {
        let ghost i = it.index() as int;
        let ghost before = Survey { inside, text, named };
        proof {
            assert(ptn@.take(i + 1).drop_last() =~= ptn@.take(i));
            assert(ptn@.take(i + 1).last() == c);
            assert(survey(ptn@.take(i + 1)) == survey_step(before, c));
            lemma_has_identifier(text);
            lemma_has_identifier(text.push(c));
            lemma_has_identifier(Seq::<char>::empty());
        }
        if c == '{' {
            if inside {
                proof {
                    lemma_survey_fault_stays(ptn@, i + 1);
                }
                return Err(SyntaxError::RepeatedOpen);
            }
            inside = true;
            blank = true;
            filled = false;
            proof {
                text = Seq::empty();
            }
        } else if c == '}' {
            if !inside {
                proof {
                    lemma_survey_fault_stays(ptn@, i + 1);
                }
                return Err(SyntaxError::UnmatchedClose);
            }
            match named {
                Some(n) => {
                    if n != filled {
                        proof {
                            lemma_survey_fault_stays(ptn@, i + 1);
                        }
                        return Err(SyntaxError::MixedPattern);
                    }
                },
                None => {},
            }
            named = Some(filled);
            inside = false;
            blank = true;
            filled = false;
            proof {
                text = Seq::empty();
            }
        } else if inside {
            if blank {
                filled = c != ':';
                blank = false;
            }
            proof {
                text = text.push(c);
            }
        }
    }
    proof {
        assert(ptn@.take(ptn@.len() as int) =~= ptn@);
    }
    if inside {
        return Err(SyntaxError::UnterminatedPlaceholder);
    }
    match named {
        Some(n) => Ok(n),
        None => Err(SyntaxError::NoPlaceholder),
    }
}

} // verus!
