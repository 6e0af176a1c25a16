use unformat::errors::{LengthMismatchError, MatchError, SyntaxError, UnformatError};
use unformat::{is_named_pattern, unformat, FormatPattern, NamedFormatPattern, PatternTrait};

#[test]
fn unformat_all_rows() {
    let model = NamedFormatPattern::new("{x}-{y}").unwrap();
    let (keys, rows) = model.unformat_all(vec!["1-2", "3-4", "-"]).unwrap();
    assert_eq!(rows, vec![vec!["1", "2"], vec!["3", "4"], vec!["", ""]]);
    assert_eq!(keys.get("x"), Some(&0));
    assert_eq!(keys.get("y"), Some(&1));
    assert_eq!(keys.len(), 2);
}

#[test]
fn unformat_all_fails_on_the_first_mismatch() {
    let model = FormatPattern::new("a{}b{}").unwrap();
    match model.unformat_all(vec!["a1b2", "a1", "x", "a3b4"]) {
        Err(e) => assert_eq!(e, MatchError::LiteralNotFound { literal: "b".to_string() }),
        Ok(_) => panic!("the second candidate does not match"),
    }
}

#[test]
fn unformat_all_without_candidates() {
    let model = NamedFormatPattern::new("{x}-{y}").unwrap();
    let (keys, rows) = model.unformat_all(vec![]).unwrap();
    assert!(rows.is_empty());
    assert_eq!(keys.get("x"), Some(&0));
    assert_eq!(keys.get("y"), Some(&1));
    let model = FormatPattern::new("{x}-{y}").unwrap();
    let (keys, rows) = model.unformat_all(vec![]).unwrap();
    assert!(rows.is_empty());
    assert_eq!(keys.len(), 0);
}

#[test]
fn unformat_to_dict_columns() {
    let model = NamedFormatPattern::new("{x}-{y}").unwrap();
    let (keys, dict) = model.unformat_to_dict(vec!["1-2", "3-4"]).unwrap();
    assert_eq!(dict.len(), 2);
    assert_eq!(dict.get("x"), Some(&vec!["1".to_string(), "3".to_string()]));
    assert_eq!(dict.get("y"), Some(&vec!["2".to_string(), "4".to_string()]));
    assert_eq!(keys.get("x"), Some(&0));
    assert_eq!(keys.get("y"), Some(&1));
}

#[test]
fn unformat_to_dict_without_candidates() {
    let model = NamedFormatPattern::new("{x}-{y}").unwrap();
    let (_, dict) = model.unformat_to_dict(vec![]).unwrap();
    assert_eq!(dict.len(), 2);
    assert_eq!(dict.get("x"), Some(&Vec::<String>::new()));
    assert_eq!(dict.get("y"), Some(&Vec::<String>::new()));
}

#[test]
fn unformat_to_dict_later_placeholder_wins() {
    let model = FormatPattern::new("{a}-{b}-{a}").unwrap();
    let (keys, dict) = model.unformat_to_dict(vec!["1-2-3", "4-5-6"]).unwrap();
    assert_eq!(keys.len(), 0);
    assert_eq!(dict.len(), 2);
    assert_eq!(dict.get("a"), Some(&vec!["3".to_string(), "6".to_string()]));
    assert_eq!(dict.get("b"), Some(&vec!["2".to_string(), "5".to_string()]));
    let model = FormatPattern::new("{}-{}").unwrap();
    let (_, dict) = model.unformat_to_dict(vec!["1-2"]).unwrap();
    assert_eq!(dict.len(), 1);
    assert_eq!(dict.get(""), Some(&vec!["2".to_string()]));
}

#[test]
fn unformat_to_dict_fails_on_the_first_mismatch() {
    let model = NamedFormatPattern::new("{x}-{y}.").unwrap();
    match model.unformat_to_dict(vec!["1-2.", "3-4", "5"]) {
        Err(e) => assert_eq!(e, MatchError::LiteralNotFound { literal: ".".to_string() }),
        Ok(_) => panic!("the second candidate does not match"),
    }
}

#[test]
fn counts_agree() {
    for template in ["", "abc", "{}", "a{x}b", "a{x:int}b{y}c{z: f }", "{}-{}-{}-{}"] {
        let model = FormatPattern::new(template).unwrap();
        let n = model.vars().len();
        assert_eq!(model.formats().len(), n);
        assert_eq!(model.variables().len(), n);
        assert_eq!(model.consts().len(), n + 1);
    }
}

#[test]
fn formats_and_variables() {
    let model = FormatPattern::new("a{x:int}b{y}c{:str}").unwrap();
    assert_eq!(model.formats(), vec!["int", "", "str"]);
    assert_eq!(model.variables(), vec!["x", "y", ""]);
}

#[test]
fn pattern_text() {
    let model = FormatPattern::new("a{x: int }b{y}c{:str}").unwrap();
    assert_eq!(model.pattern(), "a{x:int}b{y}c{:str}");
    let model = NamedFormatPattern::new("{x}bb{y:f}").unwrap();
    assert_eq!(model.pattern(), "{x}bb{y:f}");
    let model = FormatPattern::new("no placeholder").unwrap();
    assert_eq!(model.pattern(), "no placeholder");
    let model = FormatPattern::new("{x:}").unwrap();
    assert_eq!(model.pattern(), "{x:}");
}

#[test]
fn pattern_text_compiles_to_the_same_pattern() {
    for template in ["", "abc", "{}", "a{x}b", "a{x:  int}b{y}c{z: f }", "{}-{}-{:a b}-{}", "é{ü:ß}→"] {
        let model = FormatPattern::new(template).unwrap();
        let again = FormatPattern::new(&model.pattern()).unwrap();
        assert_eq!(again.consts(), model.consts());
        assert_eq!(again.vars(), model.vars());
        assert_eq!(again.pattern(), model.pattern());
    }
}

#[test]
fn with_formats_replaces_the_hints() {
    let model = FormatPattern::new("a{x:int}b{y}c").unwrap();
    let hints = vec!["float".to_string(), "str".to_string()];
    let changed = model.with_formats(hints.clone()).unwrap();
    assert_eq!(changed.formats(), hints);
    assert_eq!(changed.variables(), model.variables());
    assert_eq!(changed.consts(), model.consts());
    assert_eq!(changed.pattern(), "a{x:float}b{y:str}c");
    assert_eq!(model.formats(), vec!["int", ""]);
}

#[test]
fn with_formats_on_a_named_pattern() {
    let model = NamedFormatPattern::new("{x}-{y:int}").unwrap();
    let changed = model.with_formats(vec!["a".to_string(), "".to_string()]).unwrap();
    assert_eq!(changed.formats(), vec!["a", ""]);
    assert_eq!(changed.variables(), vec!["x", "y"]);
    assert_eq!(changed.pattern(), "{x:a}-{y:}");
    let (keys, values) = changed.unformat("1-2").unwrap();
    assert_eq!(values, vec!["1", "2"]);
    assert_eq!(keys.get("y"), Some(&1));
}

#[test]
fn with_formats_wants_one_hint_for_each_placeholder() {
    let model = FormatPattern::new("a{x:int}b{y}c").unwrap();
    match model.with_formats(vec!["int".to_string()]) {
        Err(e) => assert_eq!(e, LengthMismatchError { expected: 2, given: 1 }),
        Ok(_) => panic!("one hint for two placeholders"),
    }
    match model.with_formats(vec![]) {
        Err(e) => assert_eq!(e, LengthMismatchError { expected: 2, given: 0 }),
        Ok(_) => panic!("no hint for two placeholders"),
    }
    let model = NamedFormatPattern::new("{x}").unwrap();
    match model.with_formats(vec!["a".to_string(), "b".to_string()]) {
        Err(e) => assert_eq!(e, LengthMismatchError { expected: 1, given: 2 }),
        Ok(_) => panic!("two hints for one placeholder"),
    }
    let model = FormatPattern::new("abc").unwrap();
    assert!(model.with_formats(vec![]).is_ok());
}

#[test]
fn with_formats_keeps_any_hint_as_it_is() {
    let model = FormatPattern::new("{x}").unwrap();
    let changed = model.with_formats(vec![" a}b ".to_string()]).unwrap();
    assert_eq!(changed.formats(), vec![" a}b "]);
    assert_eq!(changed.pattern(), "{x: a}b }");
}

#[test]
fn is_named_pattern_tells_the_kinds_apart() {
    assert_eq!(is_named_pattern("aa{x}bb{y}cc"), Ok(true));
    assert_eq!(is_named_pattern("aa{}bb{}cc"), Ok(false));
    assert_eq!(is_named_pattern("{x:int}"), Ok(true));
    assert_eq!(is_named_pattern("{}"), Ok(false));
    assert_eq!(is_named_pattern("{a}{b}"), Ok(true));
    assert_eq!(is_named_pattern("{ }"), Ok(true));
}

#[test]
fn is_named_pattern_goes_by_the_identifier() {
    assert_eq!(is_named_pattern("{:int}"), Ok(false));
    assert_eq!(is_named_pattern("{:str}-{:int}"), Ok(false));
    assert_eq!(is_named_pattern("aa{:str}bb{:int}cc"), Ok(false));
    assert_eq!(is_named_pattern("{:}-{}"), Ok(false));
    assert_eq!(is_named_pattern("{x:int}-{y}"), Ok(true));
    assert_eq!(is_named_pattern("{x:a:b}"), Ok(true));
    assert_eq!(is_named_pattern("{:a:b}"), Ok(false));
    assert_eq!(is_named_pattern("{x}-{:int}"), Err(SyntaxError::MixedPattern));
    assert_eq!(is_named_pattern("{:int}-{x}"), Err(SyntaxError::MixedPattern));
    assert_eq!(is_named_pattern("{x:int}-{}"), Err(SyntaxError::MixedPattern));
}

#[test]
fn is_named_pattern_agrees_with_the_compiled_identifiers() {
    for template in ["{x}", "{}", "{:int}", "{x:int}-{y}", "a{}b{:f}c", "{ x}{y }"] {
        let named = is_named_pattern(template).unwrap();
        let model = FormatPattern::new(template);
        if let Ok(model) = model {
            for name in model.variables() {
                assert_eq!(!name.is_empty(), named);
            }
        }
    }
}

#[test]
fn is_named_pattern_faults() {
    assert_eq!(is_named_pattern("aa{x}bb{}cc"), Err(SyntaxError::MixedPattern));
    assert_eq!(is_named_pattern("aa{}bb{y}cc"), Err(SyntaxError::MixedPattern));
    assert_eq!(is_named_pattern("a{b{c}"), Err(SyntaxError::RepeatedOpen));
    assert_eq!(is_named_pattern("a}b{c}"), Err(SyntaxError::UnmatchedClose));
    assert_eq!(is_named_pattern("a{b}{c"), Err(SyntaxError::UnterminatedPlaceholder));
    assert_eq!(is_named_pattern("abc"), Err(SyntaxError::NoPlaceholder));
    assert_eq!(is_named_pattern(""), Err(SyntaxError::NoPlaceholder));
}

#[test]
fn unformat_in_one_step() {
    let (keys, values) = unformat("aa{}bb{}cc", "aa1bb2cc").unwrap();
    assert_eq!(values, vec!["1", "2"]);
    assert_eq!(keys.len(), 0);
    let (keys, values) = unformat("aa{x:str}bb{y:int}cc", "aa7bb42cc").unwrap();
    assert_eq!(values, vec!["7", "42"]);
    assert_eq!(keys.len(), 2);
    assert_eq!(keys.get("x"), Some(&0));
    assert_eq!(keys.get("y"), Some(&1));
}

#[test]
fn unformat_in_one_step_with_hints_only() {
    let (keys, values) = unformat("aa{:str}bb{:int}cc", "aa7bb42cc").unwrap();
    assert_eq!(values, vec!["7", "42"]);
    assert_eq!(keys.len(), 0);
}

#[test]
fn unformat_in_one_step_faults() {
    match unformat("aa{x}bb{}cc", "aa1bb2cc") {
        Err(e) => assert_eq!(e, UnformatError::Syntax(SyntaxError::MixedPattern)),
        Ok(_) => panic!("mixed template"),
    }
    match unformat("{x}-{x}", "1-2") {
        Err(e) => assert_eq!(
            e,
            UnformatError::Syntax(SyntaxError::DuplicateIdentifier { name: "x".to_string() })
        ),
        Ok(_) => panic!("x stands twice"),
    }
    match unformat("{}{}", "12") {
        Err(e) => assert_eq!(e, UnformatError::Syntax(SyntaxError::AdjacentPlaceholders)),
        Ok(_) => panic!("adjacent placeholders"),
    }
    match unformat("{x}-{y}", "12") {
        Err(e) => assert_eq!(
            e,
            UnformatError::Match(MatchError::LiteralNotFound { literal: "-".to_string() })
        ),
        Ok(_) => panic!("no hyphen in the candidate"),
    }
    match unformat("a{}", "b") {
        Err(e) => assert_eq!(
            e,
            UnformatError::Match(MatchError::PrefixMismatch { literal: "a".to_string() })
        ),
        Ok(_) => panic!("wrong prefix"),
    }
}
