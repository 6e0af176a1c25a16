use unformat::errors::SyntaxError;
use unformat::{FormatPattern, NamedFormatPattern, PatternTrait, Var};

#[test]
fn basic() {
    let s = "aa{}bb{}cc";
    let model = FormatPattern::new(s).unwrap();
    assert_eq!(*model.consts(), vec!["aa", "bb", "cc"]);
    assert_eq!(
        *model.vars(),
        vec![
            Var { value: "".to_string(), fmt: None },
            Var { value: "".to_string(), fmt: None },
        ]
    );
}

#[test]
fn with_name() {
    let s = "aa{x}bb{y}cc";
    let model = FormatPattern::new(s).unwrap();
    assert_eq!(*model.consts(), vec!["aa", "bb", "cc"]);
    assert_eq!(
        *model.vars(),
        vec![
            Var { value: "x".to_string(), fmt: None },
            Var { value: "y".to_string(), fmt: None },
        ]
    );
}

#[test]
fn with_fmt() {
    let s = "aa{:str}bb{:int}cc";
    let model = FormatPattern::new(s).unwrap();
    assert_eq!(*model.consts(), vec!["aa", "bb", "cc"]);
    assert_eq!(
        *model.vars(),
        vec![
            Var { value: "".to_string(), fmt: Some("str".to_string()) },
            Var { value: "".to_string(), fmt: Some("int".to_string()) },
        ]
    );
    assert_eq!(model.formats(), vec!["str", "int"]);
}

#[test]
fn with_name_and_fmt() {
    let s = "aa{x:str}bb{y:int}cc";
    let model = NamedFormatPattern::new(s).unwrap();
    assert_eq!(*model.consts(), vec!["aa", "bb", "cc"]);
    assert_eq!(
        *model.vars(),
        vec![
            Var { value: "x".to_string(), fmt: Some("str".to_string()) },
            Var { value: "y".to_string(), fmt: Some("int".to_string()) },
        ]
    );
}

#[test]
fn err_invalid_format_string() {
    let s = "aa{:str}bb{:int:}cc";
    let model = FormatPattern::new(s);
    assert!(model.is_err());
}

#[test]
fn err_tandem_brace() {
    let s = "aa{}{}c";
    let model = FormatPattern::new(s);
    assert!(model.is_err());
}

#[test]
fn invalid_format_string_names_the_placeholder() {
    match FormatPattern::new("aa{:str}bb{:int:}cc") {
        Err(e) => assert_eq!(
            e,
            SyntaxError::InvalidPlaceholderSyntax { placeholder: ":int:".to_string() }
        ),
        Ok(_) => panic!("two colons in one placeholder"),
    }
}

#[test]
fn adjacent_placeholders_are_rejected() {
    match FormatPattern::new("aa{}{}cc") {
        Err(e) => assert_eq!(e, SyntaxError::AdjacentPlaceholders),
        Ok(_) => panic!("adjacent placeholders"),
    }
    match NamedFormatPattern::new("{a}{b}") {
        Err(e) => assert_eq!(e, SyntaxError::AdjacentPlaceholders),
        Ok(_) => panic!("adjacent placeholders"),
    }
}

#[test]
fn unterminated_placeholder_is_rejected() {
    match FormatPattern::new("abc{x") {
        Err(e) => assert_eq!(e, SyntaxError::UnterminatedPlaceholder),
        Ok(_) => panic!("unterminated placeholder"),
    }
    match FormatPattern::new("abc{") {
        Err(e) => assert_eq!(e, SyntaxError::UnterminatedPlaceholder),
        Ok(_) => panic!("unterminated placeholder"),
    }
}

#[test]
fn unbalanced_braces_are_rejected() {
    match FormatPattern::new("a{b{c}d") {
        Err(e) => assert_eq!(e, SyntaxError::RepeatedOpen),
        Ok(_) => panic!("brace inside a placeholder"),
    }
    match FormatPattern::new("a}b") {
        Err(e) => assert_eq!(e, SyntaxError::UnmatchedClose),
        Ok(_) => panic!("closing brace without an opening one"),
    }
    match FormatPattern::new("{a}}") {
        Err(e) => assert_eq!(e, SyntaxError::UnmatchedClose),
        Ok(_) => panic!("closing brace without an opening one"),
    }
}

#[test]
fn first_fault_wins() {
    match FormatPattern::new("{a:b:c}{}") {
        Err(e) => assert_eq!(
            e,
            SyntaxError::InvalidPlaceholderSyntax { placeholder: "a:b:c".to_string() }
        ),
        Ok(_) => panic!("two faults"),
    }
    match FormatPattern::new("{}{a:b:c}") {
        Err(e) => assert_eq!(e, SyntaxError::AdjacentPlaceholders),
        Ok(_) => panic!("two faults"),
    }
}

#[test]
fn template_without_placeholder() {
    let model = FormatPattern::new("plain text").unwrap();
    assert_eq!(*model.consts(), vec!["plain text"]);
    assert!(model.vars().is_empty());
    let empty = FormatPattern::new("").unwrap();
    assert_eq!(*empty.consts(), vec![""]);
    assert!(empty.vars().is_empty());
}

#[test]
fn hint_is_trimmed() {
    let model = FormatPattern::new("a{x:  int \t}b{y: }c{z:f mt}").unwrap();
    assert_eq!(
        *model.vars(),
        vec![
            Var { value: "x".to_string(), fmt: Some("int".to_string()) },
            Var { value: "y".to_string(), fmt: Some("".to_string()) },
            Var { value: "z".to_string(), fmt: Some("f mt".to_string()) },
        ]
    );
    assert_eq!(model.formats(), vec!["int", "", "f mt"]);
}

#[test]
fn identifier_is_not_trimmed() {
    let model = FormatPattern::new("{ x :int}").unwrap();
    assert_eq!(
        *model.vars(),
        vec![Var { value: " x ".to_string(), fmt: Some("int".to_string()) }]
    );
}

#[test]
fn colon_in_a_literal_is_text() {
    let model = FormatPattern::new("a:b{x}c:d").unwrap();
    assert_eq!(*model.consts(), vec!["a:b", "c:d"]);
}

#[test]
fn template_beyond_ascii() {
    let model = FormatPattern::new("é{ü:ß}→").unwrap();
    assert_eq!(*model.consts(), vec!["é", "→"]);
    assert_eq!(
        *model.vars(),
        vec![Var { value: "ü".to_string(), fmt: Some("ß".to_string()) }]
    );
}

#[test]
fn named_rejects_a_repeated_identifier() {
    match NamedFormatPattern::new("{x}-{y}-{x}") {
        Err(e) => assert_eq!(e, SyntaxError::DuplicateIdentifier { name: "x".to_string() }),
        Ok(_) => panic!("x stands twice"),
    }
    match NamedFormatPattern::new("{}-{}") {
        Err(e) => assert_eq!(e, SyntaxError::DuplicateIdentifier { name: "".to_string() }),
        Ok(_) => panic!("the empty identifier stands twice"),
    }
    match NamedFormatPattern::new("{a}-{b}-{b}-{a}") {
        Err(e) => assert_eq!(e, SyntaxError::DuplicateIdentifier { name: "b".to_string() }),
        Ok(_) => panic!("b is the first to stand twice"),
    }
}

#[test]
fn named_accepts_one_empty_identifier() {
    let model = NamedFormatPattern::new("{}-{y}").unwrap();
    assert_eq!(model.variables(), vec!["", "y"]);
}

#[test]
fn named_reports_a_syntax_fault_before_a_repeat() {
    match NamedFormatPattern::new("{x}-{x}-{a:b:c}") {
        Err(e) => assert_eq!(
            e,
            SyntaxError::InvalidPlaceholderSyntax { placeholder: "a:b:c".to_string() }
        ),
        Ok(_) => panic!("two faults"),
    }
}

#[test]
fn positional_accepts_repeated_identifiers() {
    let model = FormatPattern::new("{x}-{x}-{}-{}").unwrap();
    assert_eq!(model.variables(), vec!["x", "x", "", ""]);
}

#[test]
fn hint_is_trimmed_of_ascii_controls() {
    let model = FormatPattern::new("{x:\t\n\u{b}\u{c}\r int \r\u{c}\u{b}\n\t}").unwrap();
    assert_eq!(model.formats(), vec!["int"]);
}

#[test]
fn hint_keeps_other_ascii_characters() {
    let model = FormatPattern::new("{x:\u{8}int\u{e}}-{y:\u{1f}f\u{7f}}-{z:_a!}").unwrap();
    assert_eq!(model.formats(), vec!["\u{8}int\u{e}", "\u{1f}f\u{7f}", "_a!"]);
}

#[test]
fn hint_is_trimmed_of_wide_white_space() {
    let model = FormatPattern::new("{x:\u{a0}\u{3000}int\u{2003}\u{85}}").unwrap();
    assert_eq!(model.formats(), vec!["int"]);
    let model = FormatPattern::new("{x:\u{200b}int\u{e9}}").unwrap();
    assert_eq!(model.formats(), vec!["\u{200b}int\u{e9}"]);
}
