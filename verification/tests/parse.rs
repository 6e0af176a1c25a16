use unformat::errors::MatchError;
use unformat::{FormatPattern, NamedFormatPattern, NamedVar, PatternTrait, Var};

#[test]
fn unformatter_basic() {
    let model = FormatPattern::new("aa{}bbb{}cccc").unwrap();
    let result = model.parse_string(&"aa1bbb2cccc".to_string()).unwrap();
    assert_eq!(
        result,
        vec![
            NamedVar { value: "1".to_string(), fmt: None, name: "".to_string() },
            NamedVar { value: "2".to_string(), fmt: None, name: "".to_string() },
        ]
    );
}

#[test]
fn ends_with_brace() {
    let s = "{}bb{}";
    let model = FormatPattern::new(s).unwrap();
    assert_eq!(*model.consts(), vec!["", "bb", ""]);
    assert_eq!(
        *model.vars(),
        vec![
            Var { value: "".to_string(), fmt: None },
            Var { value: "".to_string(), fmt: None },
        ]
    );
    let result = model.parse_string(&"1bb2".to_string());
    assert_eq!(result.is_ok(), true);
    assert_eq!(
        result.unwrap(),
        vec![
            NamedVar { value: "1".to_string(), fmt: None, name: "".to_string() },
            NamedVar { value: "2".to_string(), fmt: None, name: "".to_string() },
        ]
    );
}

#[test]
fn with_name_ends_with_brace() {
    let s = "{x}bb{y}";
    let model = FormatPattern::new(s).unwrap();
    assert_eq!(*model.consts(), vec!["", "bb", ""]);
    assert_eq!(
        *model.vars(),
        vec![
            Var { value: "x".to_string(), fmt: None },
            Var { value: "y".to_string(), fmt: None },
        ]
    );
    let result = model.parse_string(&"1bb2".to_string());
    assert_eq!(result.is_ok(), true);
    assert_eq!(
        result.unwrap(),
        vec![
            NamedVar { value: "1".to_string(), fmt: None, name: "x".to_string() },
            NamedVar { value: "2".to_string(), fmt: None, name: "y".to_string() },
        ]
    );
}

#[test]
fn parse_carries_the_hint() {
    let model = NamedFormatPattern::new("{x:int}/{y}").unwrap();
    let result = model.parse_string("3/4").unwrap();
    assert_eq!(
        result,
        vec![
            NamedVar { value: "3".to_string(), fmt: Some("int".to_string()), name: "x".to_string() },
            NamedVar { value: "4".to_string(), fmt: None, name: "y".to_string() },
        ]
    );
}

#[test]
fn positional_values_and_no_names() {
    let model = FormatPattern::new("aa{}bb{}cc").unwrap();
    let (keys, values) = model.unformat("aa1bb2cc").unwrap();
    assert_eq!(values, vec!["1", "2"]);
    assert_eq!(keys.len(), 0);
}

#[test]
fn positional_with_names_has_no_index() {
    let model = FormatPattern::new("aa{x}bb{y}cc").unwrap();
    let (keys, values) = model.unformat("aa1bb2cc").unwrap();
    assert_eq!(values, vec!["1", "2"]);
    assert_eq!(keys.len(), 0);
    assert!(!keys.contains_key("x"));
}

#[test]
fn named_values_and_index() {
    let model = NamedFormatPattern::new("aa{x:str}bb{y:int}cc").unwrap();
    let (keys, values) = model.unformat("aa7bb42cc").unwrap();
    assert_eq!(values, vec!["7", "42"]);
    assert_eq!(keys.len(), 2);
    assert_eq!(keys.get("x"), Some(&0));
    assert_eq!(keys.get("y"), Some(&1));
    assert_eq!(keys.get("z"), None);
}

#[test]
fn empty_leading_and_trailing_literals() {
    let model = FormatPattern::new("{}bb{}").unwrap();
    let (_, values) = model.unformat("1bb2").unwrap();
    assert_eq!(values, vec!["1", "2"]);
}

#[test]
fn leftmost_occurrence_is_taken() {
    let model = FormatPattern::new("{}-{}").unwrap();
    let (_, values) = model.unformat("a-b-c").unwrap();
    assert_eq!(values, vec!["a", "b-c"]);
    let model = FormatPattern::new("{}-{}.").unwrap();
    let (_, values) = model.unformat("a-b-c.").unwrap();
    assert_eq!(values, vec!["a", "b-c"]);
    match model.unformat("a-b.c.") {
        Err(e) => assert_eq!(e, MatchError::SuffixMismatch { literal: ".".to_string() }),
        Ok(_) => panic!("the first full stop ends the match"),
    }
}

#[test]
fn leftmost_occurrence_can_leave_text_over() {
    let model = FormatPattern::new("{}ab").unwrap();
    match model.unformat("xabyab") {
        Err(e) => assert_eq!(e, MatchError::SuffixMismatch { literal: "ab".to_string() }),
        Ok(_) => panic!("the first ab ends the match"),
    }
}

#[test]
fn overlapping_literal() {
    let model = FormatPattern::new("{}aab{}").unwrap();
    let (_, values) = model.unformat("aaab").unwrap();
    assert_eq!(values, vec!["a", ""]);
}

#[test]
fn captured_values_may_be_empty() {
    let model = FormatPattern::new("a{}b{}c").unwrap();
    let (_, values) = model.unformat("abc").unwrap();
    assert_eq!(values, vec!["", ""]);
}

#[test]
fn final_placeholder_takes_the_rest() {
    let model = FormatPattern::new("key={}").unwrap();
    let (_, values) = model.unformat("key=a=b{c}").unwrap();
    assert_eq!(values, vec!["a=b{c}"]);
    let (_, values) = model.unformat("key=").unwrap();
    assert_eq!(values, vec![""]);
}

#[test]
fn pattern_without_placeholder_matches_itself_only() {
    let model = FormatPattern::new("abc").unwrap();
    let (_, values) = model.unformat("abc").unwrap();
    assert!(values.is_empty());
    match model.unformat("abcd") {
        Err(e) => assert_eq!(e, MatchError::SuffixMismatch { literal: "abc".to_string() }),
        Ok(_) => panic!("text is left over"),
    }
    match model.unformat("ab") {
        Err(e) => assert_eq!(e, MatchError::PrefixMismatch { literal: "abc".to_string() }),
        Ok(_) => panic!("the candidate is too short"),
    }
}

#[test]
fn empty_pattern_matches_the_empty_string_only() {
    let model = FormatPattern::new("").unwrap();
    assert!(model.matches("".to_string()));
    assert!(!model.matches("a".to_string()));
}

#[test]
fn prefix_mismatch() {
    let model = FormatPattern::new("aa{}bb").unwrap();
    match model.unformat("ab1bb") {
        Err(e) => assert_eq!(e, MatchError::PrefixMismatch { literal: "aa".to_string() }),
        Ok(_) => panic!("wrong prefix"),
    }
}

#[test]
fn literal_not_found() {
    let model = FormatPattern::new("aa{}bb{}cc").unwrap();
    match model.unformat("aa1bb2") {
        Err(e) => assert_eq!(e, MatchError::LiteralNotFound { literal: "cc".to_string() }),
        Ok(_) => panic!("cc is missing"),
    }
    match model.unformat("aa1b2cc") {
        Err(e) => assert_eq!(e, MatchError::LiteralNotFound { literal: "bb".to_string() }),
        Ok(_) => panic!("bb is missing"),
    }
}

#[test]
fn suffix_mismatch() {
    let model = FormatPattern::new("aa{}bb").unwrap();
    match model.unformat("aa1bb2") {
        Err(e) => assert_eq!(e, MatchError::SuffixMismatch { literal: "bb".to_string() }),
        Ok(_) => panic!("text is left over"),
    }
}

#[test]
fn matches_agrees_with_unformat() {
    let model = FormatPattern::new("aa{}bb{}cc").unwrap();
    let candidates = ["aa1bb2cc", "aa1bb2", "a1bb2cc", "aa1bb2ccc", "aabbcc", ""];
    for c in candidates {
        assert_eq!(model.matches(c.to_string()), model.unformat(c).is_ok());
        assert_eq!(model.matches(c.to_string()), model.parse_string(c).is_ok());
    }
    assert!(model.matches("aa1bb2cc".to_string()));
    assert!(!model.matches("aa1bb2".to_string()));
}

#[test]
fn values_between_literals_give_the_candidate() {
    let model = FormatPattern::new("<{}|{}|{}>").unwrap();
    let candidate = "<a|b|c|d>";
    let (_, values) = model.unformat(candidate).unwrap();
    let consts = model.consts();
    assert_eq!(values.len() + 1, consts.len());
    let mut rebuilt = consts[0].clone();
    for k in 0..values.len() {
        rebuilt.push_str(&values[k]);
        rebuilt.push_str(&consts[k + 1]);
    }
    assert_eq!(rebuilt, candidate);
    assert_eq!(values, vec!["a", "b", "c|d"]);
}

#[test]
fn candidate_beyond_ascii() {
    let model = NamedFormatPattern::new("→{a}é{b}").unwrap();
    let (keys, values) = model.unformat("→ñéüé").unwrap();
    assert_eq!(values, vec!["ñ", "üé"]);
    assert_eq!(keys.get("b"), Some(&1));
}
