use lirstings::query::{normalize_query, PatternInfo, Predicate, PredicateArg, PredicateError};

fn pred(op: &str, args: Vec<PredicateArg>) -> Predicate {
    Predicate { operator: op.to_string(), args }
}

fn text(s: &str) -> PredicateArg {
    PredicateArg::Text(s.to_string())
}

#[test]
fn any_of_becomes_anchored_match() {
    let src = "((identifier) @x (#any-of? @x \"a\" \"b\"))";
    let pats = vec![PatternInfo { start_byte: 0, predicates: vec![pred("any-of?", vec![PredicateArg::Capture(0), text("a"), text("b")])] }];
    let out = normalize_query(src, &pats, &vec!["x".to_string()]).unwrap();
    assert_eq!(out, "((identifier) @x (#match? @x \"^(a|b)$\" ))");
}

#[test]
fn lua_match_digits_and_contains() {
    let src = "(a) @n (#lua-match? @n \"^%d+$\")\n(b) @m (#contains? @m \"z\")\n";
    let second = src.find("(b)").unwrap();
    let pats = vec![
        PatternInfo { start_byte: 0, predicates: vec![pred("lua-match?", vec![PredicateArg::Capture(0), text("^%d+$")])] },
        PatternInfo { start_byte: second, predicates: vec![pred("contains?", vec![PredicateArg::Capture(1), text("z")])] },
    ];
    let names = vec!["n".to_string(), "m".to_string()];
    let out = normalize_query(src, &pats, &names).unwrap();
    assert_eq!(out, "(a) @n (#match? @n \"^\\\\d+$\" )\n(b) @m (#match? @m \"z\" )\n");
}

#[test]
fn other_predicates_are_kept() {
    let src = "(a) @n (#eq? @n \"x\") ; é\n";
    let pats = vec![PatternInfo { start_byte: 0, predicates: vec![pred("set-lang!", vec![text("x")])] }];
    assert_eq!(normalize_query(src, &pats, &vec![]).unwrap(), src);
}

#[test]
fn patterns_keep_their_order_and_multibyte_offsets() {
    let src = "; ü\n(a)\n(b)\n";
    let a = src.find("(a)").unwrap();
    let b = src.find("(b)").unwrap();
    let pats = vec![PatternInfo { start_byte: a, predicates: vec![] }, PatternInfo { start_byte: b, predicates: vec![] }];
    assert_eq!(normalize_query(src, &pats, &vec![]).unwrap(), "(a)\n(b)\n");
}

#[test]
fn bad_arguments_are_an_error() {
    let src = "(a) @n (#lua-match? @n @n)";
    let pats = vec![PatternInfo { start_byte: 0, predicates: vec![pred("lua-match?", vec![PredicateArg::Capture(0), PredicateArg::Capture(0)])] }];
    assert_eq!(normalize_query(src, &pats, &vec!["n".to_string()]), Err(PredicateError::InvalidQuery));
}

#[test]
fn missing_predicate_text_is_an_error() {
    let src = "(a) @n";
    let pats = vec![PatternInfo { start_byte: 0, predicates: vec![pred("contains?", vec![PredicateArg::Capture(0), text("z")])] }];
    assert_eq!(normalize_query(src, &pats, &vec!["n".to_string()]), Err(PredicateError::InvalidQuery));
}

#[test]
fn offset_inside_a_character_is_an_error() {
    let src = "é(a)";
    let pats = vec![PatternInfo { start_byte: 1, predicates: vec![] }];
    assert_eq!(normalize_query(src, &pats, &vec![]), Err(PredicateError::InvalidQuery));
}

#[test]
fn unknown_capture_is_an_error() {
    let src = "(a) @n (#contains? @n @q)";
    let pats = vec![PatternInfo { start_byte: 0, predicates: vec![pred("contains?", vec![PredicateArg::Capture(0), PredicateArg::Capture(5)])] }];
    assert_eq!(normalize_query(src, &pats, &vec!["n".to_string()]), Err(PredicateError::InvalidQuery));
}
