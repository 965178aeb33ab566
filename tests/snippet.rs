use lirstings::pipeline::build_snippet;
use lirstings::snippet::SnippetError;
use lirstings::{CommentStyle, Mode, Range};

fn ranged(ranges: &[&str], ext: &str) -> Mode {
    Mode::TreeSitter {
        raw: false,
        raw_queries: false,
        ranges: ranges.iter().map(|r| Range::parse_literal(r).unwrap()).collect(),
        label: None,
        file_extension: ext.to_string(),
    }
}

fn text(v: &[char]) -> String {
    v.iter().collect()
}

fn ten_lines() -> String {
    (1..=10).map(|i| format!("line{i}\n")).collect()
}

#[test]
fn two_ranges_with_elision_line() {
    let (code, nums) = build_snippet(&ten_lines(), &ranged(&["2-4", "7-9"], "rs"), &vec![]).unwrap();
    assert_eq!(text(&code), "line2\nline3\nline4\n// ...\nline7\nline8\nline9");
    assert_eq!(nums, Some(vec![2, 3, 4, 0, 7, 8, 9]));
}

#[test]
fn elision_line_takes_larger_indent_and_offset() {
    let input = "fn a() {\n    x();\n}\n        y();\n";
    let (code, nums) = build_snippet(input, &ranged(&["1-2", "+2 4-4"], "rs"), &vec![]).unwrap();
    assert_eq!(text(&code), "fn a() {\n    x();\n          // ...\n        y();");
    assert_eq!(nums, Some(vec![1, 2, 0, 4]));
}

#[test]
fn registered_line_comment_is_used() {
    let comments = vec![(
        "py".to_string(),
        CommentStyle { line: "#".to_string(), block: ("\"\"\"".to_string(), "\"\"\"".to_string()) },
    )];
    let (code, _) = build_snippet(&ten_lines(), &ranged(&["1-1", "3-3"], "py"), &comments).unwrap();
    assert_eq!(text(&code), "line1\n# ...\nline3");
}

#[test]
fn inline_range_uses_registered_block_comment() {
    let comments = vec![(
        "c".to_string(),
        CommentStyle { line: "//".to_string(), block: ("/*".to_string(), "*/".to_string()) },
    )];
    let input = "int f(int a,\n      int b) {\n  return a;\n}\n";
    let (code, nums) = build_snippet(input, &ranged(&["1-1", "_ 2-3"], "c"), &comments).unwrap();
    assert_eq!(text(&code), "int f(int a,/* ... */int b) {\n  return a;");
    assert_eq!(nums, Some(vec![1, 3]));
}

#[test]
fn inline_range_falls_back_to_c_block_comment() {
    let comments = vec![(
        "py".to_string(),
        CommentStyle { line: "#".to_string(), block: ("<<".to_string(), ">>".to_string()) },
    )];
    let input = "a = f(1,\n      2)\n";
    let (code, _) = build_snippet(input, &ranged(&["1-1", "_ 2-2"], "zz"), &comments).unwrap();
    assert_eq!(text(&code), "a = f(1,/* ... */2)");
}

#[test]
fn inline_range_with_start_column() {
    let input = "call(alpha,\n     beta)\n";
    let (code, _) = build_snippet(input, &ranged(&["1-1", "_ 2:5-2"], "rs"), &vec![]).unwrap();
    assert_eq!(text(&code), "call(alpha,/* ... */beta)");
}

#[test]
fn columns_cut_first_and_last_line() {
    let input = "abcdef\nghijkl\n";
    let (code, _) = build_snippet(input, &ranged(&["1:2-2:3"], "rs"), &vec![]).unwrap();
    assert_eq!(text(&code), "cdef\nghi");
    let (single, _) = build_snippet(input, &ranged(&["1:1-1:4"], "rs"), &vec![]).unwrap();
    assert_eq!(text(&single), "bcd");
}

#[test]
fn range_past_the_end_is_rejected() {
    let r = build_snippet(&ten_lines(), &ranged(&["9-11"], "rs"), &vec![]);
    assert_eq!(r.unwrap_err(), SnippetError::LineOutOfBounds);
}

#[test]
fn column_past_the_line_is_rejected() {
    let r = build_snippet("abc\n", &ranged(&["1:5-1"], "rs"), &vec![]);
    assert_eq!(r.unwrap_err(), SnippetError::ColumnOutOfBounds);
}

#[test]
fn negative_offset_below_zero_is_rejected() {
    let r = build_snippet(&ten_lines(), &ranged(&["1-1", "-3 3-3"], "rs"), &vec![]);
    assert_eq!(r.unwrap_err(), SnippetError::IndentOutOfRange);
}

#[test]
fn whole_file_is_dedented_without_numbers() {
    let input = "    a\n\n      b\n    c\n\n\n";
    let (code, nums) = build_snippet(input, &Mode::Ansi, &vec![]).unwrap();
    assert_eq!(text(&code), "a\n\n  b\nc");
    assert_eq!(nums, None);
}

#[test]
fn dedent_strips_the_smallest_indentation() {
    let input = "  if x {\n      y\n  }\n";
    let (code, _) = build_snippet(input, &Mode::TreeSitterInline { file_extension: "rs".into() }, &vec![]).unwrap();
    assert_eq!(text(&code), "if x {\n    y\n}");
    let again: String = text(&code);
    let (twice, _) = build_snippet(&again, &Mode::Ansi, &vec![]).unwrap();
    assert_eq!(text(&twice), again);
}

#[test]
fn empty_input_gives_empty_snippet() {
    let (code, nums) = build_snippet("", &Mode::Ansi, &vec![]).unwrap();
    assert!(code.is_empty());
    assert_eq!(nums, None);
}
