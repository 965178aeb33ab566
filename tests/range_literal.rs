use lirstings::range::RangeParseError;
use lirstings::{Offset, Range};

#[test]
fn plain_range() {
    let r = Range::parse_literal("3-7").unwrap();
    assert_eq!(r, Range { inline: false, indent_offset: Offset::Zero, start: 2, end: 6, start_col: None, end_col: None });
}

#[test]
fn range_with_offset_columns_and_spaces() {
    let r = Range::parse_literal("  +2 10:4 - 12:8  ").unwrap();
    assert_eq!(r, Range { inline: false, indent_offset: Offset::Positive(2), start: 9, end: 11, start_col: Some(4), end_col: Some(8) });
    let n = Range::parse_literal("-3 1-1").unwrap();
    assert_eq!(n.indent_offset, Offset::Negative(3));
}

#[test]
fn inline_marker() {
    let r = Range::parse_literal("_ 20-25").unwrap();
    assert!(r.inline);
    assert_eq!((r.start, r.end), (19, 24));
}

#[test]
fn malformed_literals() {
    for s in ["", "3", "3-", "a-4", "3-4x", "+-3 1-2", "+ 1-2", "1:-2", "1--2"] {
        assert_eq!(Range::parse_literal(s), Err(RangeParseError::Malformed), "{s}");
    }
}

#[test]
fn line_zero_is_rejected() {
    assert_eq!(Range::parse_literal("0-3"), Err(RangeParseError::ZeroLine));
    assert_eq!(Range::parse_literal("1-0"), Err(RangeParseError::ZeroLine));
}

#[test]
fn backwards_range_is_rejected() {
    assert_eq!(Range::parse_literal("5-3"), Err(RangeParseError::StartAfterEnd));
    assert_eq!(Range::parse_literal("4:9-4:2"), Err(RangeParseError::StartAfterEnd));
    assert!(Range::parse_literal("4:2-4:9").is_ok());
}

#[test]
fn huge_number_is_rejected() {
    assert_eq!(Range::parse_literal("1-99999999999999999999999"), Err(RangeParseError::NumberTooLarge));
}

#[test]
fn offset_add() {
    assert_eq!(Offset::Positive(2).add(3), Some(5));
    assert_eq!(Offset::Negative(2).add(3), Some(1));
    assert_eq!(Offset::Negative(4).add(3), None);
    assert_eq!(Offset::Zero.add(7), Some(7));
}

#[test]
fn from_str_reads_the_same_literal() {
    let r: Range = "_ 4:2-6".parse().unwrap();
    assert_eq!(r, Range { inline: true, indent_offset: Offset::Zero, start: 3, end: 5, start_col: Some(2), end_col: None });
    assert_eq!("x".parse::<Range>(), Err(RangeParseError::Malformed));
}

#[test]
fn signed_offset_gives_its_last_digit_to_the_start_line() {
    let r = Range::parse_literal("+12-3").unwrap();
    assert_eq!(r, Range { inline: false, indent_offset: Offset::Positive(1), start: 1, end: 2, start_col: None, end_col: None });
    let n = Range::parse_literal("-24-30").unwrap();
    assert_eq!(n, Range { inline: false, indent_offset: Offset::Negative(2), start: 3, end: 29, start_col: None, end_col: None });
    let spaced = Range::parse_literal("+12 -3").unwrap();
    assert_eq!((spaced.indent_offset, spaced.start, spaced.end), (Offset::Positive(1), 1, 2));
    let greedy = Range::parse_literal("+12 3-4").unwrap();
    assert_eq!((greedy.indent_offset, greedy.start, greedy.end), (Offset::Positive(12), 2, 3));
    assert_eq!(Range::parse_literal("+1-3"), Err(RangeParseError::Malformed));
}
