//! Line ranges of a source file and the indentation offset of an elision.
use vstd::prelude::*;

verus! {

/// A signed adjustment of an elision marker's indentation.
#[derive(Debug, Clone, Copy, Hash, Default, PartialEq, Eq)]
pub enum Offset {
    #[default]
    Zero,
    Positive(usize),
    Negative(usize),
}

/// The integer that `o` adds.
pub open spec fn offset_value(o: Offset) -> int {
    match o {
        Offset::Zero => 0,
        Offset::Positive(n) => n as int,
        Offset::Negative(n) => -(n as int),
    }
}

impl Offset {
    /// `rhs` moved by this offset, or `None` where the result is not a `usize`.
    pub fn add(self, rhs: usize) -> (r: Option<usize>)
        ensures
            r == (if 0 <= rhs + offset_value(self) <= usize::MAX {
                Some((rhs + offset_value(self)) as usize)
            } else {
                None
            }),
    {
        match self {
            Offset::Zero => Some(rhs),
            Offset::Positive(n) => rhs.checked_add(n),
            Offset::Negative(n) => rhs.checked_sub(n),
        }
    }
}

/// A range of lines `start..=end` (zero-based), with optional columns on its
/// first and last line, as written in a range literal.
#[derive(Debug, Clone, Copy, Hash, Default, PartialEq, Eq)]
pub struct Range {
    /// The range is spliced into the previous line (`_` marker).
    pub inline: bool,
    pub indent_offset: Offset,
    pub start: usize,
    pub end: usize,
    pub start_col: Option<usize>,
    pub end_col: Option<usize>,
}

/// Why a range literal cannot be read.
#[derive(Debug, Clone, Copy, PartialEq, Eq)]
pub enum RangeParseError {
    /// The text is not of the form `[+n|-n|_] line[:col] - line[:col]`.
    Malformed,
    /// A number does not fit in a `usize`.
    NumberTooLarge,
    /// A line number is zero; lines count from one.
    ZeroLine,
    /// The range ends before it starts.
    StartAfterEnd,
}

pub open spec fn is_digit(c: char) -> bool {
    '0' <= c <= '9'
}

/// Index of the first non-space at or after `i`.
pub open spec fn skip_spaces(s: Seq<char>, i: int) -> int
    decreases s.len() - i,
{
    if 0 <= i < s.len() && s[i] == ' ' {
        skip_spaces(s, i + 1)
    } else {
        i
    }
}

/// Index of the first non-digit at or after `i`.
pub open spec fn skip_digits(s: Seq<char>, i: int) -> int
    decreases s.len() - i,
{
    if 0 <= i < s.len() && is_digit(s[i]) {
        skip_digits(s, i + 1)
    } else {
        i
    }
}

/// The number that the decimal digits `d` denote.
pub open spec fn digits_value(d: Seq<char>) -> nat
    decreases d.len(),
{
    if d.len() == 0 {
        0
    } else {
        digits_value(d.drop_last()) * 10 + ((d.last() as u32 - '0' as u32) as nat)
    }
}

/// The sign in front of a range literal.
pub enum PrefixSyntax {
    Absent,
    Inline,
    Plus(Seq<char>),
    Minus(Seq<char>),
}

/// The digit strings of a well-formed range literal.
pub struct RangeSyntax {
    pub prefix: PrefixSyntax,
    pub start: Seq<char>,
    pub start_col: Option<Seq<char>>,
    pub end: Seq<char>,
    pub end_col: Option<Seq<char>>,
}

/// A line number with an optional column, read from index `i`: the digits,
/// the column digits, and the index after them.
pub open spec fn line_col(s: Seq<char>, i: int) -> Option<(Seq<char>, Option<Seq<char>>, int)> {
    let j = skip_digits(s, i);
    if j == i {
        None
    } else if j < s.len() && s[j] == ':' {
        let k = skip_digits(s, j + 1);
        if k == j + 1 {
            None
        } else {
            Some((s.subrange(i, j), Some(s.subrange(j + 1, k)), k))
        }
    } else {
        Some((s.subrange(i, j), None, j))
    }
}

/// The prefix read from index `i`, and the index after it.
pub open spec fn prefix_syntax(s: Seq<char>, i: int) -> Option<(PrefixSyntax, int)> {
    if i < s.len() && s[i] == '_' {
        Some((PrefixSyntax::Inline, i + 1))
    } else if i < s.len() && (s[i] == '+' || s[i] == '-') {
        let j = skip_digits(s, i + 1);
        if j == i + 1 {
            None
        } else if s[i] == '+' {
            Some((PrefixSyntax::Plus(s.subrange(i + 1, j)), j))
        } else {
            Some((PrefixSyntax::Minus(s.subrange(i + 1, j)), j))
        }
    } else {
        Some((PrefixSyntax::Absent, i))
    }
}

/// The start and end lines with their columns, read from index `i`:
/// `line[:col] *- *line[:col] *` up to the end of `s`.
pub open spec fn tail_syntax(s: Seq<char>, i: int) -> Option<
    ((Seq<char>, Option<Seq<char>>), (Seq<char>, Option<Seq<char>>)),
> {
    match line_col(s, i) {
        None => None,
        Some(a) => {
            let dash = skip_spaces(s, a.2);
            if !(dash < s.len() && s[dash] == '-') {
                None
            } else {
                match line_col(s, skip_spaces(s, dash + 1)) {
                    None => None,
                    Some(b) => if skip_spaces(s, b.2) != s.len() {
                        None
                    } else {
                        Some(((a.0, a.1), (b.0, b.1)))
                    },
                }
            }
        },
    }
}

pub open spec fn with_tail(
    p: PrefixSyntax,
    t: ((Seq<char>, Option<Seq<char>>), (Seq<char>, Option<Seq<char>>)),
) -> RangeSyntax {
    RangeSyntax { prefix: p, start: (t.0).0, start_col: (t.0).1, end: (t.1).0, end_col: (t.1).1 }
}

/// The parts of `s` where it matches
/// `^ *([+-]\d+|_)? *(\d+)(?::(\d+))? *- *(\d+)(?::(\d+))? *$`. As the
/// regular expression does, a signed offset first takes all its digits;
/// where the rest then does not match, it gives its last digit to the start
/// line (`+12-3` is offset 1, lines 2 to 3).
pub open spec fn range_syntax(s: Seq<char>) -> Option<RangeSyntax> {
    match prefix_syntax(s, skip_spaces(s, 0)) {
        None => None,
        Some(p) => match tail_syntax(s, skip_spaces(s, p.1)) {
            Some(t) => Some(with_tail(p.0, t)),
            None => match p.0 {
                PrefixSyntax::Plus(d) => if d.len() >= 2 {
                    match tail_syntax(s, p.1 - 1) {
                        Some(t) => Some(with_tail(PrefixSyntax::Plus(d.drop_last()), t)),
                        None => None,
                    }
                } else {
                    None
                },
                PrefixSyntax::Minus(d) => if d.len() >= 2 {
                    match tail_syntax(s, p.1 - 1) {
                        Some(t) => Some(with_tail(PrefixSyntax::Minus(d.drop_last()), t)),
                        None => None,
                    }
                } else {
                    None
                },
                _ => None,
            },
        },
    }
}

pub open spec fn fits(d: Seq<char>) -> bool {
    digits_value(d) <= usize::MAX
}

pub open spec fn opt_fits(d: Option<Seq<char>>) -> bool {
    match d {
        Some(x) => fits(x),
        None => true,
    }
}

pub open spec fn opt_value(d: Option<Seq<char>>) -> Option<usize> {
    match d {
        Some(x) => Some(digits_value(x) as usize),
        None => None,
    }
}

/// The range that the literal `s` denotes, with lines counted from zero,
/// or the first fault met reading it from left to right.
pub open spec fn parse_range(s: Seq<char>) -> Result<Range, RangeParseError> {
    match range_syntax(s) {
        None => Err(RangeParseError::Malformed),
        Some(x) => {
            let offset_ok = match x.prefix {
                PrefixSyntax::Plus(d) => fits(d),
                PrefixSyntax::Minus(d) => fits(d),
                _ => true,
            };
            if !offset_ok || !fits(x.start) {
                Err(RangeParseError::NumberTooLarge)
            } else if digits_value(x.start) == 0 {
                Err(RangeParseError::ZeroLine)
            } else if !fits(x.end) {
                Err(RangeParseError::NumberTooLarge)
            } else if digits_value(x.end) == 0 {
                Err(RangeParseError::ZeroLine)
            } else if !opt_fits(x.start_col) || !opt_fits(x.end_col) {
                Err(RangeParseError::NumberTooLarge)
            } else {
                let r = Range {
                    inline: x.prefix is Inline,
                    indent_offset: match x.prefix {
                        PrefixSyntax::Plus(d) => Offset::Positive(digits_value(d) as usize),
                        PrefixSyntax::Minus(d) => Offset::Negative(digits_value(d) as usize),
                        _ => Offset::Zero,
                    },
                    start: (digits_value(x.start) - 1) as usize,
                    end: (digits_value(x.end) - 1) as usize,
                    start_col: opt_value(x.start_col),
                    end_col: opt_value(x.end_col),
                };
                if r.start > r.end || (r.start == r.end && r.start_col is Some && r.end_col is Some
                    && r.start_col->0 > r.end_col->0) {
                    Err(RangeParseError::StartAfterEnd)
                } else {
                    Ok(r)
                }
            }
        },
    }
}

fn skip_spaces_exec(s: &Vec<char>, i: usize) -> (r: usize)
    requires
        i <= s.len(),
    ensures
        r as int == skip_spaces(s@, i as int),
        i <= r <= s.len(),
{
    let mut j = i;
    while j < s.len() && s[j] == ' '
        invariant
            i <= j <= s.len(),
            skip_spaces(s@, i as int) == skip_spaces(s@, j as int),
        decreases s.len() - j,
    {
        j += 1;
    }
    j
}

fn skip_digits_exec(s: &Vec<char>, i: usize) -> (r: usize)
    requires
        i <= s.len(),
    ensures
        r as int == skip_digits(s@, i as int),
        i <= r <= s.len(),
        forall|k: int| i <= k < r ==> is_digit(#[trigger] s@[k]),
{
    let mut j = i;
    while j < s.len() && '0' <= s[j] && s[j] <= '9'
        invariant
            i <= j <= s.len(),
            skip_digits(s@, i as int) == skip_digits(s@, j as int),
            forall|k: int| i <= k < j ==> is_digit(#[trigger] s@[k]),
        decreases s.len() - j,
    {
        j += 1;
    }
    j
}

proof fn lemma_digits_mono(d: Seq<char>, i: int)
    requires
        0 <= i <= d.len(),
    ensures
        digits_value(d) >= digits_value(d.take(i)),
    decreases d.len(),
{
    if i < d.len() {
        assert(d.drop_last().take(i) =~= d.take(i));
        lemma_digits_mono(d.drop_last(), i);
    } else {
        assert(d.take(i) =~= d);
    }
}

/// The value of the digits `s[from..to]`, if it fits in a `usize`.
pub fn digits_value_exec(s: &Vec<char>, from: usize, to: usize) -> (r: Option<usize>)
    requires
        from <= to <= s.len(),
        forall|k: int| from <= k < to ==> is_digit(#[trigger] s@[k]),
    ensures
        match r {
            Some(v) => fits(s@.subrange(from as int, to as int)) && v as nat == digits_value(
                s@.subrange(from as int, to as int),
            ),
            None => !fits(s@.subrange(from as int, to as int)),
        },
{
    let ghost d = s@.subrange(from as int, to as int);
    let mut v: usize = 0;
    let mut k: usize = from;
    assert(d.take(0) =~= Seq::<char>::empty());
    while k < to
        invariant
            from <= k <= to <= s.len(),
            d == s@.subrange(from as int, to as int),
            forall|j: int| from <= j < to ==> is_digit(#[trigger] s@[j]),
            v as nat == digits_value(d.take(k - from)),
        decreases to - k,
    {
        let ghost t = d.take(k - from + 1);
        assert(t.drop_last() =~= d.take(k - from));
        assert(t.last() == s@[k as int]);
        let c = s[k];
        assert(is_digit(c));
        assert('0' as u32 <= c as u32);
        let digit = (c as u32 - '0' as u32) as usize;
        let next = match v.checked_mul(10) {
            Some(x) => x.checked_add(digit),
            None => None,
        };
        match next {
            Some(x) => {
                v = x;
            },
            None => {
                proof {
                    lemma_digits_mono(d, k - from + 1);
                }
                return None;
            },
        }
        k += 1;
    }
    assert(d.take(to - from) =~= d);
    Some(v)
}

fn prefix_exec(s: &Vec<char>, i: usize) -> (r: Option<(Option<(bool, usize, usize)>, bool, usize)>)
    requires
        i <= s.len(),
    ensures
        match prefix_syntax(s@, i as int) {
            None => r is None,
            Some(p) => r matches Some(x) && x.2 as int == p.1 && x.2 <= s.len() && match p.0 {
                PrefixSyntax::Absent => x.0 is None && !x.1,
                PrefixSyntax::Inline => x.0 is None && x.1,
                PrefixSyntax::Plus(d) => x.0 matches Some(y) && !x.1 && y.0 && y.2 == x.2 && d == s@.subrange(
                    y.1 as int,
                    y.2 as int,
                ) && y.1 < y.2 && forall|k: int| y.1 <= k < y.2 ==> is_digit(#[trigger] s@[k]),
                PrefixSyntax::Minus(d) => x.0 matches Some(y) && !x.1 && !y.0 && y.2 == x.2 && d == s@.subrange(
                    y.1 as int,
                    y.2 as int,
                ) && y.1 < y.2 && forall|k: int| y.1 <= k < y.2 ==> is_digit(#[trigger] s@[k]),
            },
        },
{
    if i < s.len() && s[i] == '_' {
        Some((None, true, i + 1))
    } else if i < s.len() && (s[i] == '+' || s[i] == '-') {
        let j = skip_digits_exec(s, i + 1);
        if j == i + 1 {
            None
        } else {
            Some((Some((s[i] == '+', i + 1, j)), false, j))
        }
    } else {
        Some((None, false, i))
    }
}

fn line_col_exec(s: &Vec<char>, i: usize) -> (r: Option<(usize, usize, Option<(usize, usize)>, usize)>)
    requires
        i <= s.len(),
    ensures
        match line_col(s@, i as int) {
            None => r is None,
            Some(p) => r matches Some(x) && x.0 == i && x.0 < x.1 && x.1 <= x.3 && x.3 as int == p.2 && x.3
                <= s.len() && p.0 == s@.subrange(x.0 as int, x.1 as int) && (forall|k: int|
                x.0 <= k < x.1 ==> is_digit(#[trigger] s@[k])) && match p.1 {
                None => x.2 is None,
                Some(c) => x.2 matches Some(y) && y.0 < y.1 <= s.len() && c == s@.subrange(
                    y.0 as int,
                    y.1 as int,
                ) && forall|k: int| y.0 <= k < y.1 ==> is_digit(#[trigger] s@[k]),
            },
        },
{
    let j = skip_digits_exec(s, i);
    if j == i {
        None
    } else if j < s.len() && s[j] == ':' {
        let k = skip_digits_exec(s, j + 1);
        if k == j + 1 {
            None
        } else {
            Some((i, j, Some((j + 1, k)), k))
        }
    } else {
        Some((i, j, None, j))
    }
}

pub open spec fn digit_run(s: Seq<char>, from: usize, to: usize) -> bool {
    &&& from < to <= s.len()
    &&& forall|k: int| from <= k < to ==> is_digit(#[trigger] s[k])
}

pub open spec fn opt_run_matches(s: Seq<char>, c: Option<Seq<char>>, x: Option<(usize, usize)>) -> bool {
    match c {
        None => x is None,
        Some(d) => match x {
            Some(y) => digit_run(s, y.0, y.1) && d == s.subrange(y.0 as int, y.1 as int),
            None => false,
        },
    }
}

/// Where the start and end lines and their columns lie, read from `i`.
fn tail_exec(s: &Vec<char>, i: usize) -> (r: Option<
    ((usize, usize, Option<(usize, usize)>), (usize, usize, Option<(usize, usize)>)),
>)
    requires
        i <= s.len(),
    ensures
        match tail_syntax(s@, i as int) {
            None => r is None,
            Some(t) => match r {
                Some(x) => digit_run(s@, (x.0).0, (x.0).1) && (t.0).0 == s@.subrange(
                    (x.0).0 as int,
                    (x.0).1 as int,
                ) && opt_run_matches(s@, (t.0).1, (x.0).2) && digit_run(s@, (x.1).0, (x.1).1)
                    && (t.1).0 == s@.subrange((x.1).0 as int, (x.1).1 as int) && opt_run_matches(
                    s@,
                    (t.1).1,
                    (x.1).2,
                ),
                None => false,
            },
        },
{
    let (a0, a1, a_col, a_next) = match line_col_exec(s, i) {
        None => {
            return None;
        },
        Some(x) => x,
    };
    let dash = skip_spaces_exec(s, a_next);
    if !(dash < s.len() && s[dash] == '-') {
        return None;
    }
    let i5 = skip_spaces_exec(s, dash + 1);
    let (b0, b1, b_col, b_next) = match line_col_exec(s, i5) {
        None => {
            return None;
        },
        Some(x) => x,
    };
    if skip_spaces_exec(s, b_next) != s.len() {
        return None;
    }
    Some(((a0, a1, a_col), (b0, b1, b_col)))
}

impl Range {
    /// Reads a range literal such as `3-7`, `+2 10:4-12`, or `_ 20-25`,
    /// with lines counted from one in the text and from zero in the result.
    pub fn parse_literal(text: &str) -> (r: Result<Range, RangeParseError>)
        ensures
            r == parse_range(text@),
    {
        let s = crate::text::chars_of(text);
        let i0 = skip_spaces_exec(&s, 0);
        let (offset_digits, inline, i1) = match prefix_exec(&s, i0) {
            None => {
                return Err(RangeParseError::Malformed);
            },
            Some(p) => p,
        };
        let i2 = skip_spaces_exec(&s, i1);
        let (offset_digits, tail) = match tail_exec(&s, i2) {
            Some(t) => (offset_digits, t),
            None => match offset_digits {
                Some((plus, from, to)) => if to - from >= 2 {
                    match tail_exec(&s, to - 1) {
                        Some(t) => {
                            assert(s@.subrange(from as int, to as int).drop_last() =~= s@.subrange(
                                from as int,
                                to - 1,
                            ));
                            (Some((plus, from, to - 1)), t)
                        },
                        None => {
                            return Err(RangeParseError::Malformed);
                        },
                    }
                } else {
                    return Err(RangeParseError::Malformed);
                },
                None => {
                    return Err(RangeParseError::Malformed);
                },
            },
        };
        let ((a0, a1, a_col), (b0, b1, b_col)) = tail;
        let indent_offset = match offset_digits {
            None => Offset::Zero,
            Some((plus, from, to)) => match digits_value_exec(&s, from, to) {
                None => {
                    return Err(RangeParseError::NumberTooLarge);
                },
                Some(v) => if plus {
                    Offset::Positive(v)
                } else {
                    Offset::Negative(v)
                },
            },
        };
        let start_line = match digits_value_exec(&s, a0, a1) {
            None => {
                return Err(RangeParseError::NumberTooLarge);
            },
            Some(v) => v,
        };
        if start_line == 0 {
            return Err(RangeParseError::ZeroLine);
        }
        let end_line = match digits_value_exec(&s, b0, b1) {
            None => {
                return Err(RangeParseError::NumberTooLarge);
            },
            Some(v) => v,
        };
        if end_line == 0 {
            return Err(RangeParseError::ZeroLine);
        }
        let start_col = match a_col {
            None => None,
            Some((from, to)) => match digits_value_exec(&s, from, to) {
                None => {
                    return Err(RangeParseError::NumberTooLarge);
                },
                Some(v) => Some(v),
            },
        };
        let end_col = match b_col {
            None => None,
            Some((from, to)) => match digits_value_exec(&s, from, to) {
                None => {
                    return Err(RangeParseError::NumberTooLarge);
                },
                Some(v) => Some(v),
            },
        };
        let r = Range {
            inline,
            indent_offset,
            start: start_line - 1,
            end: end_line - 1,
            start_col,
            end_col,
        };
        let backwards = match (start_col, end_col) {
            (Some(a), Some(b)) => r.start == r.end && a > b,
            _ => false,
        };
        if r.start > r.end || backwards {
            return Err(RangeParseError::StartAfterEnd);
        }
        Ok(r)
    }
}

impl std::str::FromStr for Range {
    type Err = RangeParseError;

    fn from_str(s: &str) -> Result<Range, RangeParseError> {
        Range::parse_literal(s)
    }
}

} // verus!
