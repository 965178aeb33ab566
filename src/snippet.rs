//! Assembly of one snippet out of several line ranges of a file, and the
//! dedenting that follows it.
use vstd::prelude::*;

use crate::range::{offset_value, Range};
use crate::text::{
    join_lines, append, append_str, leading_spaces, leading_spaces_exec, slice, spaces, spaces_exec,
    trim_start, trim_start_exec, views,
};
use crate::theme::CommentStyle;

verus! {

/// Why a list of ranges cannot be cut out of a file.
#[derive(Debug, Clone, Copy, PartialEq, Eq)]
pub enum SnippetError {
    /// A range ends before it starts, or reaches past the last line.
    LineOutOfBounds,
    /// A column lies past the end of its line, or after the end column.
    ColumnOutOfBounds,
    /// The indentation of an elision marker would be negative or too large.
    IndentOutOfRange,
}

/// The line comment token: the language's own, else `//`.
pub open spec fn line_comment(style: Option<&CommentStyle>) -> Seq<char> {
    match style {
        Some(s) => s.line@,
        None => "//"@,
    }
}

/// The token that opens a block comment: the language's own, else `/*`.
pub open spec fn block_open(style: Option<&CommentStyle>) -> Seq<char> {
    match style {
        Some(s) => s.block.0@,
        None => "/*"@,
    }
}

/// The token that closes a block comment: the language's own, else `*/`.
pub open spec fn block_close(style: Option<&CommentStyle>) -> Seq<char> {
    match style {
        Some(s) => s.block.1@,
        None => "*/"@,
    }
}

/// How many lines at the start of range `i` were already spliced into the
/// previous line: one for an inline range after the first, else none.
pub open spec fn skipped(ranges: Seq<Range>, i: int) -> int {
    if i > 0 && ranges[i].inline {
        1
    } else {
        0
    }
}

/// First column kept of line `k` of range `r`.
pub open spec fn col_lo(r: Range, k: int, off: int) -> int {
    if k == r.start && off == 0 {
        match r.start_col {
            Some(c) => c as int,
            None => 0,
        }
    } else {
        0
    }
}

/// Column after the last one kept of line `k` of range `r`.
pub open spec fn col_hi(lines: Seq<Seq<char>>, r: Range, k: int) -> int {
    if k == r.end {
        match r.end_col {
            Some(c) => c as int,
            None => lines[k].len() as int,
        }
    } else {
        lines[k].len() as int
    }
}

pub open spec fn cut_ok(lines: Seq<Seq<char>>, r: Range, k: int, off: int) -> bool {
    0 <= col_lo(r, k, off) <= col_hi(lines, r, k) <= lines[k].len()
}

/// What of line `k` a range keeps.
pub open spec fn cut(lines: Seq<Seq<char>>, r: Range, k: int, off: int) -> Seq<char> {
    lines[k].subrange(col_lo(r, k, off), col_hi(lines, r, k))
}

/// The `n` lines of range `r` from its line `start + off` on, each cut and
/// followed by a line feed.
pub open spec fn block(lines: Seq<Seq<char>>, r: Range, off: int, n: nat) -> Seq<char>
    decreases n,
{
    if n == 0 {
        Seq::<char>::empty()
    } else {
        block(lines, r, off, (n - 1) as nat) + cut(lines, r, r.start + off + n - 1, off).push(
            '\n',
        )
    }
}

/// The integers `lo..hi`.
pub open spec fn numbers(lo: int, hi: int) -> Seq<int> {
    Seq::new((hi - lo) as nat, |j: int| lo + j)
}

/// The first line of an inline range as spliced behind the elision comment.
pub open spec fn spliced(lines: Seq<Seq<char>>, r: Range) -> Seq<char> {
    match r.start_col {
        Some(c) => lines[r.start as int].skip(c as int),
        None => trim_start(lines[r.start as int]),
    }
}

/// Indentation of the elision line in front of range `i`: the larger
/// indentation of the line before and the line after it, moved by the offset.
pub open spec fn indent(lines: Seq<Seq<char>>, ranges: Seq<Range>, i: int) -> int {
    let a = leading_spaces(lines[ranges[i - 1].end as int]);
    let b = leading_spaces(lines[ranges[i].start as int]);
    offset_value(ranges[i].indent_offset) + if a >= b {
        a
    } else {
        b
    }
}

pub open spec fn columns_ok(lines: Seq<Seq<char>>, r: Range, off: int) -> bool {
    &&& (off == 0 ==> cut_ok(lines, r, r.start as int, off))
    &&& (r.end >= r.start + off ==> cut_ok(lines, r, r.end as int, off))
    &&& (off == 1 && r.start_col is Some ==> r.start_col->0 <= lines[r.start as int].len())
}

/// The first fault of range `i`, if it has one.
pub open spec fn range_error(lines: Seq<Seq<char>>, ranges: Seq<Range>, i: int) -> Option<
    SnippetError,
> {
    let r = ranges[i];
    if !(r.start <= r.end && r.end < lines.len()) {
        Some(SnippetError::LineOutOfBounds)
    } else if !columns_ok(lines, r, skipped(ranges, i)) {
        Some(SnippetError::ColumnOutOfBounds)
    } else if i > 0 && !r.inline && !(0 <= indent(lines, ranges, i) <= usize::MAX) {
        Some(SnippetError::IndentOutOfRange)
    } else {
        None
    }
}

/// Text and line numbers after range `i` was added to `code` and `nums`.
pub open spec fn step(
    lines: Seq<Seq<char>>,
    style: Option<&CommentStyle>,
    ranges: Seq<Range>,
    i: int,
    code: Seq<char>,
    nums: Seq<int>,
) -> (Seq<char>, Seq<int>) {
    let r = ranges[i];
    let own = numbers(r.start + skipped(ranges, i) + 1, r.end + 2);
    let body = block(lines, r, skipped(ranges, i), (r.end - r.start + 1 - skipped(ranges, i)) as nat);
    if i == 0 {
        (code + body, nums + own)
    } else if r.inline {
        (
            code.drop_last() + block_open(style) + " ... "@ + block_close(style) + spliced(
                lines,
                r,
            ).push('\n') + body,
            nums + own,
        )
    } else {
        (
            code + spaces(indent(lines, ranges, i) as nat) + line_comment(style) + " ...\n"@
                + body,
            nums.push(0) + own,
        )
    }
}

/// The snippet made of `ranges` of `lines`, with the file's number of each
/// of its lines (`0` for an elision line), or the first fault.
pub open spec fn assemble(
    lines: Seq<Seq<char>>,
    style: Option<&CommentStyle>,
    ranges: Seq<Range>,
) -> Result<(Seq<char>, Seq<int>), SnippetError>
    decreases ranges.len(),
{
    if ranges.len() == 0 {
        Ok((Seq::<char>::empty(), Seq::<int>::empty()))
    } else {
        match assemble(lines, style, ranges.drop_last()) {
            Err(e) => Err(e),
            Ok(acc) => match range_error(lines, ranges, ranges.len() - 1) {
                Some(e) => Err(e),
                None => Ok(step(lines, style, ranges, ranges.len() - 1, acc.0, acc.1)),
            },
        }
    }
}

pub open spec fn nums_view(v: Seq<usize>) -> Seq<int> {
    v.map_values(|x: usize| x as int)
}

pub proof fn lemma_block_len(lines: Seq<Seq<char>>, r: Range, off: int, n: nat)
    ensures
        block(lines, r, off, n).len() >= n,
    decreases n,
{
    if n > 0 {
        lemma_block_len(lines, r, off, (n - 1) as nat);
    }
}

/// A fault in a prefix of the ranges is the fault of them all.
pub proof fn lemma_assemble_err(
    lines: Seq<Seq<char>>,
    style: Option<&CommentStyle>,
    ranges: Seq<Range>,
    i: int,
)
    requires
        0 <= i <= ranges.len(),
        assemble(lines, style, ranges.take(i)) is Err,
    ensures
        assemble(lines, style, ranges) == assemble(lines, style, ranges.take(i)),
    decreases ranges.len() - i,
{
    if i < ranges.len() {
        assert(ranges.take(i + 1).drop_last() == ranges.take(i));
        lemma_assemble_err(lines, style, ranges, i + 1);
    } else {
        assert(ranges.take(i) == ranges);
    }
}

fn col_lo_exec(r: Range, k: usize, off: usize) -> (c: usize)
    ensures
        c as int == col_lo(r, k as int, off as int),
{
    if k == r.start && off == 0 {
        match r.start_col {
            Some(c) => c,
            None => 0,
        }
    } else {
        0
    }
}

fn col_hi_exec(lines: &Vec<Vec<char>>, r: Range, k: usize) -> (c: usize)
    requires
        k < lines.len(),
    ensures
        c as int == col_hi(views(lines@), r, k as int),
{
    if k == r.end {
        match r.end_col {
            Some(c) => c,
            None => lines[k].len(),
        }
    } else {
        lines[k].len()
    }
}

fn cut_ok_exec(lines: &Vec<Vec<char>>, r: Range, k: usize, off: usize) -> (b: bool)
    requires
        k < lines.len(),
    ensures
        b == cut_ok(views(lines@), r, k as int, off as int),
{
    let lo = col_lo_exec(r, k, off);
    let hi = col_hi_exec(lines, r, k);
    lo <= hi && hi <= lines[k].len()
}

fn columns_ok_exec(lines: &Vec<Vec<char>>, r: Range, off: usize) -> (b: bool)
    requires
        r.start <= r.end < lines.len(),
        off <= 1,
    ensures
        b == columns_ok(views(lines@), r, off as int),
{
    let first = off != 0 || cut_ok_exec(lines, r, r.start, off);
    let last = r.end < r.start + off || cut_ok_exec(lines, r, r.end, off);
    let spliced_ok = match r.start_col {
        Some(c) => off != 1 || c <= lines[r.start].len(),
        None => true,
    };
    first && last && spliced_ok
}

/// Appends the lines of range `r` from its line `start + off` on.
fn push_block(code: &mut Vec<char>, lines: &Vec<Vec<char>>, r: Range, off: usize)
    requires
        r.start <= r.end < lines.len(),
        off <= 1,
        r.start + off <= r.end + 1,
        columns_ok(views(lines@), r, off as int),
    ensures
        final(code)@ == old(code)@ + block(
            views(lines@),
            r,
            off as int,
            (r.end - r.start + 1 - off) as nat,
        ),
{
    let ghost ls = views(lines@);
    let n: usize = r.end - r.start + 1 - off;
    let mut j: usize = 0;
    while j < n
        invariant
            r.start <= r.end < lines.len(),
            off <= 1,
            n == r.end - r.start + 1 - off,
            columns_ok(ls, r, off as int),
            ls == views(lines@),
            j <= n,
            code@ == old(code)@ + block(ls, r, off as int, j as nat),
        decreases n - j,
    {
        let k: usize = r.start + off + j;
        let lo = col_lo_exec(r, k, off);
        let hi = col_hi_exec(lines, r, k);
        assert(ls[k as int] == lines@[k as int]@);
        assert(cut_ok(ls, r, k as int, off as int));
        let piece = slice(&lines[k], lo, hi);
        append(code, &piece);
        code.push('\n');
        j += 1;
        assert(code@ == old(code)@ + block(ls, r, off as int, j as nat));
    }
}

/// Appends the `n` integers that follow `base`.
fn push_numbers(nums: &mut Vec<usize>, base: usize, n: usize)
    requires
        base + n <= usize::MAX,
    ensures
        nums_view(final(nums)@) == nums_view(old(nums)@) + numbers(base + 1, base + n + 1),
{
    let mut j: usize = 0;
    while j < n
        invariant
            base + n <= usize::MAX,
            j <= n,
            nums_view(nums@) == nums_view(old(nums)@) + numbers(base + 1, base + j + 1),
        decreases n - j,
    {
        let ghost before = nums_view(nums@);
        nums.push(base + j + 1);
        assert(numbers(base + 1, base + j + 2) =~= numbers(base + 1, base + j + 1).push(
            base + j + 1,
        ));
        assert(nums_view(nums@) =~= before.push(base + j + 1));
        j += 1;
    }
}

/// Cuts `ranges` out of `lines` and joins them into one snippet, with an
/// elision line (or, for an inline range, an elision comment) between two
/// ranges; also gives the file's number of each line of the snippet.
pub fn assemble_exec(
    lines: &Vec<Vec<char>>,
    style: Option<&CommentStyle>,
    ranges: &Vec<Range>,
) -> (res: Result<(Vec<char>, Vec<usize>), SnippetError>)
    ensures
        match assemble(views(lines@), style, ranges@) {
            Ok(p) => match res {
                Ok(q) => q.0@ == p.0 && nums_view(q.1@) == p.1,
                Err(_) => false,
            },
            Err(e) => res == Err::<(Vec<char>, Vec<usize>), SnippetError>(e),
        },
{
    let ghost ls = views(lines@);
    let mut code: Vec<char> = Vec::new();
    let mut nums: Vec<usize> = Vec::new();
    let mut i: usize = 0;
    assert(ranges@.take(0) == Seq::<Range>::empty());
    assert(nums_view(nums@) =~= Seq::<int>::empty());
    while i < ranges.len()
        invariant
            i <= ranges.len(),
            ls == views(lines@),
            assemble(ls, style, ranges@.take(i as int)) == Ok::<(Seq<char>, Seq<int>), SnippetError>(
                (code@, nums_view(nums@)),
            ),
            i > 0 ==> code@.len() > 0,
            i > 0 ==> ranges@[i - 1].end < lines.len(),
        decreases ranges.len() - i,
    {
        let ghost rs = ranges@.take(i + 1);
        assert(rs.drop_last() == ranges@.take(i as int));
        assert(rs[i as int] == ranges@[i as int]);
        assert(i > 0 ==> rs[i - 1] == ranges@[i - 1]);
        let ghost old_code = code@;
        let ghost old_nums = nums_view(nums@);
        let r = ranges[i];
        if !(r.start <= r.end && r.end < lines.len()) {
            proof {
                lemma_assemble_err(ls, style, ranges@, i + 1);
            }
            return Err(SnippetError::LineOutOfBounds);
        }
        let off: usize = if i > 0 && r.inline { 1 } else { 0 };
        assert(off as int == skipped(rs, i as int));
        if !columns_ok_exec(lines, r, off) {
            proof {
                lemma_assemble_err(ls, style, ranges@, i + 1);
            }
            return Err(SnippetError::ColumnOutOfBounds);
        }
        if i == 0 {
            push_block(&mut code, lines, r, off);
        } else if r.inline {
            let open: &str = match style {
                Some(s) => s.block.0.as_str(),
                None => "/*",
            };
            let close: &str = match style {
                Some(s) => s.block.1.as_str(),
                None => "*/",
            };
            code.pop();
            append_str(&mut code, open);
            append_str(&mut code, " ... ");
            append_str(&mut code, close);
            let first = match r.start_col {
                Some(c) => slice(&lines[r.start], c, lines[r.start].len()),
                None => trim_start_exec(&lines[r.start]),
            };
            assert(ls[r.start as int] == lines@[r.start as int]@);
            append(&mut code, &first);
            code.push('\n');
            push_block(&mut code, lines, r, off);
        } else {
            let prev_end = ranges[i - 1].end;
            let a = leading_spaces_exec(&lines[prev_end]);
            let b = leading_spaces_exec(&lines[r.start]);
            assert(ls[prev_end as int] == lines@[prev_end as int]@);
            assert(ls[r.start as int] == lines@[r.start as int]@);
            let m = if a >= b { a } else { b };
            let width = match r.indent_offset.add(m) {
                Some(w) => w,
                None => {
                    proof {
                        lemma_assemble_err(ls, style, ranges@, i + 1);
                    }
                    return Err(SnippetError::IndentOutOfRange);
                },
            };
            let pad = spaces_exec(width);
            append(&mut code, &pad);
            let comment: &str = match style {
                Some(s) => s.line.as_str(),
                None => "//",
            };
            append_str(&mut code, comment);
            append_str(&mut code, " ...\n");
            let ghost n0 = nums_view(nums@);
            nums.push(0);
            assert(nums_view(nums@) =~= n0.push(0));
            push_block(&mut code, lines, r, off);
        }
        push_numbers(&mut nums, r.start + off, r.end - r.start + 1 - off);
        proof {
            lemma_block_len(ls, r, off as int, (r.end - r.start + 1 - off) as nat);
            reveal_strlit(" ...\n");
            assert(code@.len() > 0);
            assert(range_error(ls, rs, i as int) is None);
            let st = step(ls, style, rs, i as int, old_code, old_nums);
            assert(assemble(ls, style, rs) == Ok::<(Seq<char>, Seq<int>), SnippetError>(st));
            assert(st.0 == code@);
            assert(st.1 == nums_view(nums@));
        }
        i += 1;
    }
    assert(ranges@.take(ranges.len() as int) == ranges@);
    Ok((code, nums))
}

/// The line numbers of a snippet of ranges that are not inline: each
/// range's own lines, numbered from one, with a `0` for the elision line
/// before every range but the first.
pub open spec fn expected_numbers(ranges: Seq<Range>) -> Seq<int>
    decreases ranges.len(),
{
    if ranges.len() == 0 {
        Seq::empty()
    } else {
        let r = ranges.last();
        expected_numbers(ranges.drop_last()) + (if ranges.len() > 1 {
            seq![0int]
        } else {
            Seq::empty()
        }) + numbers(r.start + 1, r.end + 2)
    }
}

/// Where no range is inline, the snippet's line numbers are those of its
/// ranges in order, with a `0` for each elision line between two ranges.
pub proof fn lemma_assemble_numbers(
    lines: Seq<Seq<char>>,
    style: Option<&CommentStyle>,
    ranges: Seq<Range>,
)
    requires
        forall|i: int| 0 <= i < ranges.len() ==> !(#[trigger] ranges[i]).inline,
    ensures
        assemble(lines, style, ranges) matches Ok(p) ==> p.1 == expected_numbers(ranges),
    decreases ranges.len(),
{
    if ranges.len() > 0 {
        let front = ranges.drop_last();
        assert forall|i: int| 0 <= i < front.len() implies !(#[trigger] front[i]).inline by {
            assert(front[i] == ranges[i]);
        }
        lemma_assemble_numbers(lines, style, front);
        if ranges.len() > 1 {
            assert(!ranges[ranges.len() - 1].inline);
            match assemble(lines, style, front) {
                Ok(acc) => {
                    let r = ranges.last();
                    assert(acc.1.push(0) + numbers(r.start + 1, r.end + 2) =~= acc.1 + seq![0int]
                        + numbers(r.start + 1, r.end + 2));
                },
                Err(_) => {},
            }
        } else {
            match assemble(lines, style, front) {
                Ok(acc) => {
                    assert(front.len() == 0);
                    assert(acc.1 =~= Seq::<int>::empty());
                    let r = ranges.last();
                    assert(acc.1 + numbers(r.start + 1, r.end + 2) =~= expected_numbers(front)
                        + Seq::<int>::empty() + numbers(r.start + 1, r.end + 2));
                },
                Err(_) => {},
            }
        }
    }
}

/// The elision line in front of range `i`.
pub open spec fn elision_line(
    lines: Seq<Seq<char>>,
    style: Option<&CommentStyle>,
    ranges: Seq<Range>,
    i: int,
) -> Seq<char> {
    spaces(indent(lines, ranges, i) as nat) + line_comment(style) + " ..."@
}

/// The lines of a snippet of ranges that are neither inline nor cut at a
/// column: each range's lines of the file, with an elision line before
/// every range but the first.
pub open spec fn expected_lines(
    lines: Seq<Seq<char>>,
    style: Option<&CommentStyle>,
    ranges: Seq<Range>,
) -> Seq<Seq<char>>
    decreases ranges.len(),
{
    if ranges.len() == 0 {
        Seq::empty()
    } else {
        let r = ranges.last();
        expected_lines(lines, style, ranges.drop_last()) + (if ranges.len() > 1 {
            seq![elision_line(lines, style, ranges, ranges.len() - 1)]
        } else {
            Seq::empty()
        }) + lines.subrange(r.start as int, r.end + 1)
    }
}

pub open spec fn whole_lines(r: Range) -> bool {
    !r.inline && r.start_col is None && r.end_col is None
}

pub proof fn lemma_join_lines_add(a: Seq<Seq<char>>, b: Seq<Seq<char>>)
    ensures
        join_lines(a + b) == join_lines(a) + join_lines(b),
    decreases b.len(),
{
    if b.len() == 0 {
        assert(a + b =~= a);
        assert(join_lines(a) + Seq::<char>::empty() =~= join_lines(a));
    } else {
        assert((a + b).drop_last() =~= a + b.drop_last());
        lemma_join_lines_add(a, b.drop_last());
        assert(join_lines(a + b) =~= join_lines(a) + join_lines(b));
    }
}

proof fn lemma_block_whole(lines: Seq<Seq<char>>, r: Range, n: nat)
    requires
        whole_lines(r),
        r.start + n <= lines.len(),
    ensures
        block(lines, r, 0, n) == join_lines(lines.subrange(r.start as int, r.start + n)),
    decreases n,
{
    if n > 0 {
        lemma_block_whole(lines, r, (n - 1) as nat);
        let k = r.start + n - 1;
        assert(cut(lines, r, k, 0) =~= lines[k]);
        assert(lines.subrange(r.start as int, r.start + n).drop_last() =~= lines.subrange(
            r.start as int,
            r.start + n - 1,
        ));
    }
}

/// Where no range is inline or cut at a column, the snippet is the lines of
/// its ranges in order, with an elision line (indentation, line comment,
/// ` ...`) between two ranges; its line numbers run alongside, each line of
/// the file with its own number and each elision line with `0`.
pub proof fn lemma_assemble_layout(
    lines: Seq<Seq<char>>,
    style: Option<&CommentStyle>,
    ranges: Seq<Range>,
)
    requires
        forall|i: int| 0 <= i < ranges.len() ==> whole_lines(#[trigger] ranges[i]),
    ensures
        assemble(lines, style, ranges) matches Ok(p) ==> {
            &&& p.0 == join_lines(expected_lines(lines, style, ranges))
            &&& p.1 == expected_numbers(ranges)
            &&& p.1.len() == expected_lines(lines, style, ranges).len()
            &&& forall|k: int|
                0 <= k < p.1.len() ==> if #[trigger] p.1[k] == 0 {
                    exists|i: int|
                        0 < i < ranges.len() && expected_lines(lines, style, ranges)[k]
                            == #[trigger] elision_line(lines, style, ranges, i)
                } else {
                    1 <= p.1[k] <= lines.len() && expected_lines(lines, style, ranges)[k]
                        == lines[p.1[k] - 1]
                }
        },
    decreases ranges.len(),
{
    if ranges.len() > 0 {
        let front = ranges.drop_last();
        assert forall|i: int| 0 <= i < front.len() implies whole_lines(#[trigger] front[i]) by {
            assert(front[i] == ranges[i]);
        }
        lemma_assemble_layout(lines, style, front);
        lemma_assemble_numbers(lines, style, ranges);
        match assemble(lines, style, ranges) {
            Ok(p) => {
                let acc = assemble(lines, style, front)->Ok_0;
                let n = ranges.len() - 1;
                let r = ranges[n];
                assert(whole_lines(r));
                assert(range_error(lines, ranges, n) is None);
                let cnt = (r.end - r.start + 1) as nat;
                lemma_block_whole(lines, r, cnt);
                let own = lines.subrange(r.start as int, r.end + 1);
                assert(lines.subrange(r.start as int, r.start + cnt) == own);
                let el = if n > 0 {
                    seq![elision_line(lines, style, ranges, n)]
                } else {
                    Seq::<Seq<char>>::empty()
                };
                let fl = expected_lines(lines, style, front);
                assert(expected_lines(lines, style, ranges) == fl + el + own);
                lemma_join_lines_add(fl + el, own);
                lemma_join_lines_add(fl, el);
                if n > 0 {
                    assert(!r.inline);
                    reveal_strlit(" ...\n");
                    reveal_strlit(" ...");
                    assert(el.drop_last() =~= Seq::<Seq<char>>::empty());
                    assert(el.last() == elision_line(lines, style, ranges, n));
                    assert(el.len() == 1);
                    assert(join_lines(el) == join_lines(el.drop_last()) + el.last().push('\n'));
                    assert(join_lines(Seq::<Seq<char>>::empty()) == Seq::<char>::empty());
                    assert(join_lines(el) =~= elision_line(lines, style, ranges, n).push('\n'));
                    assert(spaces(indent(lines, ranges, n) as nat) + line_comment(style) + " ...\n"@
                        =~= elision_line(lines, style, ranges, n).push('\n'));
                    assert(p.0 =~= join_lines(fl) + join_lines(el) + join_lines(own));
                } else {
                    assert(fl =~= Seq::<Seq<char>>::empty());
                    assert(join_lines(el) =~= Seq::<char>::empty());
                    assert(p.0 =~= join_lines(fl) + join_lines(el) + join_lines(own));
                }
                assert(join_lines(expected_lines(lines, style, ranges)) == p.0);
                let ex = expected_lines(lines, style, ranges);
                let nums = numbers(r.start + 1, r.end + 2);
                let fe = expected_numbers(front);
                let ez = if n > 0 { seq![0int] } else { Seq::<int>::empty() };
                assert(expected_numbers(ranges) == fe + ez + nums);
                assert(fe.len() == fl.len());
                assert forall|k: int| 0 <= k < p.1.len() implies if #[trigger] p.1[k] == 0 {
                    exists|i: int|
                        0 < i < ranges.len() && ex[k] == #[trigger] elision_line(
                            lines,
                            style,
                            ranges,
                            i,
                        )
                } else {
                    1 <= p.1[k] <= lines.len() && ex[k] == lines[p.1[k] - 1]
                } by {
                    if k < fl.len() {
                        assert(p.1[k] == fe[k]);
                        assert(ex[k] == fl[k]);
                        if fe[k] == 0 {
                            let i0 = choose|i: int|
                                0 < i < front.len() && fl[k] == #[trigger] elision_line(
                                    lines,
                                    style,
                                    front,
                                    i,
                                );
                            assert(elision_line(lines, style, front, i0) == elision_line(
                                lines,
                                style,
                                ranges,
                                i0,
                            ));
                        }
                    } else if k < fl.len() + el.len() {
                        assert(p.1[k] == 0);
                        assert(ex[k] == elision_line(lines, style, ranges, n));
                    } else {
                        let j = k - fl.len() - el.len();
                        assert(p.1[k] == nums[j]);
                        assert(ex[k] == own[j]);
                    }
                }
            },
            Err(_) => {},
        }
    }
}

} // verus!
