//! Rewriting of convenience predicates in highlight queries into the
//! predicates that the highlighting engine itself understands.
use vstd::prelude::*;

use crate::text::{append, append_str, chars_of, slice, string_of};

verus! {

/// An argument of a query predicate.
#[derive(Debug)]
pub enum PredicateArg {
    /// A capture, by its index among the query's capture names.
    Capture(u32),
    /// A string literal, without its quotes.
    Text(String),
}

/// A predicate of a pattern: its operator without the leading `#`, and its
/// arguments.
#[derive(Debug)]
pub struct Predicate {
    pub operator: String,
    pub args: Vec<PredicateArg>,
}

/// A pattern of a query: where it starts in the query source (in bytes) and
/// its predicates, in the order in which they are written.
#[derive(Debug)]
pub struct PatternInfo {
    pub start_byte: usize,
    pub predicates: Vec<Predicate>,
}

/// Why a query cannot be rewritten.
#[derive(Debug, Clone, Copy, PartialEq, Eq)]
pub enum PredicateError {
    /// A predicate has the wrong arguments, cannot be found in the source,
    /// or a pattern offset does not fall between two characters.
    InvalidQuery,
}

pub enum ArgView {
    Capture(u32),
    Text(Seq<char>),
}

impl View for PredicateArg {
    type V = ArgView;

    open spec fn view(&self) -> ArgView {
        match self {
            PredicateArg::Capture(n) => ArgView::Capture(*n),
            PredicateArg::Text(s) => ArgView::Text(s@),
        }
    }
}

pub open spec fn args_view(v: Seq<PredicateArg>) -> Seq<ArgView> {
    v.map_values(|a: PredicateArg| a@)
}

/// What becomes of a predicate.
pub enum Rewrite {
    /// It is left as written.
    Keep,
    /// Its arguments do not fit its operator.
    Bad,
    /// It becomes `#match?` with these arguments.
    Into(Seq<ArgView>),
}

/// `s` with every `%d` replaced by `\\d`.
pub open spec fn replace_pct_d(s: Seq<char>) -> Seq<char>
    decreases s.len(),
{
    if s.len() == 0 {
        s
    } else if s.len() >= 2 && s[0] == '%' && s[1] == 'd' {
        seq!['\\', '\\', 'd'] + replace_pct_d(s.skip(2))
    } else {
        seq![s[0]] + replace_pct_d(s.drop_first())
    }
}

pub open spec fn is_text(a: ArgView) -> bool {
    a is Text
}

pub open spec fn text_of(a: ArgView) -> Seq<char> {
    match a {
        ArgView::Text(s) => s,
        ArgView::Capture(_) => Seq::empty(),
    }
}

/// The string arguments joined by `|`.
pub open spec fn alternation(args: Seq<ArgView>) -> Seq<char>
    decreases args.len(),
{
    if args.len() == 0 {
        Seq::empty()
    } else if args.len() == 1 {
        text_of(args[0])
    } else {
        alternation(args.drop_last()) + seq!['|'] + text_of(args.last())
    }
}

/// How the predicate with operator `op` and arguments `args` is rewritten:
/// `lua-match?` turns `%d` into `\\d`, `any-of?` becomes one anchored
/// alternation, and `contains?` only changes its operator.
pub open spec fn rewrite(op: Seq<char>, args: Seq<ArgView>) -> Rewrite {
    if op == "lua-match?"@ {
        if args.len() >= 2 && is_text(args[1]) {
            Rewrite::Into(seq![args[0], ArgView::Text(replace_pct_d(text_of(args[1])))])
        } else {
            Rewrite::Bad
        }
    } else if op == "any-of?"@ {
        if args.len() >= 1 && forall|i: int| 1 <= i < args.len() ==> is_text(#[trigger] args[i]) {
            Rewrite::Into(
                seq![
                    args[0],
                    ArgView::Text(seq!['^', '('] + alternation(args.skip(1)) + seq![')', '$']),
                ],
            )
        } else {
            Rewrite::Bad
        }
    } else if op == "contains?"@ {
        if args.len() >= 2 {
            Rewrite::Into(seq![args[0], args[1]])
        } else {
            Rewrite::Bad
        }
    } else {
        Rewrite::Keep
    }
}

/// The arguments as written in a query, each followed by a space; `None`
/// where a capture index has no name.
pub open spec fn render_args(args: Seq<ArgView>, names: Seq<Seq<char>>) -> Option<Seq<char>>
    decreases args.len(),
{
    if args.len() == 0 {
        Some(Seq::empty())
    } else {
        match render_args(args.drop_last(), names) {
            None => None,
            Some(front) => match args.last() {
                ArgView::Capture(n) => if n < names.len() {
                    Some(front + seq!['@'] + names[n as int] + seq![' '])
                } else {
                    None
                },
                ArgView::Text(s) => Some(front + seq!['"'] + s + seq!['"', ' ']),
            },
        }
    }
}

/// First index at or after `i` where `pat` occurs in `q`.
pub open spec fn find_seq(q: Seq<char>, pat: Seq<char>, i: int) -> Option<int>
    decreases q.len() + 1 - i,
{
    if i < 0 || i + pat.len() > q.len() {
        None
    } else if q.subrange(i, i + pat.len()) == pat {
        Some(i)
    } else {
        find_seq(q, pat, i + 1)
    }
}

/// `q` with the text from the first `pat` at or after `cursor` up to the
/// next `)` replaced by `repl`, and the index just after `repl`.
pub open spec fn replace_in(q: Seq<char>, cursor: int, pat: Seq<char>, repl: Seq<char>) -> Option<
    (Seq<char>, int),
> {
    match find_seq(q, pat, cursor) {
        None => None,
        Some(pos) => match find_seq(q, seq![')'], pos + pat.len()) {
            None => None,
            Some(close) => Some((q.take(pos) + repl + q.skip(close), pos + repl.len())),
        },
    }
}

/// A predicate as its operator and arguments.
pub type PredView = (Seq<char>, Seq<ArgView>);

/// A pattern as its start byte and predicates.
pub type PatternView = (usize, Seq<PredView>);

pub open spec fn pred_view(p: Predicate) -> PredView {
    (p.operator@, args_view(p.args@))
}

pub open spec fn preds_view(ps: Seq<Predicate>) -> Seq<PredView> {
    ps.map_values(|p: Predicate| pred_view(p))
}

pub open spec fn patterns_view(ps: Seq<PatternInfo>) -> Seq<PatternView> {
    ps.map_values(|p: PatternInfo| (p.start_byte, preds_view(p.predicates@)))
}

pub open spec fn pred_op(p: Predicate) -> Seq<char> {
    p.operator@
}

pub open spec fn pred_args(p: Predicate) -> Seq<ArgView> {
    args_view(p.args@)
}

/// The text of one pattern after its first `n` predicates were rewritten,
/// with the index from which the next one is searched.
pub open spec fn rewrite_prefix(
    q: Seq<char>,
    preds: Seq<PredView>,
    names: Seq<Seq<char>>,
    n: nat,
) -> Option<(Seq<char>, int)>
    decreases n,
{
    if n == 0 {
        Some((q, 0))
    } else {
        match rewrite_prefix(q, preds, names, (n - 1) as nat) {
            None => None,
            Some(acc) => {
                let p = preds[n - 1];
                match rewrite(p.0, p.1) {
                    Rewrite::Keep => Some(acc),
                    Rewrite::Bad => None,
                    Rewrite::Into(args) => match render_args(args, names) {
                        None => None,
                        Some(a) => replace_in(
                            acc.0,
                            acc.1,
                            seq!['#'] + p.0,
                            "#match? "@ + a,
                        ),
                    },
                }
            },
        }
    }
}

/// The text of one pattern with all its predicates rewritten.
pub open spec fn rewrite_pattern(q: Seq<char>, preds: Seq<PredView>, names: Seq<Seq<char>>) -> Option<
    Seq<char>,
> {
    match rewrite_prefix(q, preds, names, preds.len()) {
        None => None,
        Some(r) => Some(r.0),
    }
}

fn replace_pct_d_exec(s: &Vec<char>) -> (r: Vec<char>)
    ensures
        r@ == replace_pct_d(s@),
{
    let mut out: Vec<char> = Vec::new();
    let mut i: usize = 0;
    assert(s@.skip(0) == s@);
    while i < s.len()
        invariant
            i <= s.len(),
            out@ + replace_pct_d(s@.skip(i as int)) == replace_pct_d(s@),
        decreases s.len() - i,
    {
        let ghost rest = s@.skip(i as int);
        if i + 1 < s.len() && s[i] == '%' && s[i + 1] == 'd' {
            out.push('\\');
            out.push('\\');
            out.push('d');
            assert(rest.skip(2) == s@.skip(i + 2));
            assert(out@ + replace_pct_d(s@.skip(i + 2)) == replace_pct_d(s@));
            i += 2;
        } else {
            out.push(s[i]);
            assert(rest.drop_first() == s@.skip(i + 1));
            assert(out@ + replace_pct_d(s@.skip(i + 1)) == replace_pct_d(s@));
            i += 1;
        }
    }
    assert(s@.skip(s.len() as int) == Seq::<char>::empty());
    assert(out@ + Seq::<char>::empty() == out@);
    out
}

fn clone_arg(a: &PredicateArg) -> (r: PredicateArg)
    ensures
        r@ == a@,
{
    match a {
        PredicateArg::Capture(n) => PredicateArg::Capture(*n),
        PredicateArg::Text(s) => PredicateArg::Text(s.clone()),
    }
}

/// The rewritten arguments of a predicate: `None` to keep it as it is,
/// `Some(None)` where its arguments do not fit its operator.
fn rewrite_exec(p: &Predicate) -> (r: Option<Option<Vec<PredicateArg>>>)
    ensures
        match rewrite(pred_op(*p), pred_args(*p)) {
            Rewrite::Keep => r is None,
            Rewrite::Bad => r == Some(None::<Vec<PredicateArg>>),
            Rewrite::Into(args) => r matches Some(Some(v)) && args_view(v@) == args,
        },
{
    let ghost av = pred_args(*p);
    let args = &p.args;
    if p.operator == String::from_str("lua-match?") {
        if args.len() >= 2 {
            match &args[1] {
                PredicateArg::Text(t) => {
                    let tc = chars_of(t.as_str());
                    let replaced = replace_pct_d_exec(&tc);
                    let v = vec![clone_arg(&args[0]), PredicateArg::Text(string_of(&replaced))];
                    assert(args_view(v@) =~= seq![av[0], ArgView::Text(replace_pct_d(text_of(av[1])))]);
                    Some(Some(v))
                },
                PredicateArg::Capture(_) => Some(None),
            }
        } else {
            Some(None)
        }
    } else if p.operator == String::from_str("any-of?") {
        if args.len() < 1 {
            return Some(None);
        }
        let mut alt: Vec<char> = Vec::new();
        let mut k: usize = 1;
        while k < args.len()
            invariant
                1 <= k <= args.len(),
                av == args_view(args@),
                av == pred_args(*p),
                pred_op(*p) == "any-of?"@,
                pred_op(*p) != "lua-match?"@,
                forall|i: int| 1 <= i < k ==> is_text(#[trigger] av[i]),
                alt@ == alternation(av.subrange(1, k as int)),
            decreases args.len() - k,
        {
            assert(av.subrange(1, k + 1).drop_last() =~= av.subrange(1, k as int));
            match &args[k] {
                PredicateArg::Text(t) => {
                    if k > 1 {
                        alt.push('|');
                    }
                    append_str(&mut alt, t.as_str());
                    assert(av[k as int] == args@[k as int]@);
                },
                PredicateArg::Capture(_) => {
                    assert(av[k as int] == args@[k as int]@);
                    assert(!is_text(av[k as int]));
                    assert(!(forall|i: int| 1 <= i < av.len() ==> is_text(#[trigger] av[i])));
                    return Some(None);
                },
            }
            k += 1;
        }
        assert(av.subrange(1, args.len() as int) =~= av.skip(1));
        let mut text: Vec<char> = vec!['^', '('];
        append(&mut text, &alt);
        text.push(')');
        text.push('$');
        assert(text@ =~= seq!['^', '('] + alternation(av.skip(1)) + seq![')', '$']);
        let v = vec![clone_arg(&args[0]), PredicateArg::Text(string_of(&text))];
        assert(args_view(v@) =~= seq![
            av[0],
            ArgView::Text(seq!['^', '('] + alternation(av.skip(1)) + seq![')', '$']),
        ]);
        Some(Some(v))
    } else if p.operator == String::from_str("contains?") {
        if args.len() >= 2 {
            let v = vec![clone_arg(&args[0]), clone_arg(&args[1])];
            assert(args_view(v@) =~= seq![av[0], av[1]]);
            Some(Some(v))
        } else {
            Some(None)
        }
    } else {
        None
    }
}

/// The arguments as written in a query, each followed by a space.
fn render_args_exec(args: &Vec<PredicateArg>, names: &Vec<String>) -> (r: Option<Vec<char>>)
    ensures
        match render_args(args_view(args@), names@.map_values(|s: String| s@)) {
            Some(t) => r matches Some(v) && v@ == t,
            None => r is None,
        },
{
    let ghost av = args_view(args@);
    let ghost nv = names@.map_values(|s: String| s@);
    let mut out: Vec<char> = Vec::new();
    let mut k: usize = 0;
    assert(av.take(0) =~= Seq::<ArgView>::empty());
    while k < args.len()
        invariant
            k <= args.len(),
            av == args_view(args@),
            nv == names@.map_values(|s: String| s@),
            render_args(av.take(k as int), nv) == Some(out@),
        decreases args.len() - k,
    {
        assert(av.take(k + 1).drop_last() =~= av.take(k as int));
        assert(av.take(k + 1).last() == args@[k as int]@);
        match &args[k] {
            PredicateArg::Capture(n) => {
                if (*n as usize) < names.len() {
                    out.push('@');
                    append_str(&mut out, names[*n as usize].as_str());
                    out.push(' ');
                } else {
                    proof {
                        lemma_render_none(av, nv, (k + 1) as nat);
                    }
                    return None;
                }
            },
            PredicateArg::Text(t) => {
                out.push('"');
                append_str(&mut out, t.as_str());
                out.push('"');
                out.push(' ');
            },
        }
        k += 1;
    }
    assert(av.take(args.len() as int) =~= av);
    Some(out)
}

proof fn lemma_render_none(args: Seq<ArgView>, names: Seq<Seq<char>>, n: nat)
    requires
        n <= args.len(),
        render_args(args.take(n as int), names) is None,
    ensures
        render_args(args, names) is None,
    decreases args.len() - n,
{
    if n < args.len() {
        assert(args.take(n + 1 as int).drop_last() =~= args.take(n as int));
        lemma_render_none(args, names, n + 1);
    } else {
        assert(args.take(n as int) =~= args);
    }
}

/// Whether `pat` occurs in `q` at index `i`.
fn occurs_at(q: &Vec<char>, pat: &Vec<char>, i: usize) -> (r: bool)
    requires
        i + pat.len() <= q.len(),
    ensures
        r == (q@.subrange(i as int, i + pat.len()) == pat@),
{
    let mut j: usize = 0;
    while j < pat.len()
        invariant
            i + pat.len() <= q.len(),
            j <= pat.len(),
            q@.subrange(i as int, i + j) == pat@.take(j as int),
        decreases pat.len() - j,
    {
        if q[i + j] != pat[j] {
            assert(q@.subrange(i as int, i + pat.len())[j as int] != pat@[j as int]);
            return false;
        }
        assert(q@.subrange(i as int, i + j + 1) =~= pat@.take(j + 1));
        j += 1;
    }
    assert(pat@.take(pat.len() as int) == pat@);
    true
}

/// First index at or after `from` where `pat` occurs in `q`.
pub fn find_seq_exec(q: &Vec<char>, pat: &Vec<char>, from: usize) -> (r: Option<usize>)
    ensures
        match find_seq(q@, pat@, from as int) {
            Some(i) => r == Some(i as usize),
            None => r is None,
        },
{
    let mut i: usize = from;
    while i <= q.len() && pat.len() <= q.len() - i
        invariant
            from <= i,
            find_seq(q@, pat@, from as int) == find_seq(q@, pat@, i as int),
        decreases q.len() + 1 - i,
    {
        if occurs_at(q, pat, i) {
            return Some(i);
        }
        assert(pat@.len() == 0 ==> q@.subrange(i as int, i as int) =~= pat@);
        i += 1;
    }
    None
}

/// `q` with the text from the first `pat` at or after `cursor` up to the
/// next `)` replaced by `repl`, and the index just after `repl`.
fn replace_in_exec(q: &Vec<char>, cursor: usize, pat: &Vec<char>, repl: &Vec<char>) -> (r: Option<
    (Vec<char>, usize),
>)
    ensures
        match replace_in(q@, cursor as int, pat@, repl@) {
            Some(t) => r matches Some(v) && v.0@ == t.0 && v.1 as int == t.1,
            None => r is None,
        },
{
    match find_seq_exec(q, pat, cursor) {
        None => None,
        Some(pos) => {
            proof {
                lemma_find_seq(q@, pat@, cursor as int);
            }
            assert(pos + pat.len() <= q.len());
            let close_paren = vec![')'];
            assert(close_paren@ =~= seq![')']);
            match find_seq_exec(q, &close_paren, pos + pat.len()) {
                None => None,
                Some(close) => {
                    proof {
                        lemma_find_seq(q@, close_paren@, pos + pat.len());
                    }
                    let mut out = slice(q, 0, pos);
                    append(&mut out, repl);
                    let tail = slice(q, close, q.len());
                    append(&mut out, &tail);
                    assert(out@ =~= q@.take(pos as int) + repl@ + q@.skip(close as int));
                    let total = out.len();
                    assert(total >= pos + repl@.len());
                    Some((out, pos + repl.len()))
                },
            }
        },
    }
}

pub proof fn lemma_find_seq(q: Seq<char>, pat: Seq<char>, i: int)
    ensures
        find_seq(q, pat, i) matches Some(j) ==> i <= j && j + pat.len() <= q.len(),
    decreases q.len() + 1 - i,
{
    if !(i < 0 || i + pat.len() > q.len()) && q.subrange(i, i + pat.len()) != pat {
        lemma_find_seq(q, pat, i + 1);
    }
}

pub proof fn lemma_rewrite_none(
    q: Seq<char>,
    preds: Seq<PredView>,
    names: Seq<Seq<char>>,
    n: nat,
    m: nat,
)
    requires
        n <= m,
        rewrite_prefix(q, preds, names, n) is None,
    ensures
        rewrite_prefix(q, preds, names, m) is None,
    decreases m - n,
{
    if m > n {
        lemma_rewrite_none(q, preds, names, n, (m - 1) as nat);
    }
}

pub open spec fn names_view(names: Seq<String>) -> Seq<Seq<char>> {
    names.map_values(|s: String| s@)
}

/// One pattern's text with all its predicates rewritten.
fn rewrite_pattern_exec(q: Vec<char>, preds: &Vec<Predicate>, names: &Vec<String>) -> (r: Option<
    Vec<char>,
>)
    ensures
        match rewrite_pattern(q@, preds_view(preds@), names_view(names@)) {
            Some(t) => r matches Some(v) && v@ == t,
            None => r is None,
        },
{
    let ghost q0 = q@;
    let ghost nv = names_view(names@);
    let ghost pv = preds_view(preds@);
    let mut text = q;
    let mut cursor: usize = 0;
    let mut n: usize = 0;
    while n < preds.len()
        invariant
            n <= preds.len(),
            nv == names_view(names@),
            q0 == q@,
            pv == preds_view(preds@),
            rewrite_prefix(q0, pv, nv, n as nat) == Some((text@, cursor as int)),
        decreases preds.len() - n,
    {
        let p = &preds[n];
        match rewrite_exec(p) {
            None => {},
            Some(None) => {
                proof {
                    lemma_rewrite_none(q0, pv, nv, (n + 1) as nat, preds.len() as nat);
                }
                return None;
            },
            Some(Some(args)) => {
                match render_args_exec(&args, names) {
                    None => {
                        proof {
                            lemma_rewrite_none(q0, pv, nv, (n + 1) as nat, preds.len() as nat);
                        }
                        return None;
                    },
                    Some(a) => {
                        let mut pat: Vec<char> = vec!['#'];
                        append_str(&mut pat, p.operator.as_str());
                        let mut repl = chars_of("#match? ");
                        append(&mut repl, &a);
                        assert(pat@ =~= seq!['#'] + pred_op(*p));
                        match replace_in_exec(&text, cursor, &pat, &repl) {
                            None => {
                                proof {
                                    lemma_rewrite_none(
                                        q0,
                                        pv,
                                        nv,
                                        (n + 1) as nat,
                                        preds.len() as nat,
                                    );
                                }
                                return None;
                            },
                            Some(next) => {
                                text = next.0;
                                cursor = next.1;
                            },
                        }
                    },
                }
            },
        }
        n += 1;
    }
    Some(text)
}

/// Bytes that UTF-8 takes for `c`.
pub open spec fn utf8_len(c: char) -> nat {
    if (c as u32) < 0x80 {
        1
    } else if (c as u32) < 0x800 {
        2
    } else if (c as u32) < 0x10000 {
        3
    } else {
        4
    }
}

/// Bytes that UTF-8 takes for `s`.
pub open spec fn byte_len(s: Seq<char>) -> nat
    decreases s.len(),
{
    if s.len() == 0 {
        0
    } else {
        byte_len(s.drop_last()) + utf8_len(s.last())
    }
}

/// The first character index at or after `i` that lies `b` bytes into `s`.
pub open spec fn index_from(s: Seq<char>, b: int, i: int) -> Option<int>
    decreases s.len() - i,
{
    if i < 0 || i > s.len() {
        None
    } else if byte_len(s.take(i)) == b {
        Some(i)
    } else if i == s.len() {
        None
    } else {
        index_from(s, b, i + 1)
    }
}

/// The character index that lies `b` bytes into `s`, if `b` falls between
/// two characters.
pub open spec fn char_index(s: Seq<char>, b: int) -> Option<int> {
    index_from(s, b, 0)
}

proof fn lemma_index_from_none(s: Seq<char>, b: int, i: int)
    requires
        0 <= i <= s.len(),
        byte_len(s.take(i)) > b,
    ensures
        index_from(s, b, i) is None,
    decreases s.len() - i,
{
    if i < s.len() {
        assert(s.take(i + 1).drop_last() =~= s.take(i));
        lemma_index_from_none(s, b, i + 1);
    }
}

pub proof fn lemma_index_from(s: Seq<char>, b: int, i: int)
    ensures
        index_from(s, b, i) matches Some(j) ==> i <= j <= s.len(),
    decreases s.len() - i,
{
    if 0 <= i < s.len() && byte_len(s.take(i)) != b {
        lemma_index_from(s, b, i + 1);
    }
}

fn utf8_len_exec(c: char) -> (r: usize)
    ensures
        r as nat == utf8_len(c),
{
    let v = c as u32;
    if v < 0x80 {
        1
    } else if v < 0x800 {
        2
    } else if v < 0x10000 {
        3
    } else {
        4
    }
}

/// The character index that lies `b` bytes into `s`.
pub fn char_index_exec(s: &Vec<char>, b: usize) -> (r: Option<usize>)
    ensures
        match char_index(s@, b as int) {
            Some(i) => r matches Some(j) && j as int == i && j <= s.len(),
            None => r is None,
        },
{
    let mut acc: usize = 0;
    let mut i: usize = 0;
    assert(s@.take(0) =~= Seq::<char>::empty());
    loop
        invariant
            i <= s.len(),
            acc <= b,
            acc as nat == byte_len(s@.take(i as int)),
            char_index(s@, b as int) == index_from(s@, b as int, i as int),
        decreases s.len() - i,
    {
        if acc == b {
            return Some(i);
        }
        if i == s.len() {
            return None;
        }
        let w = utf8_len_exec(s[i]);
        assert(s@.take(i + 1).drop_last() =~= s@.take(i as int));
        if w > b - acc {
            proof {
                lemma_index_from_none(s@, b as int, i + 1);
            }
            return None;
        }
        acc += w;
        i += 1;
    }
}

/// Start and end of pattern `i` as character indices.
pub open spec fn pattern_span(src: Seq<char>, pats: Seq<PatternView>, i: int) -> Option<(int, int)> {
    let lo = char_index(src, pats[i].0 as int);
    let hi = if i + 1 < pats.len() {
        char_index(src, pats[i + 1].0 as int)
    } else {
        Some(src.len() as int)
    };
    match (lo, hi) {
        (Some(a), Some(b)) => if a <= b {
            Some((a, b))
        } else {
            None
        },
        _ => None,
    }
}

/// The first `n` patterns of `src`, rewritten and joined.
pub open spec fn normalized_prefix(
    src: Seq<char>,
    pats: Seq<PatternView>,
    names: Seq<Seq<char>>,
    n: nat,
) -> Option<Seq<char>>
    decreases n,
{
    if n == 0 {
        Some(Seq::empty())
    } else {
        match normalized_prefix(src, pats, names, (n - 1) as nat) {
            None => None,
            Some(front) => match pattern_span(src, pats, n - 1) {
                None => None,
                Some(span) => match rewrite_pattern(
                    src.subrange(span.0, span.1),
                    pats[n - 1].1,
                    names,
                ) {
                    None => None,
                    Some(t) => Some(front + t),
                },
            },
        }
    }
}

/// The query `src` with the predicates of every pattern rewritten: each
/// pattern runs from its start to the next pattern's start, or to the end.
pub open spec fn normalized(src: Seq<char>, pats: Seq<PatternView>, names: Seq<Seq<char>>) -> Option<
    Seq<char>,
> {
    normalized_prefix(src, pats, names, pats.len())
}

proof fn lemma_normalized_none(
    src: Seq<char>,
    pats: Seq<PatternView>,
    names: Seq<Seq<char>>,
    n: nat,
    m: nat,
)
    requires
        n <= m,
        normalized_prefix(src, pats, names, n) is None,
    ensures
        normalized_prefix(src, pats, names, m) is None,
    decreases m - n,
{
    if m > n {
        lemma_normalized_none(src, pats, names, n, (m - 1) as nat);
    }
}

/// Rewrites the `lua-match?`, `any-of?` and `contains?` predicates of every
/// pattern of the query `source` into `match?` predicates, keeping the rest
/// of each pattern's text.
pub fn normalize_query(source: &str, patterns: &Vec<PatternInfo>, capture_names: &Vec<String>) -> (r:
    Result<String, PredicateError>)
    ensures
        match normalized(source@, patterns_view(patterns@), names_view(capture_names@)) {
            Some(t) => r matches Ok(s) && s@ == t,
            None => r == Err::<String, PredicateError>(PredicateError::InvalidQuery),
        },
{
    let src = chars_of(source);
    let ghost nv = names_view(capture_names@);
    let ghost pats = patterns_view(patterns@);
    let mut out: Vec<char> = Vec::new();
    let mut n: usize = 0;
    while n < patterns.len()
        invariant
            n <= patterns.len(),
            src@ == source@,
            nv == names_view(capture_names@),
            pats == patterns_view(patterns@),
            normalized_prefix(src@, pats, nv, n as nat) == Some(out@),
        decreases patterns.len() - n,
    {
        let lo = char_index_exec(&src, patterns[n].start_byte);
        let hi = if n + 1 < patterns.len() {
            char_index_exec(&src, patterns[n + 1].start_byte)
        } else {
            Some(src.len())
        };
        let span = match (lo, hi) {
            (Some(a), Some(b)) => if a <= b {
                Some((a, b))
            } else {
                None
            },
            _ => None,
        };
        proof {
            lemma_index_from(src@, patterns@[n as int].start_byte as int, 0);
            if n + 1 < patterns.len() {
                lemma_index_from(src@, patterns@[n + 1].start_byte as int, 0);
            }
        }
        match span {
            None => {
                assert(pattern_span(src@, pats, n as int) is None);
                proof {
                    lemma_normalized_none(src@, pats, nv, (n + 1) as nat, patterns.len() as nat);
                }
                return Err(PredicateError::InvalidQuery);
            },
            Some((a, b)) => {
                proof {
                    lemma_index_from(src@, patterns@[n as int].start_byte as int, 0);
                }
                let piece = slice(&src, a, b);
                match rewrite_pattern_exec(piece, &patterns[n].predicates, capture_names) {
                    None => {
                        proof {
                            lemma_normalized_none(
                                src@,
                                pats,
                                nv,
                                (n + 1) as nat,
                                patterns.len() as nat,
                            );
                        }
                        return Err(PredicateError::InvalidQuery);
                    },
                    Some(t) => {
                        append(&mut out, &t);
                    },
                }
            },
        }
        n += 1;
    }
    Ok(string_of(&out))
}

} // verus!
