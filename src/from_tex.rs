//! The options of a listing as written in a LaTeX document:
//! `key=value` pairs separated by commas, with braces around values that
//! hold commas, and the LaTeX that surrounds the listing.
use vstd::prelude::*;

use crate::range::{parse_range, Range, RangeParseError};
use crate::text::{append, append_str, chars_of, split_exec, split_on, string_of, trim, trim_exec, views};

verus! {

/// The state of the option reader.
pub struct OptState {
    pub args: Seq<(Seq<char>, Seq<char>)>,
    pub key: Seq<char>,
    pub cur: Seq<char>,
    pub depth: int,
    pub escaped: bool,
}

/// The reader after character `c`: `=` and `,` at brace depth zero end a
/// key and a pair, the outermost braces are dropped, and a backslash
/// escapes the brace after it.
pub open spec fn opt_step(s: OptState, c: char) -> OptState {
    if c == '=' && s.depth == 0 {
        OptState { key: s.cur, cur: Seq::empty(), ..s }
    } else if c == ',' && s.depth == 0 {
        OptState {
            args: s.args.push((trim(s.key), trim(s.cur))),
            key: Seq::empty(),
            cur: Seq::empty(),
            ..s
        }
    } else if c == '{' && !s.escaped {
        if s.depth + 1 == 1 {
            OptState { depth: s.depth + 1, ..s }
        } else {
            OptState { depth: s.depth + 1, cur: s.cur.push(c), escaped: false, ..s }
        }
    } else if c == '}' && !s.escaped {
        if s.depth - 1 == 0 {
            OptState { depth: s.depth - 1, ..s }
        } else {
            OptState { depth: s.depth - 1, cur: s.cur.push(c), escaped: false, ..s }
        }
    } else if c == '\\' {
        OptState { cur: s.cur.push(c), escaped: true, ..s }
    } else {
        OptState { cur: s.cur.push(c), escaped: false, ..s }
    }
}

pub open spec fn opt_run(raw: Seq<char>) -> OptState
    decreases raw.len(),
{
    if raw.len() == 0 {
        OptState {
            args: Seq::empty(),
            key: Seq::empty(),
            cur: Seq::empty(),
            depth: 0,
            escaped: false,
        }
    } else {
        opt_step(opt_run(raw.drop_last()), raw.last())
    }
}

/// The `key=value` pairs of `raw`, in order; a last pair without a comma
/// counts where both its key and its value are not blank.
pub open spec fn tex_options(raw: Seq<char>) -> Seq<(Seq<char>, Seq<char>)> {
    let s = opt_run(raw);
    if trim(s.key).len() > 0 && trim(s.cur).len() > 0 {
        s.args.push((trim(s.key), trim(s.cur)))
    } else {
        s.args
    }
}

pub open spec fn pair_views(v: Seq<(String, String)>) -> Seq<(Seq<char>, Seq<char>)> {
    v.map_values(|p: (String, String)| (p.0@, p.1@))
}

/// Reads the `key=value` pairs of a LaTeX option list.
pub fn parse_options(raw: &str) -> (r: Vec<(String, String)>)
    ensures
        pair_views(r@) == tex_options(raw@),
{
    let cs = chars_of(raw);
    let mut args: Vec<(String, String)> = Vec::new();
    let mut key: Vec<char> = Vec::new();
    let mut cur: Vec<char> = Vec::new();
    let mut opens: usize = 0;
    let mut closes: usize = 0;
    let mut escaped = false;
    let mut i: usize = 0;
    assert(cs@.take(0) =~= Seq::<char>::empty());
    assert(pair_views(args@) =~= Seq::<(Seq<char>, Seq<char>)>::empty());
    while i < cs.len()
        invariant
            i <= cs.len(),
            cs@ == raw@,
            opens <= i,
            closes <= i,
            opt_run(cs@.take(i as int)) == (OptState {
                args: pair_views(args@),
                key: key@,
                cur: cur@,
                depth: opens - closes,
                escaped,
            }),
        decreases cs.len() - i,
    {
        assert(cs@.take(i + 1).drop_last() =~= cs@.take(i as int));
        let c = cs[i];
        if c == '=' && opens == closes {
            key = cur;
            cur = Vec::new();
        } else if c == ',' && opens == closes {
            let k = trim_exec(&key);
            let v = trim_exec(&cur);
            let ghost before = pair_views(args@);
            args.push((string_of(&k), string_of(&v)));
            assert(pair_views(args@) =~= before.push((k@, v@)));
            key = Vec::new();
            cur = Vec::new();
        } else if c == '{' && !escaped {
            if opens != closes {
                cur.push(c);
                escaped = false;
            }
            opens += 1;
        } else if c == '}' && !escaped {
            if opens != closes + 1 {
                cur.push(c);
                escaped = false;
            }
            closes += 1;
        } else if c == '\\' {
            cur.push(c);
            escaped = true;
        } else {
            cur.push(c);
            escaped = false;
        }
        i += 1;
    }
    assert(cs@.take(cs.len() as int) =~= cs@);
    let k = trim_exec(&key);
    let v = trim_exec(&cur);
    if k.len() > 0 && v.len() > 0 {
        let ghost before = pair_views(args@);
        args.push((string_of(&k), string_of(&v)));
        assert(pair_views(args@) =~= before.push((k@, v@)));
    }
    args
}

/// The value of the last pair with key `k`.
pub open spec fn lookup(args: Seq<(Seq<char>, Seq<char>)>, k: Seq<char>) -> Option<Seq<char>>
    decreases args.len(),
{
    if args.len() == 0 {
        None
    } else if args.last().0 == k {
        Some(args.last().1)
    } else {
        lookup(args.drop_last(), k)
    }
}

pub open spec fn is_true(args: Seq<(Seq<char>, Seq<char>)>, k: Seq<char>) -> bool {
    lookup(args, k) == Some("true"@)
}

pub open spec fn opt_text(b: bool, s: Seq<char>) -> Seq<char> {
    if b {
        s
    } else {
        Seq::empty()
    }
}

/// The LaTeX that opens the float or wrapped float around a listing.
pub open spec fn float_prefix(args: Seq<(Seq<char>, Seq<char>)>) -> Seq<char> {
    (match lookup(args, "float"@) {
        Some(f) => "\\begin{listing}["@ + f + "]"@ + opt_text(is_true(args, "continued"@), "\\ContinuedFloat"@)
            + "\n"@,
        None => Seq::empty(),
    }) + (match lookup(args, "wrap"@) {
        Some(w) => "\\begin{wrapfloat}{listing}{"@ + w + "}{"@ + (match lookup(args, "wrap width"@) {
            Some(x) => x,
            None => "0.5\\textwidth"@,
        }) + "}\n\\vspace{-1\\baselineskip}\n"@,
        None => Seq::empty(),
    })
}

/// The LaTeX that closes the float around a listing, with its caption and label.
pub open spec fn float_suffix(args: Seq<(Seq<char>, Seq<char>)>) -> Seq<char> {
    if lookup(args, "float"@) is Some || lookup(args, "wrap"@) is Some {
        (match lookup(args, "caption"@) {
            Some(c) => "\n\\vspace{-1\\baselineskip}\\caption{"@ + c + opt_text(
                is_true(args, "continued"@),
                " (cont.)"@,
            ) + "}"@,
            None => Seq::empty(),
        }) + (match lookup(args, "label"@) {
            Some(l) => "\\label{"@ + l + "}"@,
            None => Seq::empty(),
        }) + opt_text(lookup(args, "wrap"@) is Some, "\n\\end{wrapfloat}"@) + opt_text(
            lookup(args, "float"@) is Some,
            "\n\\end{listing}"@,
        )
    } else {
        Seq::empty()
    }
}

/// The ranges of a comma-separated list, or the first fault.
pub open spec fn ranges_of(pieces: Seq<Seq<char>>) -> Result<Seq<Range>, RangeParseError>
    decreases pieces.len(),
{
    if pieces.len() == 0 {
        Ok(Seq::empty())
    } else {
        match ranges_of(pieces.drop_last()) {
            Err(e) => Err(e),
            Ok(rs) => match parse_range(pieces.last()) {
                Err(e) => Err(e),
                Ok(r) => Ok(rs.push(r)),
            },
        }
    }
}

/// A listing requested from a LaTeX document.
#[derive(Debug)]
pub struct TexListing {
    pub fancyvrb_args: String,
    /// The file holds ANSI escape sequences.
    pub ansi: bool,
    pub raw: bool,
    pub raw_queries: bool,
    pub ranges: Vec<Range>,
    /// A prefix to strip from the file name for the label.
    pub path_prefix: Option<String>,
    /// LaTeX to write before the listing.
    pub prefix: String,
    /// LaTeX to write after the listing.
    pub suffix: String,
}

fn lookup_exec(args: &Vec<(String, String)>, k: &str) -> (r: Option<String>)
    ensures
        match lookup(pair_views(args@), k@) {
            Some(v) => r matches Some(s) && s@ == v,
            None => r is None,
        },
{
    let ghost pv = pair_views(args@);
    let key = String::from_str(k);
    let mut j: usize = args.len();
    assert(pv.take(j as int) =~= pv);
    while j > 0
        invariant
            j <= args.len(),
            pv == pair_views(args@),
            key@ == k@,
            lookup(pv, k@) == lookup(pv.take(j as int), k@),
        decreases j,
    {
        assert(pv.take(j as int).drop_last() =~= pv.take(j - 1));
        if args[j - 1].0 == key {
            return Some(args[j - 1].1.clone());
        }
        j -= 1;
    }
    None
}

fn is_true_exec(args: &Vec<(String, String)>, k: &str) -> (r: bool)
    ensures
        r == is_true(pair_views(args@), k@),
{
    match lookup_exec(args, k) {
        Some(v) => v == String::from_str("true"),
        None => false,
    }
}

fn float_prefix_exec(args: &Vec<(String, String)>) -> (r: Vec<char>)
    ensures
        r@ == float_prefix(pair_views(args@)),
{
    let ghost pv = pair_views(args@);
    let mut out: Vec<char> = Vec::new();
    match lookup_exec(args, "float") {
        Some(f) => {
            append_str(&mut out, "\\begin{listing}[");
            append_str(&mut out, f.as_str());
            append_str(&mut out, "]");
            if is_true_exec(args, "continued") {
                append_str(&mut out, "\\ContinuedFloat");
            }
            append_str(&mut out, "\n");
        },
        None => {},
    }
    let mut wrapped: Vec<char> = Vec::new();
    match lookup_exec(args, "wrap") {
        Some(w) => {
            append_str(&mut wrapped, "\\begin{wrapfloat}{listing}{");
            append_str(&mut wrapped, w.as_str());
            append_str(&mut wrapped, "}{");
            match lookup_exec(args, "wrap width") {
                Some(x) => append_str(&mut wrapped, x.as_str()),
                None => append_str(&mut wrapped, "0.5\\textwidth"),
            }
            append_str(&mut wrapped, "}\n\\vspace{-1\\baselineskip}\n");
        },
        None => {},
    }
    append(&mut out, &wrapped);
    assert(out@ =~= float_prefix(pv));
    out
}

fn float_suffix_exec(args: &Vec<(String, String)>) -> (r: Vec<char>)
    ensures
        r@ == float_suffix(pair_views(args@)),
{
    let ghost pv = pair_views(args@);
    let float = lookup_exec(args, "float");
    let wrap = lookup_exec(args, "wrap");
    let mut out: Vec<char> = Vec::new();
    if float.is_none() && wrap.is_none() {
        return out;
    }
    let mut cap: Vec<char> = Vec::new();
    match lookup_exec(args, "caption") {
        Some(c) => {
            append_str(&mut cap, "\n\\vspace{-1\\baselineskip}\\caption{");
            append_str(&mut cap, c.as_str());
            if is_true_exec(args, "continued") {
                append_str(&mut cap, " (cont.)");
            }
            append_str(&mut cap, "}");
        },
        None => {},
    }
    let mut lab: Vec<char> = Vec::new();
    match lookup_exec(args, "label") {
        Some(l) => {
            append_str(&mut lab, "\\label{");
            append_str(&mut lab, l.as_str());
            append_str(&mut lab, "}");
        },
        None => {},
    }
    let mut ends: Vec<char> = Vec::new();
    if wrap.is_some() {
        append_str(&mut ends, "\n\\end{wrapfloat}");
    }
    let mut end_float: Vec<char> = Vec::new();
    if float.is_some() {
        append_str(&mut end_float, "\n\\end{listing}");
    }
    append(&mut out, &cap);
    append(&mut out, &lab);
    append(&mut out, &ends);
    append(&mut out, &end_float);
    assert(cap@ =~= (match lookup(pv, "caption"@) {
        Some(c) => "\n\\vspace{-1\\baselineskip}\\caption{"@ + c + opt_text(
            is_true(pv, "continued"@),
            " (cont.)"@,
        ) + "}"@,
        None => Seq::<char>::empty(),
    }));
    assert(ends@ =~= opt_text(lookup(pv, "wrap"@) is Some, "\n\\end{wrapfloat}"@));
    assert(end_float@ =~= opt_text(lookup(pv, "float"@) is Some, "\n\\end{listing}"@));
    out
}

/// Reads the options of a listing written in a LaTeX document: the
/// `fancyvrb` options, whether the file holds ANSI escape sequences, the
/// highlighting switches, the ranges, and the LaTeX around the listing.
pub fn run(raw_args: &str) -> (r: Result<TexListing, RangeParseError>)
    ensures
        ({
            let args = tex_options(raw_args@);
            let ranges = if is_true(args, "ansi"@) {
                Ok(Seq::<Range>::empty())
            } else {
                match lookup(args, "ranges"@) {
                    None => Ok(Seq::<Range>::empty()),
                    Some(v) => ranges_of(split_on(v, ',')),
                }
            };
            match ranges {
                Err(e) => r == Err::<TexListing, RangeParseError>(e),
                Ok(rs) => r matches Ok(t) && t.ranges@ == rs && t.ansi == is_true(args, "ansi"@)
                    && t.raw == (!t.ansi && is_true(args, "raw"@)) && t.raw_queries == (!t.ansi
                    && is_true(args, "raw queries"@)) && t.fancyvrb_args@ == match lookup(
                    args,
                    "fancyvrb"@,
                ) {
                    Some(v) => v,
                    None => Seq::empty(),
                } && match lookup(args, "path prefix"@) {
                    Some(p) => if t.ansi {
                        t.path_prefix is None
                    } else {
                        t.path_prefix matches Some(x) && x@ == p
                    },
                    None => t.path_prefix is None,
                } && t.prefix@ == float_prefix(args) && t.suffix@ == float_suffix(args),
            }
        }),
{
    let args = parse_options(raw_args);
    let fancyvrb_args = match lookup_exec(&args, "fancyvrb") {
        Some(v) => v,
        None => String::new(),
    };
    let ansi = is_true_exec(&args, "ansi");
    let mut ranges: Vec<Range> = Vec::new();
    let mut raw = false;
    let mut raw_queries = false;
    let mut path_prefix: Option<String> = None;
    if !ansi {
        raw = is_true_exec(&args, "raw");
        raw_queries = is_true_exec(&args, "raw queries");
        path_prefix = lookup_exec(&args, "path prefix");
        match lookup_exec(&args, "ranges") {
            None => {},
            Some(v) => {
                let vc = chars_of(v.as_str());
                let pieces = split_exec(&vc, ',');
                let ghost pv = views(pieces@);
                let mut k: usize = 0;
                assert(pv.take(0) =~= Seq::<Seq<char>>::empty());
                while k < pieces.len()
                    invariant
                        k <= pieces.len(),
                        pv == views(pieces@),
                        pv == split_on(v@, ','),
                        pair_views(args@) == tex_options(raw_args@),
                        lookup(pair_views(args@), "ranges"@) == Some(v@),
                        !is_true(pair_views(args@), "ansi"@),
                        ranges_of(pv.take(k as int)) == Ok::<Seq<Range>, RangeParseError>(ranges@),
                    decreases pieces.len() - k,
                {
                    assert(pv.take(k + 1).drop_last() =~= pv.take(k as int));
                    let piece = string_of(&pieces[k]);
                    match Range::parse_literal(piece.as_str()) {
                        Ok(r) => ranges.push(r),
                        Err(e) => {
                            assert(pv.take(k + 1).last() == pv[k as int]);
                            assert(pv[k as int] == pieces@[k as int]@);
                            assert(ranges_of(pv.take(k + 1)) == Err::<Seq<Range>, RangeParseError>(e));
                            proof {
                                lemma_ranges_err(pv, (k + 1) as nat);
                            }
                            return Err(e);
                        },
                    }
                    k += 1;
                }
                assert(pv.take(pieces.len() as int) =~= pv);
            },
        }
    }
    let prefix = string_of(&float_prefix_exec(&args));
    let suffix = string_of(&float_suffix_exec(&args));
    Ok(TexListing { fancyvrb_args, ansi, raw, raw_queries, ranges, path_prefix, prefix, suffix })
}

proof fn lemma_ranges_err(pieces: Seq<Seq<char>>, n: nat)
    requires
        n <= pieces.len(),
        ranges_of(pieces.take(n as int)) is Err,
    ensures
        ranges_of(pieces) == ranges_of(pieces.take(n as int)),
    decreases pieces.len() - n,
{
    if n < pieces.len() {
        assert(pieces.take(n + 1 as int).drop_last() =~= pieces.take(n as int));
        lemma_ranges_err(pieces, n + 1);
    } else {
        assert(pieces.take(n as int) =~= pieces);
    }
}

} // verus!
