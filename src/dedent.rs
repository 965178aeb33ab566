//! Removal of the indentation that all lines of a snippet share.
use vstd::prelude::*;

use crate::text::{
    append, join_lines, leading_spaces, leading_spaces_exec, lines_exec, lines_of, slice, spaces,
    trim_trailing_nl, trim_trailing_nl_exec, views,
};

verus! {

/// The smallest indentation of a non-empty line, if there is a non-empty line.
pub open spec fn min_indent(ls: Seq<Seq<char>>) -> Option<nat>
    decreases ls.len(),
{
    if ls.len() == 0 {
        None
    } else {
        let m = min_indent(ls.drop_last());
        let l = ls.last();
        if l.len() == 0 {
            m
        } else {
            match m {
                None => Some(leading_spaces(l)),
                Some(x) => Some(
                    if x <= leading_spaces(l) {
                        x
                    } else {
                        leading_spaces(l)
                    },
                ),
            }
        }
    }
}

/// How many columns are removed from every line: the smallest indentation of
/// a non-empty line, or zero.
pub open spec fn gobble(ls: Seq<Seq<char>>) -> nat {
    match min_indent(ls) {
        Some(g) => g,
        None => 0,
    }
}

/// `l` without its first `g` characters.
pub open spec fn drop_prefix(l: Seq<char>, g: nat) -> Seq<char> {
    if l.len() <= g {
        Seq::<char>::empty()
    } else {
        l.skip(g as int)
    }
}

/// The lines with their common indentation removed.
pub open spec fn dedent_lines(ls: Seq<Seq<char>>) -> Seq<Seq<char>> {
    let g = gobble(ls);
    if g > 0 {
        ls.map_values(|l: Seq<char>| drop_prefix(l, g))
    } else {
        ls
    }
}

/// The snippet `s` with its common indentation and trailing line feeds removed.
pub open spec fn dedent(s: Seq<char>) -> Seq<char> {
    let ls = lines_of(s);
    let t = if gobble(ls) > 0 {
        join_lines(dedent_lines(ls))
    } else {
        s
    };
    trim_trailing_nl(t)
}

/// `min_indent` is the least indentation of a non-empty line, and is absent
/// exactly when every line is empty.
pub proof fn lemma_min_indent(ls: Seq<Seq<char>>)
    ensures
        min_indent(ls) is None <==> (forall|i: int| 0 <= i < ls.len() ==> ls[i].len() == 0),
        min_indent(ls) is Some ==> (forall|i: int|
            0 <= i < ls.len() && ls[i].len() > 0 ==> min_indent(ls)->0 <= leading_spaces(
                #[trigger] ls[i],
            )),
        min_indent(ls) is Some ==> (exists|i: int|
            0 <= i < ls.len() && ls[i].len() > 0 && min_indent(ls)->0 == leading_spaces(
                #[trigger] ls[i],
            )),
    decreases ls.len(),
{
    if ls.len() > 0 {
        let p = ls.drop_last();
        lemma_min_indent(p);
        assert(forall|i: int| 0 <= i < p.len() ==> p[i] == ls[i]);
        let l = ls.last();
        if l.len() > 0 {
            assert(!(forall|i: int| 0 <= i < ls.len() ==> ls[i].len() == 0));
            if min_indent(p) is Some {
                let i0 = choose|i: int|
                    0 <= i < p.len() && p[i].len() > 0 && min_indent(p)->0 == leading_spaces(
                        #[trigger] p[i],
                    );
                assert(ls[i0] == p[i0]);
            } else {
                assert(ls[ls.len() - 1] == l);
            }
        } else {
            if min_indent(p) is Some {
                let i0 = choose|i: int|
                    0 <= i < p.len() && p[i].len() > 0 && min_indent(p)->0 == leading_spaces(
                        #[trigger] p[i],
                    );
                assert(ls[i0] == p[i0]);
            }
        }
    }
}

/// The first `leading_spaces(l)` characters of `l` are spaces.
pub proof fn lemma_leading(l: Seq<char>)
    ensures
        leading_spaces(l) <= l.len(),
        forall|k: int| 0 <= k < leading_spaces(l) ==> l[k] == ' ',
        leading_spaces(l) < l.len() ==> l[leading_spaces(l) as int] != ' ',
    decreases l.len(),
{
    if l.len() > 0 && l[0] == ' ' {
        lemma_leading(l.drop_first());
        assert forall|k: int| 0 <= k < leading_spaces(l) implies l[k] == ' ' by {
            if k > 0 {
                assert(l[k] == l.drop_first()[k - 1]);
            }
        }
    }
}

/// Every non-empty line loses exactly the smallest indentation of a
/// non-empty line, and what it loses is spaces.
pub proof fn lemma_dedent_strips_min_indent(ls: Seq<Seq<char>>)
    ensures
        dedent_lines(ls).len() == ls.len(),
        forall|i: int|
            0 <= i < ls.len() && ls[i].len() > 0 ==> #[trigger] ls[i] == spaces(gobble(ls))
                + dedent_lines(ls)[i],
        forall|i: int|
            0 <= i < ls.len() && ls[i].len() > 0 ==> gobble(ls) <= leading_spaces(#[trigger] ls[i]),
        (exists|i: int| 0 <= i < ls.len() && ls[i].len() > 0) ==> (exists|i: int|
            0 <= i < ls.len() && ls[i].len() > 0 && gobble(ls) == leading_spaces(#[trigger] ls[i])),
{
    lemma_min_indent(ls);
    let g = gobble(ls);
    assert forall|i: int| 0 <= i < ls.len() && ls[i].len() > 0 implies #[trigger] ls[i] == spaces(g)
        + dedent_lines(ls)[i] by {
        let l = ls[i];
        lemma_leading(l);
        if g > 0 {
            assert(l =~= spaces(g) + drop_prefix(l, g));
        } else {
            assert(l =~= spaces(g) + l);
        }
    }
}

/// Dedenting twice gives what dedenting once gives, unless the first pass
/// empties every least indented line while a longer line is left indented.
pub proof fn lemma_dedent_idempotent(ls: Seq<Seq<char>>)
    requires
        gobble(ls) == 0 || (exists|i: int|
            0 <= i < ls.len() && ls[i].len() > gobble(ls) && leading_spaces(#[trigger] ls[i])
                == gobble(ls)) || (forall|i: int| 0 <= i < ls.len() ==> ls[i].len() <= gobble(ls)),
    ensures
        dedent_lines(dedent_lines(ls)) == dedent_lines(ls),
{
    let g = gobble(ls);
    let d = dedent_lines(ls);
    lemma_min_indent(d);
    if g > 0 {
        if exists|i: int|
            0 <= i < ls.len() && ls[i].len() > g && leading_spaces(#[trigger] ls[i]) == g {
            let i = choose|i: int|
                0 <= i < ls.len() && ls[i].len() > g && leading_spaces(#[trigger] ls[i]) == g;
            let l = ls[i];
            lemma_leading(l);
            assert(d[i] == l.skip(g as int));
            assert(d[i][0] == l[g as int]);
            assert(leading_spaces(d[i]) == 0);
            assert(gobble(d) == 0);
        } else {
            assert forall|i: int| 0 <= i < d.len() implies d[i].len() == 0 by {
                assert(ls[i].len() <= g);
            }
            assert(gobble(d) == 0);
        }
    }
}

fn drop_prefix_exec(l: &Vec<char>, g: usize) -> (r: Vec<char>)
    ensures
        r@ == drop_prefix(l@, g as nat),
{
    if l.len() <= g {
        Vec::new()
    } else {
        slice(l, g, l.len())
    }
}

/// The snippet with its common indentation and trailing line feeds removed.
pub fn dedent_exec(code: Vec<char>) -> (r: Vec<char>)
    ensures
        r@ == dedent(code@),
{
    let ls = lines_exec(&code);
    let ghost lv = views(ls@);
    let mut m: Option<usize> = None;
    let mut j: usize = 0;
    assert(lv.take(0) =~= Seq::<Seq<char>>::empty());
    while j < ls.len()
        invariant
            j <= ls.len(),
            lv == views(ls@),
            match m {
                None => min_indent(lv.take(j as int)) is None,
                Some(x) => min_indent(lv.take(j as int)) == Some(x as nat),
            },
        decreases ls.len() - j,
    {
        assert(lv.take(j + 1).drop_last() =~= lv.take(j as int));
        assert(lv.take(j + 1).last() == ls@[j as int]@);
        if ls[j].len() > 0 {
            let lead = leading_spaces_exec(&ls[j]);
            m = match m {
                None => Some(lead),
                Some(x) => Some(if x <= lead { x } else { lead }),
            };
        }
        j += 1;
    }
    assert(lv.take(ls.len() as int) =~= lv);
    let g: usize = match m {
        Some(x) => x,
        None => 0,
    };
    let mut t = if g > 0 {
        let mut out: Vec<char> = Vec::new();
        let mut k: usize = 0;
        let ghost dl = lv.map_values(|l: Seq<char>| drop_prefix(l, g as nat));
        assert(dl.take(0) =~= Seq::<Seq<char>>::empty());
        while k < ls.len()
            invariant
                k <= ls.len(),
                lv == views(ls@),
                dl == lv.map_values(|l: Seq<char>| drop_prefix(l, g as nat)),
                out@ == join_lines(dl.take(k as int)),
            decreases ls.len() - k,
        {
            assert(dl.take(k + 1).drop_last() =~= dl.take(k as int));
            let piece = drop_prefix_exec(&ls[k], g);
            append(&mut out, &piece);
            out.push('\n');
            k += 1;
        }
        assert(dl.take(ls.len() as int) =~= dl);
        out
    } else {
        code
    };
    trim_trailing_nl_exec(&mut t);
    t
}

/// The lines with `k` more spaces in front of each non-empty one.
pub open spec fn indent_lines(ls: Seq<Seq<char>>, k: nat) -> Seq<Seq<char>> {
    ls.map_values(|l: Seq<char>| if l.len() > 0 { spaces(k) + l } else { l })
}

proof fn lemma_leading_shift(k: nat, l: Seq<char>)
    ensures
        leading_spaces(spaces(k) + l) == k + leading_spaces(l),
    decreases k,
{
    if k > 0 {
        assert((spaces(k) + l).drop_first() =~= spaces((k - 1) as nat) + l);
        lemma_leading_shift((k - 1) as nat, l);
    } else {
        assert(spaces(0) + l =~= l);
    }
}

proof fn lemma_min_indent_shift(ls: Seq<Seq<char>>, k: nat)
    ensures
        min_indent(indent_lines(ls, k)) == match min_indent(ls) {
            None => None,
            Some(g) => Some(g + k),
        },
    decreases ls.len(),
{
    if ls.len() > 0 {
        assert(indent_lines(ls, k).drop_last() =~= indent_lines(ls.drop_last(), k));
        lemma_min_indent_shift(ls.drop_last(), k);
        lemma_leading_shift(k, ls.last());
    }
}

/// Indenting every non-empty line by the same amount does not change what
/// dedenting gives.
pub proof fn lemma_dedent_ignores_indent(ls: Seq<Seq<char>>, k: nat)
    ensures
        dedent_lines(indent_lines(ls, k)) == dedent_lines(ls),
{
    let ls2 = indent_lines(ls, k);
    lemma_min_indent_shift(ls, k);
    lemma_min_indent(ls);
    let g = gobble(ls);
    if min_indent(ls) is None || g + k == 0 {
        assert(ls2 =~= ls) by {
            assert forall|i: int| 0 <= i < ls.len() implies ls2[i] == ls[i] by {
                if ls[i].len() > 0 {
                    assert(spaces(0) + ls[i] =~= ls[i]);
                }
            }
        }
    } else {
        assert forall|i: int| 0 <= i < ls.len() implies dedent_lines(ls2)[i] == dedent_lines(ls)[i] by {
            let l = ls[i];
            if l.len() > 0 {
                lemma_leading(l);
                assert(g <= leading_spaces(l));
                if l.len() > g {
                    assert((spaces(k) + l).skip((g + k) as int) =~= l.skip(g as int));
                    if g == 0 {
                        assert(l.skip(0) =~= l);
                    }
                }
            }
        }
        assert(dedent_lines(ls2) =~= dedent_lines(ls));
    }
}

} // verus!
