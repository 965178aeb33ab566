//! Highlight styles, comment styles and the resolution of style aliases.
use vstd::prelude::*;

use crate::renderer::{styled, unstyled, Renderer};
use crate::text::{chars_of, join_nl, lines_exec, lines_of, slice, string_of, views};

verus! {

/// How comments are written in one language.
#[derive(Debug, Hash)]
pub struct CommentStyle {
    pub line: String,
    pub block: (String, String),
}

impl Clone for CommentStyle {
    fn clone(&self) -> (r: Self)
        ensures
            r.line@ == self.line@,
            r.block.0@ == self.block.0@,
            r.block.1@ == self.block.1@,
    {
        CommentStyle {
            line: self.line.clone(),
            block: (self.block.0.clone(), self.block.1.clone()),
        }
    }
}

} // verus!

verus! {

/// A highlight style: a bare color (a link where it starts with `$`), or
/// a color with text decorations and an optional link to another style.
#[derive(Debug, Hash)]
pub enum ThemeValue {
    Color(String),
    Object {
        color: Option<String>,
        underline: bool,
        strikethrough: bool,
        italic: bool,
        bold: bool,
        link: Option<String>,
    },
}

/// A `ThemeValue` with its strings seen as character sequences.
pub enum StyleView {
    Color(Seq<char>),
    Object {
        color: Option<Seq<char>>,
        underline: bool,
        strikethrough: bool,
        italic: bool,
        bold: bool,
        link: Option<Seq<char>>,
    },
}

pub open spec fn opt_view(o: Option<String>) -> Option<Seq<char>> {
    match o {
        Some(s) => Some(s@),
        None => None,
    }
}

impl View for ThemeValue {
    type V = StyleView;

    open spec fn view(&self) -> StyleView {
        match self {
            ThemeValue::Color(c) => StyleView::Color(c@),
            ThemeValue::Object { color, underline, strikethrough, italic, bold, link } =>
                StyleView::Object {
                color: opt_view(*color),
                underline: *underline,
                strikethrough: *strikethrough,
                italic: *italic,
                bold: *bold,
                link: opt_view(*link),
            },
        }
    }
}

fn clone_opt(o: &Option<String>) -> (r: Option<String>)
    ensures
        opt_view(r) == opt_view(*o),
{
    match o {
        Some(s) => Some(s.clone()),
        None => None,
    }
}

impl Clone for ThemeValue {
    fn clone(&self) -> (r: Self)
        ensures
            r@ == self@,
    {
        match self {
            ThemeValue::Color(c) => ThemeValue::Color(c.clone()),
            ThemeValue::Object { color, underline, strikethrough, italic, bold, link } =>
                ThemeValue::Object {
                color: clone_opt(color),
                underline: *underline,
                strikethrough: *strikethrough,
                italic: *italic,
                bold: *bold,
                link: clone_opt(link),
            },
        }
    }
}

/// The style `a` takes when it links to `b`: a bare color takes `b` whole;
/// an object keeps its own color if it has one, else takes `b`'s, gains
/// `b`'s decorations, and links on where `b` links.
pub open spec fn linked(a: StyleView, b: StyleView) -> StyleView {
    match a {
        StyleView::Color(_) => b,
        StyleView::Object { color, underline, strikethrough, italic, bold, link: _ } => match b {
            StyleView::Color(c) => StyleView::Object {
                color: match color {
                    Some(x) => Some(x),
                    None => Some(c),
                },
                underline,
                strikethrough,
                italic,
                bold,
                link: None,
            },
            StyleView::Object {
                color: bc,
                underline: bu,
                strikethrough: bs,
                italic: bi,
                bold: bb,
                link: bl,
            } => StyleView::Object {
                color: match color {
                    Some(x) => Some(x),
                    None => bc,
                },
                underline: underline || bu,
                strikethrough: strikethrough || bs,
                italic: italic || bi,
                bold: bold || bb,
                link: bl,
            },
        },
    }
}

/// The key a style links to, if it is a link.
pub open spec fn link_key(v: StyleView) -> Option<Seq<char>> {
    match v {
        StyleView::Color(c) => if c.len() > 0 && c[0] == '$' {
            Some(c.drop_first())
        } else {
            None
        },
        StyleView::Object { link, .. } => link,
    }
}

impl ThemeValue {
    /// This style linked to `other`.
    pub fn linked_to(&self, other: &Self) -> (r: Self)
        ensures
            r@ == linked(self@, other@),
    {
        match self {
            ThemeValue::Color(_) => other.clone(),
            ThemeValue::Object { color, underline, strikethrough, italic, bold, link: _ } =>
                match other {
                ThemeValue::Color(c) => ThemeValue::Object {
                    color: match color {
                        Some(x) => Some(x.clone()),
                        None => Some(c.clone()),
                    },
                    underline: *underline,
                    strikethrough: *strikethrough,
                    italic: *italic,
                    bold: *bold,
                    link: None,
                },
                ThemeValue::Object {
                    color: bc,
                    underline: bu,
                    strikethrough: bs,
                    italic: bi,
                    bold: bb,
                    link: bl,
                } => ThemeValue::Object {
                    color: match color {
                        Some(x) => Some(x.clone()),
                        None => clone_opt(bc),
                    },
                    underline: *underline || *bu,
                    strikethrough: *strikethrough || *bs,
                    italic: *italic || *bi,
                    bold: *bold || *bb,
                    link: clone_opt(bl),
                },
            },
        }
    }

    /// The key this style links to, if it is a link.
    pub fn link_key(&self) -> (r: Option<String>)
        ensures
            opt_view(r) == link_key(self@),
    {
        match self {
            ThemeValue::Color(c) => {
                let cs = chars_of(c.as_str());
                if cs.len() > 0 && cs[0] == '$' {
                    let rest = slice(&cs, 1, cs.len());
                    assert(rest@ == c@.drop_first());
                    Some(string_of(&rest))
                } else {
                    None
                }
            },
            ThemeValue::Object { link, .. } => clone_opt(link),
        }
    }
}

} // verus!

verus! {

/// Highlight styles by name, the 256 ANSI colors, and comment styles by file
/// extension. Where a name occurs twice, the first entry counts.
#[derive(Debug, Hash)]
pub struct Theme {
    pub highlights: Vec<(String, ThemeValue)>,
    pub ansi_colors: Vec<String>,
    pub comment_map: Vec<(String, CommentStyle)>,
}

/// `a` comes before `b` in the order of their code points.
pub open spec fn seq_lt(a: Seq<char>, b: Seq<char>) -> bool
    decreases a.len(),
{
    if a.len() == 0 {
        b.len() > 0
    } else if b.len() == 0 {
        false
    } else if a[0] != b[0] {
        (a[0] as u32) < (b[0] as u32)
    } else {
        seq_lt(a.drop_first(), b.drop_first())
    }
}

/// The keys are unique and ascending, as in an ordered map.
pub open spec fn keys_ascending(ks: Seq<Seq<char>>) -> bool {
    forall|i: int, j: int| 0 <= i < j < ks.len() ==> seq_lt(#[trigger] ks[i], #[trigger] ks[j])
}

/// The highlights and the comment styles are each keyed uniquely, in
/// ascending order of their names.
pub open spec fn theme_wf(t: Theme) -> bool {
    keys_ascending(key_views(t.highlights@)) && keys_ascending(key_views(t.comment_map@))
}

/// Why the styles of a theme cannot be resolved.
#[derive(Debug, PartialEq, Eq)]
pub enum ThemeError {
    /// A style links to a name that the theme does not have.
    UnknownLinkKey(String),
    /// Links still remain after as many rounds as there are styles.
    LinkCycle,
}

pub enum ThemeErrorView {
    UnknownLinkKey(Seq<char>),
    LinkCycle,
}

pub type Entries = Seq<(Seq<char>, StyleView)>;

pub open spec fn entries_view(v: Seq<(String, ThemeValue)>) -> Entries {
    v.map_values(|e: (String, ThemeValue)| (e.0@, e.1@))
}

pub open spec fn keys<V>(es: Seq<(Seq<char>, V)>) -> Seq<Seq<char>> {
    es.map_values(|e: (Seq<char>, V)| e.0)
}

/// Index of the first of `ks` at or after `i` that is `k`.
pub open spec fn find_from(ks: Seq<Seq<char>>, k: Seq<char>, i: int) -> Option<int>
    decreases ks.len() - i,
{
    if i < 0 || i >= ks.len() {
        None
    } else if ks[i] == k {
        Some(i)
    } else {
        find_from(ks, k, i + 1)
    }
}

/// Index of the first entry whose key is `k`.
pub open spec fn find_key<V>(es: Seq<(Seq<char>, V)>, k: Seq<char>) -> Option<int> {
    find_from(keys(es), k, 0)
}

pub proof fn lemma_find_from(ks: Seq<Seq<char>>, k: Seq<char>, i: int)
    requires
        0 <= i,
    ensures
        find_from(ks, k, i) matches Some(j) ==> i <= j < ks.len() && ks[j] == k,
        find_from(ks, k, i) is None ==> forall|j: int| i <= j < ks.len() ==> ks[j] != k,
    decreases ks.len() - i,
{
    if i < ks.len() {
        lemma_find_from(ks, k, i + 1);
    }
}

pub open spec fn key_views<V>(es: Seq<(String, V)>) -> Seq<Seq<char>> {
    es.map_values(|e: (String, V)| e.0@)
}

/// Index of the first entry whose key is `k`.
pub fn find_key_exec<V>(es: &Vec<(String, V)>, k: &String) -> (r: Option<usize>)
    ensures
        match r {
            Some(j) => find_from(key_views(es@), k@, 0) == Some(j as int),
            None => find_from(key_views(es@), k@, 0) is None,
        },
{
    let ghost ev = key_views(es@);
    let mut i: usize = 0;
    while i < es.len()
        invariant
            i <= es.len(),
            ev == key_views(es@),
            find_from(ev, k@, 0) == find_from(ev, k@, i as int),
        decreases es.len() - i,
    {
        if es[i].0 == *k {
            return Some(i);
        }
        i += 1;
    }
    None
}

} // verus!

verus! {

/// One line of text in style `v`; a style without a color drops the text.
pub open spec fn write_line(v: StyleView, r: Renderer, line: Seq<char>) -> Seq<char> {
    match v {
        StyleView::Color(c) => styled(r, line, c, false, false, false, false),
        StyleView::Object { color, underline, strikethrough, italic, bold, .. } => match color {
            Some(c) => styled(r, line, c, underline, strikethrough, italic, bold),
            None => Seq::empty(),
        },
    }
}

/// Text in style `v`: escaped, then styled line by line.
pub open spec fn write_text(v: StyleView, r: Renderer, text: Seq<char>) -> Seq<char> {
    join_nl(lines_of(unstyled(r, text)).map_values(|l: Seq<char>| write_line(v, r, l)))
}

impl ThemeValue {
    fn write_line_exec(&self, renderer: Renderer, out: &mut Vec<char>, line: &Vec<char>)
        ensures
            final(out)@ == old(out)@ + write_line(self@, renderer, line@),
    {
        match self {
            ThemeValue::Color(c) => renderer.styled(out, line, c.as_str(), false, false, false, false),
            ThemeValue::Object { color, underline, strikethrough, italic, bold, .. } => match color {
                Some(c) => renderer.styled(
                    out,
                    line,
                    c.as_str(),
                    *underline,
                    *strikethrough,
                    *italic,
                    *bold,
                ),
                None => {
                    assert(old(out)@ + Seq::<char>::empty() =~= old(out)@);
                },
            },
        }
    }

    /// Text in this style: escaped, then styled line by line.
    pub fn write_chars(&self, renderer: Renderer, text: &Vec<char>) -> (r: Vec<char>)
        ensures
            r@ == write_text(self@, renderer, text@),
    {
        let escaped = renderer.unstyled(text);
        let ls = lines_exec(&escaped);
        let ghost lv = views(ls@);
        let ghost wl = lv.map_values(|l: Seq<char>| write_line(self@, renderer, l));
        let mut out: Vec<char> = Vec::new();
        let mut k: usize = 0;
        assert(wl.take(0) =~= Seq::<Seq<char>>::empty());
        while k < ls.len()
            invariant
                k <= ls.len(),
                lv == views(ls@),
                wl == lv.map_values(|l: Seq<char>| write_line(self@, renderer, l)),
                out@ == join_nl(wl.take(k as int)),
            decreases ls.len() - k,
        {
            assert(wl.take(k + 1).drop_last() =~= wl.take(k as int));
            if k > 0 {
                out.push('\n');
            }
            let ghost before = out@;
            self.write_line_exec(renderer, &mut out, &ls[k]);
            assert(k == 0 ==> wl.take(k as int) =~= Seq::<Seq<char>>::empty());
            assert(k == 0 ==> before =~= Seq::<char>::empty());
            assert(wl.take(k + 1).last() == wl[k as int]);
            assert(k == 0 ==> out@ =~= wl.take(k + 1)[0]);
            k += 1;
        }
        assert(wl.take(ls.len() as int) =~= wl);
        out
    }

    /// Text in this style: escaped, then styled line by line.
    pub fn write(&self, renderer: Renderer, text: &str) -> (r: String)
        ensures
            r@ == write_text(self@, renderer, text@),
    {
        let cs = chars_of(text);
        let w = self.write_chars(renderer, &cs);
        string_of(&w)
    }
}

/// The length of the chain of links from entry `i` to a style that is no
/// link, following at most `fuel` links; `None` where a target is missing
/// or the chain is longer.
pub open spec fn depth(es: Entries, i: int, fuel: nat) -> Option<nat>
    decreases fuel,
{
    match link_key(es[i].1) {
        None => Some(0),
        Some(k) => match find_key(es, k) {
            None => None,
            Some(j) => if fuel == 0 {
                None
            } else {
                match depth(es, j, (fuel - 1) as nat) {
                    Some(d) => Some(d + 1),
                    None => None,
                }
            },
        },
    }
}

/// Every link leads to an existing style, and no chain of links returns to
/// where it started (no chain is longer than there are entries).
pub open spec fn acyclic(es: Entries) -> bool {
    forall|i: int| 0 <= i < es.len() ==> (#[trigger] depth(es, i, es.len())) is Some
}

proof fn lemma_depth_fuel(es: Entries, i: int, f: nat, g: nat)
    requires
        f <= g,
        depth(es, i, f) is Some,
    ensures
        depth(es, i, g) == depth(es, i, f),
        depth(es, i, f)->0 <= f,
    decreases f,
{
    match link_key(es[i].1) {
        None => {},
        Some(k) => {
            let j = find_key(es, k)->0;
            lemma_depth_fuel(es, j, (f - 1) as nat, (g - 1) as nat);
        },
    }
}

proof fn lemma_find_keys<V, W>(a: Seq<(Seq<char>, V)>, b: Seq<(Seq<char>, W)>, k: Seq<char>)
    requires
        keys(a) == keys(b),
    ensures
        find_key(a, k) == find_key(b, k),
{
}

/// The target of the first link among the first `n` entries that names no
/// entry.
pub open spec fn missing_from(es: Entries, n: nat) -> Option<Seq<char>>
    decreases n,
{
    if n == 0 {
        None
    } else {
        match missing_from(es, (n - 1) as nat) {
            Some(k) => Some(k),
            None => match link_key(es[n - 1].1) {
                Some(k) => if find_key(es, k) is None {
                    Some(k)
                } else {
                    None
                },
                None => None,
            },
        }
    }
}

/// The target of the first link that names no entry.
pub open spec fn missing_link(es: Entries) -> Option<Seq<char>> {
    missing_from(es, es.len())
}

/// Style `i` after one round: a link whose target is no link (any more) is
/// replaced by the style linked to that target; every other style stays.
pub open spec fn round_value(es: Entries, i: int) -> StyleView {
    match link_key(es[i].1) {
        None => es[i].1,
        Some(k) => match find_key(es, k) {
            None => es[i].1,
            Some(j) => if link_key(es[j].1) is Some {
                es[i].1
            } else {
                linked(es[i].1, es[j].1)
            },
        },
    }
}

/// All styles after one round.
pub open spec fn round(es: Entries) -> Entries {
    Seq::new(es.len(), |i: int| (es[i].0, round_value(es, i)))
}

pub open spec fn has_link(es: Entries) -> bool {
    exists|i: int| 0 <= i < es.len() && link_key(#[trigger] es[i].1) is Some
}

/// Rounds until no link is left, at most `fuel` of them.
pub open spec fn rounds(es: Entries, fuel: nat) -> Option<Entries>
    decreases fuel,
{
    if !has_link(es) {
        Some(es)
    } else if fuel == 0 {
        None
    } else {
        rounds(round(es), (fuel - 1) as nat)
    }
}

/// The resolved styles: an error names a missing target; links that remain
/// after as many rounds as there are styles form a cycle.
pub open spec fn resolve(es: Entries) -> Result<Entries, ThemeErrorView> {
    match missing_link(es) {
        Some(k) => Err(ThemeErrorView::UnknownLinkKey(k)),
        None => match rounds(es, es.len()) {
            Some(r) => Ok(r),
            None => Err(ThemeErrorView::LinkCycle),
        },
    }
}

/// `new` is `old` resolved: every style that was no link is kept, and every
/// link is replaced by its style linked to the resolved style of its target.
pub open spec fn resolved_from(old: Entries, new: Entries) -> bool {
    &&& new.len() == old.len()
    &&& forall|i: int|
        0 <= i < old.len() ==> #[trigger] new[i].0 == old[i].0 && match link_key(old[i].1) {
            None => new[i].1 == old[i].1,
            Some(k) => find_key(old, k) matches Some(j) && new[i].1 == linked(old[i].1, new[j].1),
        }
}

pub open spec fn dollar(c: Seq<char>) -> bool {
    c.len() > 0 && c[0] == '$'
}

/// No style object has a color that starts with `$`.
pub open spec fn no_dollar_colors(es: Entries) -> bool {
    forall|i: int|
        0 <= i < es.len() ==> match #[trigger] es[i].1 {
            StyleView::Object { color: Some(c), .. } => !dollar(c),
            _ => true,
        }
}

/// Style `i`, a link in `es0`, took the style of its target in `es`, which
/// is no link.
pub open spec fn merged(es0: Entries, es: Entries, i: int) -> bool {
    match find_key(es0, link_key(es0[i].1)->0) {
        Some(j) => link_key(es[j].1) is None && es[i].1 == linked(es0[i].1, es[j].1),
        None => false,
    }
}

/// What holds of the styles `es` after some rounds from `es0`.
pub open spec fn round_inv(es0: Entries, es: Entries) -> bool {
    &&& es.len() == es0.len()
    &&& keys(es) == keys(es0)
    &&& forall|i: int| 0 <= i < es.len() ==> #[trigger] es[i].0 == es0[i].0
    &&& forall|i: int|
        0 <= i < es.len() && link_key(#[trigger] es[i].1) is Some ==> es[i].1 == es0[i].1
    &&& forall|i: int|
        0 <= i < es.len() && link_key(#[trigger] es0[i].1) is None ==> es[i].1 == es0[i].1
    &&& forall|i: int|
        0 <= i < es.len() && link_key(#[trigger] es0[i].1) is Some && link_key(es[i].1) is None
            ==> merged(es0, es, i)
    &&& no_dollar_colors(es0) ==> no_dollar_colors(es)
}

proof fn lemma_missing_none(es: Entries, n: nat, i: int)
    requires
        n <= es.len(),
        missing_from(es, n) is None,
        0 <= i < n,
        link_key(es[i].1) is Some,
    ensures
        find_key(es, link_key(es[i].1)->0) is Some,
    decreases n,
{
    if i < n - 1 {
        lemma_missing_none(es, (n - 1) as nat, i);
    }
}

proof fn lemma_missing_some(es: Entries, n: nat, m: nat)
    requires
        n <= m,
        missing_from(es, n) is Some,
    ensures
        missing_from(es, m) == missing_from(es, n),
    decreases m - n,
{
    if m > n {
        lemma_missing_some(es, n, (m - 1) as nat);
    }
}

proof fn lemma_linked_no_link(v: StyleView, t: StyleView)
    requires
        link_key(t) is None,
    ensures
        link_key(linked(v, t)) is None,
{
}

proof fn lemma_round_inv(es0: Entries, es: Entries)
    requires
        missing_link(es0) is None,
        round_inv(es0, es),
    ensures
        round_inv(es0, round(es)),
{
    let nx = round(es);
    assert(keys(nx) =~= keys(es0)) by {
        assert forall|i: int| 0 <= i < nx.len() implies keys(nx)[i] == keys(es0)[i] by {
            assert(nx[i].0 == es[i].0);
        }
    }
    assert(keys(es) == keys(es0));
    assert forall|i: int| 0 <= i < nx.len() && link_key(#[trigger] es0[i].1) is Some && link_key(
        nx[i].1,
    ) is None implies merged(es0, nx, i) by {
        let k = link_key(es0[i].1)->0;
        lemma_missing_none(es0, es0.len(), i);
        lemma_find_from(keys(es0), k, 0);
        let j = find_key(es0, k)->0;
        assert(find_key(es, k) == find_key(es0, k));
        if link_key(es[i].1) is Some {
            assert(es[i].1 == es0[i].1);
            assert(link_key(es[j].1) is None);
            assert(nx[j].1 == es[j].1);
        } else {
            assert(nx[i].1 == es[i].1);
            assert(nx[j].1 == es[j].1);
        }
    }
    assert forall|i: int| 0 <= i < nx.len() && link_key(#[trigger] nx[i].1) is Some implies nx[i].1
        == es0[i].1 by {
        if link_key(es[i].1) is Some {
            let k = link_key(es[i].1)->0;
            match find_key(es, k) {
                Some(j) => if link_key(es[j].1) is None {
                    lemma_linked_no_link(es[i].1, es[j].1);
                },
                None => {},
            }
        }
    }
    if no_dollar_colors(es0) {
        assert forall|i: int| 0 <= i < nx.len() implies match #[trigger] nx[i].1 {
            StyleView::Object { color: Some(c), .. } => !dollar(c),
            _ => true,
        } by {
            assert(match es[i].1 {
                StyleView::Object { color: Some(c), .. } => !dollar(c),
                _ => true,
            });
            if link_key(es[i].1) is Some {
                let k = link_key(es[i].1)->0;
                match find_key(es, k) {
                    Some(j) => {
                        lemma_find_from(keys(es), k, 0);
                        assert(match es[j].1 {
                            StyleView::Object { color: Some(c), .. } => !dollar(c),
                            _ => true,
                        });
                        assert(es[i].1 == es0[i].1);
                        assert(match es0[i].1 {
                            StyleView::Object { color: Some(c), .. } => !dollar(c),
                            _ => true,
                        });
                    },
                    None => {},
                }
            }
        }
    }
}

proof fn lemma_rounds_inv(es0: Entries, es: Entries, fuel: nat)
    requires
        missing_link(es0) is None,
        round_inv(es0, es),
    ensures
        rounds(es, fuel) matches Some(r) ==> round_inv(es0, r) && !has_link(r),
    decreases fuel,
{
    if has_link(es) && fuel > 0 {
        lemma_round_inv(es0, es);
        lemma_rounds_inv(es0, round(es), (fuel - 1) as nat);
    }
}

/// Once no link is left, the styles are `es0` resolved.
proof fn lemma_inv_resolved(es0: Entries, es: Entries)
    requires
        round_inv(es0, es),
        !has_link(es),
    ensures
        resolved_from(es0, es),
{
    assert forall|i: int| 0 <= i < es0.len() implies #[trigger] es[i].0 == es0[i].0 && match link_key(
        es0[i].1,
    ) {
        None => es[i].1 == es0[i].1,
        Some(k) => find_key(es0, k) matches Some(j) && es[i].1 == linked(es0[i].1, es[j].1),
    } by {
        assert(link_key(es[i].1) is None);
    }
}

/// Every link of the resolved styles' starting point is resolved, and no
/// link remains.
pub proof fn lemma_resolve_result(es0: Entries)
    ensures
        resolve(es0) matches Ok(r) ==> resolved_from(es0, r) && !has_link(r) && (no_dollar_colors(
            es0,
        ) ==> no_dollar_colors(r)),
{
    if missing_link(es0) is None {
        assert(round_inv(es0, es0));
        lemma_rounds_inv(es0, es0, es0.len());
        match rounds(es0, es0.len()) {
            Some(r) => lemma_inv_resolved(es0, r),
            None => {},
        }
    }
}

fn clone_entries(v: &Vec<(String, ThemeValue)>) -> (r: Vec<(String, ThemeValue)>)
    ensures
        entries_view(r@) == entries_view(v@),
{
    let mut out: Vec<(String, ThemeValue)> = Vec::new();
    let mut i: usize = 0;
    while i < v.len()
        invariant
            i <= v.len(),
            entries_view(out@) == entries_view(v@).take(i as int),
        decreases v.len() - i,
    {
        let ghost before = entries_view(out@);
        out.push((v[i].0.clone(), v[i].1.clone()));
        assert(entries_view(out@) =~= before.push((v@[i as int].0@, v@[i as int].1@)));
        assert(entries_view(v@).take(i + 1) =~= entries_view(v@).take(i as int).push(
            entries_view(v@)[i as int],
        ));
        i += 1;
    }
    assert(entries_view(v@).take(v.len() as int) =~= entries_view(v@));
    out
}

fn has_link_exec(v: &Vec<(String, ThemeValue)>) -> (r: bool)
    ensures
        r == has_link(entries_view(v@)),
{
    let ghost ev = entries_view(v@);
    let mut i: usize = 0;
    while i < v.len()
        invariant
            i <= v.len(),
            ev == entries_view(v@),
            forall|j: int| 0 <= j < i ==> link_key(#[trigger] ev[j].1) is None,
        decreases v.len() - i,
    {
        assert(ev[i as int].1 == v@[i as int].1@);
        if v[i].1.link_key().is_some() {
            return true;
        }
        i += 1;
    }
    false
}

/// The target of the first link that names no entry.
fn missing_link_exec(v: &Vec<(String, ThemeValue)>) -> (r: Option<String>)
    ensures
        match missing_link(entries_view(v@)) {
            Some(k) => r matches Some(s) && s@ == k,
            None => r is None,
        },
{
    let ghost ev = entries_view(v@);
    let mut i: usize = 0;
    while i < v.len()
        invariant
            i <= v.len(),
            ev == entries_view(v@),
            missing_from(ev, i as nat) is None,
        decreases v.len() - i,
    {
        assert(ev[i as int].1 == v@[i as int].1@);
        match v[i].1.link_key() {
            Some(k) => {
                let found = find_key_exec(v, &k);
                assert(keys(ev) =~= key_views(v@));
                if found.is_none() {
                    proof {
                        lemma_missing_some(ev, (i + 1) as nat, ev.len());
                    }
                    return Some(k);
                }
            },
            None => {},
        }
        i += 1;
    }
    None
}

/// All styles after one round.
fn round_exec(v: &Vec<(String, ThemeValue)>) -> (r: Vec<(String, ThemeValue)>)
    ensures
        entries_view(r@) == round(entries_view(v@)),
{
    let ghost ev = entries_view(v@);
    let mut out: Vec<(String, ThemeValue)> = Vec::new();
    let mut i: usize = 0;
    while i < v.len()
        invariant
            i <= v.len(),
            ev == entries_view(v@),
            entries_view(out@) == round(ev).take(i as int),
        decreases v.len() - i,
    {
        let value = &v[i].1;
        assert(ev[i as int] == (v@[i as int].0@, value@));
        assert(keys(ev) =~= key_views(v@));
        let next = match value.link_key() {
            None => value.clone(),
            Some(k) => match find_key_exec(v, &k) {
                None => value.clone(),
                Some(j) => {
                    proof {
                        lemma_find_from(keys(ev), k@, 0);
                    }
                    assert(ev[j as int].1 == v@[j as int].1@);
                    if v[j].1.link_key().is_some() {
                        value.clone()
                    } else {
                        value.linked_to(&v[j].1)
                    }
                },
            },
        };
        assert(next@ == round_value(ev, i as int));
        let ghost before = entries_view(out@);
        out.push((v[i].0.clone(), next));
        assert(entries_view(out@) =~= before.push((ev[i as int].0, round_value(ev, i as int))));
        assert(round(ev).take(i + 1) =~= round(ev).take(i as int).push(round(ev)[i as int]));
        i += 1;
    }
    assert(round(ev).take(v.len() as int) =~= round(ev));
    out
}

impl Theme {
    /// Replaces every link by the style it leads to: in each round, a link
    /// whose target is no link any more takes the style linked to that
    /// target. Fails, changing nothing, where a link names no style or links
    /// remain after as many rounds as there are styles.
    pub fn resolve_links(&mut self) -> (r: Result<(), ThemeError>)
        ensures
            final(self).ansi_colors@ == old(self).ansi_colors@,
            final(self).comment_map@ == old(self).comment_map@,
            r is Err ==> final(self).highlights@ == old(self).highlights@,
            match resolve(entries_view(old(self).highlights@)) {
                Ok(es) => r is Ok && entries_view(final(self).highlights@) == es,
                Err(ThemeErrorView::UnknownLinkKey(k)) => r matches Err(
                    ThemeError::UnknownLinkKey(s),
                ) && s@ == k,
                Err(ThemeErrorView::LinkCycle) => r matches Err(ThemeError::LinkCycle),
            },
            r is Ok ==> resolved_from(
                entries_view(old(self).highlights@),
                entries_view(final(self).highlights@),
            ),
            r is Ok ==> forall|i: int|
                0 <= i < final(self).highlights.len() ==> link_key(
                    #[trigger] final(self).highlights@[i].1@,
                ) is None,
            r is Ok && no_dollar_colors(entries_view(old(self).highlights@)) ==> no_dollar_colors(
                entries_view(final(self).highlights@),
            ),
            key_views(final(self).highlights@) == key_views(old(self).highlights@),
            theme_wf(*old(self)) ==> theme_wf(*final(self)),
    {
        let ghost start = entries_view(self.highlights@);
        proof {
            lemma_resolve_result(start);
        }
        match missing_link_exec(&self.highlights) {
            Some(k) => {
                return Err(ThemeError::UnknownLinkKey(k));
            },
            None => {},
        }
        let mut cur = clone_entries(&self.highlights);
        let mut fuel: usize = self.highlights.len();
        loop
            invariant
                start == entries_view(old(self).highlights@),
                self.highlights@ == old(self).highlights@,
                self.ansi_colors@ == old(self).ansi_colors@,
                self.comment_map@ == old(self).comment_map@,
                rounds(start, start.len()) == rounds(entries_view(cur@), fuel as nat),
                missing_link(start) is None,
                resolve(start) matches Ok(r) ==> resolved_from(start, r) && !has_link(r) && (
                no_dollar_colors(start) ==> no_dollar_colors(r)),
            decreases fuel,
        {
            if !has_link_exec(&cur) {
                proof {
                    let ev = entries_view(cur@);
                    assert forall|i: int| 0 <= i < cur.len() implies link_key(
                        #[trigger] cur@[i].1@,
                    ) is None by {
                        assert(ev[i].1 == cur@[i].1@);
                    }
                }
                proof {
                    let ev = entries_view(cur@);
                    lemma_rounds_inv(start, start, start.len());
                    assert(key_views(cur@) =~= key_views(old(self).highlights@)) by {
                        assert forall|i: int| 0 <= i < cur.len() implies key_views(cur@)[i]
                            == key_views(old(self).highlights@)[i] by {
                            assert(ev[i].0 == cur@[i].0@);
                            assert(start[i].0 == old(self).highlights@[i].0@);
                        }
                    }
                }
                self.highlights = cur;
                return Ok(());
            }
            if fuel == 0 {
                return Err(ThemeError::LinkCycle);
            }
            cur = round_exec(&cur);
            fuel -= 1;
        }
    }
}

/// One round shortens every chain of links by one.
proof fn lemma_round_depth(es: Entries, i: int, f: nat)
    requires
        0 <= i < es.len(),
        depth(es, i, f) is Some,
    ensures
        depth(round(es), i, f) is Some,
        depth(round(es), i, f)->0 <= if depth(es, i, f)->0 == 0 {
            0
        } else {
            (depth(es, i, f)->0 - 1) as nat
        },
    decreases f,
{
    let nx = round(es);
    assert(keys(nx) =~= keys(es)) by {
        assert forall|m: int| 0 <= m < nx.len() implies keys(nx)[m] == keys(es)[m] by {
            assert(nx[m].0 == es[m].0);
        }
    }
    match link_key(es[i].1) {
        None => {
            assert(nx[i].1 == es[i].1);
        },
        Some(k) => {
            let j = find_key(es, k)->0;
            lemma_find_from(keys(es), k, 0);
            assert(f >= 1);
            assert(depth(es, j, (f - 1) as nat) is Some);
            if link_key(es[j].1) is None {
                lemma_linked_no_link(es[i].1, es[j].1);
                assert(link_key(nx[i].1) is None);
            } else {
                assert(nx[i].1 == es[i].1);
                lemma_find_keys(nx, es, k);
                lemma_round_depth(es, j, (f - 1) as nat);
            }
        },
    }
}

proof fn lemma_rounds_some(es: Entries, fuel: nat, bound: nat)
    requires
        bound <= fuel,
        forall|i: int| 0 <= i < es.len() ==> (#[trigger] depth(es, i, es.len())) is Some,
        forall|i: int| 0 <= i < es.len() ==> (#[trigger] depth(es, i, es.len()))->0 <= bound,
    ensures
        rounds(es, fuel) is Some,
    decreases fuel,
{
    if has_link(es) {
        let i = choose|i: int| 0 <= i < es.len() && link_key(#[trigger] es[i].1) is Some;
        assert(depth(es, i, es.len()) is Some);
        assert(depth(es, i, es.len())->0 >= 1);
        let nx = round(es);
        assert forall|m: int| 0 <= m < nx.len() implies (#[trigger] depth(nx, m, nx.len())) is Some
            && depth(nx, m, nx.len())->0 <= (bound - 1) as nat by {
            lemma_round_depth(es, m, es.len());
        }
        lemma_rounds_some(nx, (fuel - 1) as nat, (bound - 1) as nat);
    }
}

proof fn lemma_no_missing(es: Entries, n: nat)
    requires
        n <= es.len(),
        forall|i: int| 0 <= i < es.len() ==> (#[trigger] depth(es, i, es.len())) is Some,
    ensures
        missing_from(es, n) is None,
    decreases n,
{
    if n > 0 {
        lemma_no_missing(es, (n - 1) as nat);
        assert(depth(es, n - 1, es.len()) is Some);
    }
}

/// Where every link leads to an existing style and no chain of links
/// returns to where it started, resolution ends without error; no link is
/// left, every link took the style linked to its target's resolved style,
/// and where no style object had a color starting with `$`, none has one
/// after.
pub proof fn lemma_acyclic_resolves(es: Entries)
    requires
        acyclic(es),
    ensures
        resolve(es) is Ok,
        resolve(es) matches Ok(r) ==> resolved_from(es, r) && !has_link(r) && (no_dollar_colors(
            es,
        ) ==> no_dollar_colors(r)),
{
    lemma_no_missing(es, es.len());
    assert forall|i: int| 0 <= i < es.len() implies (#[trigger] depth(es, i, es.len()))->0
        <= es.len() by {
        lemma_depth_fuel(es, i, es.len(), es.len());
    }
    lemma_rounds_some(es, es.len(), es.len());
    lemma_resolve_result(es);
}

} // verus!
