//! Fingerprints of rendering inputs, and the store of rendered outputs.
use std::collections::hash_map::DefaultHasher;
use std::collections::HashMap;
use std::hash::Hasher;

use vstd::prelude::*;
use vstd::std_specs::hash::DefaultHasherAdditionalSpecFns;

use crate::range::{Offset, Range};
use crate::renderer::Renderer;
use crate::text::{append, decimal, push_decimal, push_decimal_u64};
use crate::theme::{StyleView, Theme, ThemeValue};
use crate::Mode;

verus! {

pub open spec fn field(s: Seq<char>) -> Seq<char> {
    decimal(s.len()) + seq![':'] + s
}

pub open spec fn opt_field(s: Option<Seq<char>>) -> Seq<char> {
    match s {
        Some(x) => seq!['+'] + field(x),
        None => seq!['-'],
    }
}

pub open spec fn flag(b: bool) -> Seq<char> {
    if b {
        seq!['1']
    } else {
        seq!['0']
    }
}

pub open spec fn num(n: nat) -> Seq<char> {
    decimal(n) + seq![';']
}

pub open spec fn opt_num(o: Option<usize>) -> Seq<char> {
    match o {
        Some(n) => seq!['+'] + num(n as nat),
        None => seq!['-'],
    }
}

pub open spec fn opt_str(o: Option<String>) -> Option<Seq<char>> {
    match o {
        Some(s) => Some(s@),
        None => None,
    }
}

pub open spec fn range_text(r: Range) -> Seq<char> {
    flag(r.inline) + match r.indent_offset {
        Offset::Zero => seq!['0'],
        Offset::Positive(n) => seq!['+'] + num(n as nat),
        Offset::Negative(n) => seq!['-'] + num(n as nat),
    } + num(r.start as nat) + num(r.end as nat) + opt_num(r.start_col) + opt_num(r.end_col)
}

pub open spec fn ranges_text(rs: Seq<Range>) -> Seq<char>
    decreases rs.len(),
{
    if rs.len() == 0 {
        Seq::empty()
    } else {
        ranges_text(rs.drop_last()) + range_text(rs.last())
    }
}

pub open spec fn mode_text(m: Mode) -> Seq<char> {
    match m {
        Mode::TreeSitter { raw, raw_queries, ranges, label, file_extension } => seq!['T'] + flag(
            raw,
        ) + flag(raw_queries) + num(ranges.len() as nat) + ranges_text(ranges@) + opt_field(
            opt_str(label),
        ) + field(file_extension@),
        Mode::TreeSitterInline { file_extension } => seq!['I'] + field(file_extension@),
        Mode::Ansi => seq!['A'],
    }
}

pub open spec fn style_text(v: StyleView) -> Seq<char> {
    match v {
        StyleView::Color(c) => seq!['C'] + field(c),
        StyleView::Object { color, underline, strikethrough, italic, bold, link } => seq!['O']
            + opt_field(color) + flag(underline) + flag(strikethrough) + flag(italic) + flag(bold)
            + opt_field(link),
    }
}

pub open spec fn highlights_text(h: Seq<(String, ThemeValue)>) -> Seq<char>
    decreases h.len(),
{
    if h.len() == 0 {
        Seq::empty()
    } else {
        highlights_text(h.drop_last()) + field(h.last().0@) + style_text(h.last().1@)
    }
}

pub open spec fn colors_text(c: Seq<String>) -> Seq<char>
    decreases c.len(),
{
    if c.len() == 0 {
        Seq::empty()
    } else {
        colors_text(c.drop_last()) + field(c.last()@)
    }
}

pub open spec fn comments_text(c: Seq<(String, crate::theme::CommentStyle)>) -> Seq<char>
    decreases c.len(),
{
    if c.len() == 0 {
        Seq::empty()
    } else {
        let e = c.last();
        comments_text(c.drop_last()) + field(e.0@) + field(e.1.line@) + field(e.1.block.0@) + field(
            e.1.block.1@,
        )
    }
}

pub open spec fn theme_text(t: Theme) -> Seq<char> {
    num(t.highlights.len() as nat) + highlights_text(t.highlights@) + num(
        t.ansi_colors.len() as nat,
    ) + colors_text(t.ansi_colors@) + num(t.comment_map.len() as nat) + comments_text(
        t.comment_map@,
    )
}

pub open spec fn renderer_text(r: Renderer) -> Seq<char> {
    match r {
        Renderer::Latex => seq!['L'],
        Renderer::Html => seq!['H'],
    }
}

/// Everything a rendering depends on, written out so that different inputs
/// give different text.
pub open spec fn key_text(
    mode: Mode,
    code: Seq<char>,
    theme: Theme,
    renderer: Renderer,
    additional: u64,
) -> Seq<char> {
    mode_text(mode) + field(code) + theme_text(theme) + renderer_text(renderer) + num(
        additional as nat,
    )
}

/// The four bytes of a character's code point, least significant first.
pub open spec fn char_bytes(c: char) -> Seq<u8> {
    let v = c as u32;
    seq![(v % 256) as u8, ((v / 256) % 256) as u8, ((v / 65536) % 256) as u8, (v / 16777216) as u8]
}

pub open spec fn text_bytes(s: Seq<char>) -> Seq<u8>
    decreases s.len(),
{
    if s.len() == 0 {
        Seq::empty()
    } else {
        text_bytes(s.drop_last()) + char_bytes(s.last())
    }
}

/// The fingerprint of a rendering's inputs.
pub open spec fn fingerprint(
    mode: Mode,
    code: Seq<char>,
    theme: Theme,
    renderer: Renderer,
    additional: u64,
) -> u64 {
    DefaultHasher::spec_finish(seq![text_bytes(key_text(mode, code, theme, renderer, additional))])
}

} // verus!

verus! {

fn push_field(out: &mut Vec<char>, s: &str)
    ensures
        final(out)@ == old(out)@ + field(s@),
{
    let cs = crate::text::chars_of(s);
    push_decimal(out, cs.len());
    out.push(':');
    append(out, &cs);
}

fn push_opt_field(out: &mut Vec<char>, s: &Option<String>)
    ensures
        final(out)@ == old(out)@ + opt_field(opt_str(*s)),
{
    match s {
        Some(x) => {
            out.push('+');
            push_field(out, x.as_str());
        },
        None => {
            out.push('-');
        },
    }
}

fn push_flag(out: &mut Vec<char>, b: bool)
    ensures
        final(out)@ == old(out)@ + flag(b),
{
    out.push(if b { '1' } else { '0' });
}

fn push_num(out: &mut Vec<char>, n: usize)
    ensures
        final(out)@ == old(out)@ + num(n as nat),
{
    push_decimal(out, n);
    out.push(';');
}

fn push_opt_num(out: &mut Vec<char>, o: Option<usize>)
    ensures
        final(out)@ == old(out)@ + opt_num(o),
{
    match o {
        Some(n) => {
            out.push('+');
            push_num(out, n);
        },
        None => {
            out.push('-');
        },
    }
}

fn push_range(out: &mut Vec<char>, r: Range)
    ensures
        final(out)@ == old(out)@ + range_text(r),
{
    let ghost o = out@;
    push_flag(out, r.inline);
    match r.indent_offset {
        Offset::Zero => {
            out.push('0');
        },
        Offset::Positive(n) => {
            out.push('+');
            push_num(out, n);
        },
        Offset::Negative(n) => {
            out.push('-');
            push_num(out, n);
        },
    }
    push_num(out, r.start);
    push_num(out, r.end);
    push_opt_num(out, r.start_col);
    push_opt_num(out, r.end_col);
    assert(out@ =~= o + range_text(r));
}

fn push_mode(out: &mut Vec<char>, m: &Mode)
    ensures
        final(out)@ == old(out)@ + mode_text(*m),
{
    match m {
        Mode::TreeSitter { raw, raw_queries, ranges, label, file_extension } => {
            let ghost o = out@;
            out.push('T');
            push_flag(out, *raw);
            push_flag(out, *raw_queries);
            push_num(out, ranges.len());
            let ghost before = out@;
            let mut i: usize = 0;
            assert(ranges@.take(0) =~= Seq::<Range>::empty());
            while i < ranges.len()
                invariant
                    i <= ranges.len(),
                    out@ == before + ranges_text(ranges@.take(i as int)),
                decreases ranges.len() - i,
            {
                assert(ranges@.take(i + 1).drop_last() =~= ranges@.take(i as int));
                push_range(out, ranges[i]);
                i += 1;
            }
            assert(ranges@.take(ranges.len() as int) =~= ranges@);
            push_opt_field(out, label);
            push_field(out, file_extension.as_str());
            assert(out@ =~= o + mode_text(*m));
        },
        Mode::TreeSitterInline { file_extension } => {
            out.push('I');
            push_field(out, file_extension.as_str());
            assert(out@ =~= old(out)@ + mode_text(*m));
        },
        Mode::Ansi => {
            out.push('A');
        },
    }
}

#[verifier::spinoff_prover]
#[verifier::rlimit(40)]
fn push_style(out: &mut Vec<char>, v: &ThemeValue)
    ensures
        final(out)@ == old(out)@ + style_text(v@),
{
    match v {
        ThemeValue::Color(c) => {
            out.push('C');
            push_field(out, c.as_str());
            assert(out@ =~= old(out)@ + style_text(v@));
        },
        ThemeValue::Object { color, underline, strikethrough, italic, bold, link } => {
            let ghost o = out@;
            out.push('O');
            push_opt_field(out, color);
            push_flag(out, *underline);
            push_flag(out, *strikethrough);
            push_flag(out, *italic);
            push_flag(out, *bold);
            push_opt_field(out, link);
            assert(out@ =~= o + style_text(v@));
        },
    }
}

fn push_theme(out: &mut Vec<char>, t: &Theme)
    ensures
        final(out)@ == old(out)@ + theme_text(*t),
{
    let ghost o = out@;
    push_num(out, t.highlights.len());
    let ghost b0 = out@;
    let mut i: usize = 0;
    assert(t.highlights@.take(0) =~= Seq::<(String, ThemeValue)>::empty());
    while i < t.highlights.len()
        invariant
            i <= t.highlights.len(),
            out@ == b0 + highlights_text(t.highlights@.take(i as int)),
        decreases t.highlights.len() - i,
    {
        assert(t.highlights@.take(i + 1).drop_last() =~= t.highlights@.take(i as int));
        push_field(out, t.highlights[i].0.as_str());
        push_style(out, &t.highlights[i].1);
        i += 1;
    }
    assert(t.highlights@.take(t.highlights.len() as int) =~= t.highlights@);
    push_num(out, t.ansi_colors.len());
    let ghost b1 = out@;
    let mut j: usize = 0;
    assert(t.ansi_colors@.take(0) =~= Seq::<String>::empty());
    while j < t.ansi_colors.len()
        invariant
            j <= t.ansi_colors.len(),
            out@ == b1 + colors_text(t.ansi_colors@.take(j as int)),
        decreases t.ansi_colors.len() - j,
    {
        assert(t.ansi_colors@.take(j + 1).drop_last() =~= t.ansi_colors@.take(j as int));
        push_field(out, t.ansi_colors[j].as_str());
        j += 1;
    }
    assert(t.ansi_colors@.take(t.ansi_colors.len() as int) =~= t.ansi_colors@);
    push_num(out, t.comment_map.len());
    let ghost b2 = out@;
    let mut k: usize = 0;
    assert(t.comment_map@.take(0) =~= Seq::<(String, crate::theme::CommentStyle)>::empty());
    while k < t.comment_map.len()
        invariant
            k <= t.comment_map.len(),
            out@ == b2 + comments_text(t.comment_map@.take(k as int)),
        decreases t.comment_map.len() - k,
    {
        assert(t.comment_map@.take(k + 1).drop_last() =~= t.comment_map@.take(k as int));
        let e = &t.comment_map[k];
        push_field(out, e.0.as_str());
        push_field(out, e.1.line.as_str());
        push_field(out, e.1.block.0.as_str());
        push_field(out, e.1.block.1.as_str());
        k += 1;
    }
    assert(t.comment_map@.take(t.comment_map.len() as int) =~= t.comment_map@);
    assert(out@ =~= o + theme_text(*t));
}

fn text_bytes_exec(s: &Vec<char>) -> (r: Vec<u8>)
    ensures
        r@ == text_bytes(s@),
{
    let mut out: Vec<u8> = Vec::new();
    let mut i: usize = 0;
    assert(s@.take(0) =~= Seq::<char>::empty());
    while i < s.len()
        invariant
            i <= s.len(),
            out@ == text_bytes(s@.take(i as int)),
        decreases s.len() - i,
    {
        assert(s@.take(i + 1).drop_last() =~= s@.take(i as int));
        let v = s[i] as u32;
        let ghost before = out@;
        out.push((v % 256) as u8);
        out.push(((v / 256) % 256) as u8);
        out.push(((v / 65536) % 256) as u8);
        out.push((v / 16777216) as u8);
        assert(out@ =~= before + char_bytes(s@[i as int]));
        i += 1;
    }
    assert(s@.take(s.len() as int) =~= s@);
    out
}

/// A 64-bit fingerprint of everything that a rendering depends on.
#[derive(Debug, Clone, Copy, Hash, PartialEq, Eq)]
pub struct CacheKey(pub u64);

impl CacheKey {
    /// The fingerprint of the mode, the processed snippet, the resolved
    /// theme, the renderer and the caller's extra value.
    pub fn new(mode: &Mode, code: &str, theme: &Theme, renderer: Renderer, additional: u64) -> (r:
        Self)
        ensures
            r.0 == fingerprint(*mode, code@, *theme, renderer, additional),
    {
        let mut text: Vec<char> = Vec::new();
        push_mode(&mut text, mode);
        push_field(&mut text, code);
        push_theme(&mut text, theme);
        text.push(
            match renderer {
                Renderer::Latex => 'L',
                Renderer::Html => 'H',
            },
        );
        push_decimal_u64(&mut text, additional);
        text.push(';');
        assert(text@ =~= key_text(*mode, code@, *theme, renderer, additional));
        let bytes = text_bytes_exec(&text);
        let mut hasher = DefaultHasher::new();
        hasher.write(bytes.as_slice());
        assert(hasher@ =~= seq![bytes@]);
        CacheKey(hasher.finish())
    }
}

} // verus!

verus! {

broadcast use vstd::std_specs::hash::group_hash_axioms;

/// Rendered outputs by fingerprint; storing under a fingerprint replaces
/// what was stored there.
#[derive(Debug)]
pub struct Cache {
    entries: HashMap<u64, String>,
}

impl View for Cache {
    type V = Map<u64, String>;

    closed spec fn view(&self) -> Map<u64, String> {
        self.entries@
    }
}

impl Cache {
    /// An empty store.
    pub fn new() -> (r: Self)
        ensures
            r@ == Map::<u64, String>::empty(),
    {
        Cache { entries: HashMap::new() }
    }

    /// A store holding `entries`.
    pub fn from_entries(entries: HashMap<u64, String>) -> (r: Self)
        ensures
            r@ == entries@,
    {
        Cache { entries }
    }

    /// The stored outputs.
    pub fn into_entries(self) -> (r: HashMap<u64, String>)
        ensures
            r@ == self@,
    {
        self.entries
    }

    /// How many outputs are stored.
    pub fn len(&self) -> (r: usize)
        ensures
            r == self@.len(),
    {
        self.entries.len()
    }

    /// The output stored under `key`, if any.
    pub fn get_cached(&self, key: CacheKey) -> (r: Option<&str>)
        ensures
            match r {
                Some(s) => self@.contains_key(key.0) && s@ == self@[key.0]@,
                None => !self@.contains_key(key.0),
            },
    {
        match self.entries.get(&key.0) {
            Some(s) => Some(s.as_str()),
            None => None,
        }
    }

    /// Stores `output` under `key`, replacing what was there.
    pub fn set_entry(&mut self, key: CacheKey, output: String)
        ensures
            final(self)@ == old(self)@.insert(key.0, output),
    {
        self.entries.insert(key.0, output);
    }
}

/// The fingerprint text of the styles depends on their names and views only.
pub proof fn lemma_highlights_text_views(h1: Seq<(String, ThemeValue)>, h2: Seq<(String, ThemeValue)>)
    requires
        crate::theme::entries_view(h1) == crate::theme::entries_view(h2),
    ensures
        highlights_text(h1) == highlights_text(h2),
    decreases h1.len(),
{
    assert(crate::theme::entries_view(h1).len() == h1.len());
    assert(crate::theme::entries_view(h2).len() == h2.len());
    if h1.len() > 0 {
        assert(crate::theme::entries_view(h1.drop_last()) =~= crate::theme::entries_view(h1).drop_last());
        assert(crate::theme::entries_view(h2.drop_last()) =~= crate::theme::entries_view(h2).drop_last());
        lemma_highlights_text_views(h1.drop_last(), h2.drop_last());
        assert(crate::theme::entries_view(h1)[h1.len() - 1] == crate::theme::entries_view(h2)[h1.len() - 1]);
    }
}

} // verus!
