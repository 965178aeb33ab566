//! The rendering pipeline: snippet, theme, fingerprint, cache, renderer.
use vstd::prelude::*;

use crate::cache::{fingerprint, Cache, CacheKey};
use crate::dedent::{dedent, dedent_exec};
use crate::output::{
    label_view, new_writer, push_text, LineNumbers, LineNumbersView, OutputWriter, WriterView,
};
use crate::renderer::{tail, unstyled, Renderer};
use crate::snippet::{assemble, assemble_exec, nums_view, SnippetError};
use crate::text::{chars_of, lines_exec, lines_of, string_of};
use crate::theme::{
    entries_view, find_from, find_key_exec, key_views, resolve, CommentStyle, Theme, ThemeError,
    ThemeErrorView,
};
use crate::ts::{closed_output, final_writer, highlight_styles, HighlightEvent, LanguageQueries, TsError};
use crate::Mode;

verus! {

/// Why a rendering failed.
#[derive(Debug)]
pub enum HighlightError {
    /// The theme's links cannot be resolved.
    Theme(ThemeError),
    /// The ranges cannot be cut out of the file.
    Snippet(SnippetError),
    /// The theme does not have the 256 terminal colors.
    MissingAnsiColors,
    /// Tree-sitter highlighting failed.
    TreeSitter(TsError),
}

/// The comment style registered for file extension `ext`.
pub open spec fn comment_style<'a>(comments: &'a Vec<(String, CommentStyle)>, ext: Seq<char>) -> Option<
    &'a CommentStyle,
> {
    match find_from(key_views(comments@), ext, 0) {
        Some(j) => Some(&comments@[j].1),
        None => None,
    }
}

/// The snippet to render and the line numbers of its lines: the ranges of
/// the file, if the mode names any, else the whole input; dedented either way.
pub open spec fn snippet_of(input: Seq<char>, mode: Mode, comments: &Vec<(String, CommentStyle)>) -> Result<
    (Seq<char>, Option<Seq<int>>),
    SnippetError,
> {
    match mode {
        Mode::TreeSitter { ranges, file_extension, .. } => if ranges.len() == 0 {
            Ok((dedent(input), None))
        } else {
            match assemble(lines_of(input), comment_style(comments, file_extension@), ranges@) {
                Err(e) => Err(e),
                Ok(p) => Ok((dedent(p.0), Some(p.1))),
            }
        },
        _ => Ok((dedent(input), None)),
    }
}

/// The dedented snippet and its line numbers.
pub fn build_snippet(input: &str, mode: &Mode, comments: &Vec<(String, CommentStyle)>) -> (r: Result<
    (Vec<char>, Option<Vec<usize>>),
    SnippetError,
>)
    ensures
        match snippet_of(input@, *mode, comments) {
            Err(e) => r == Err::<(Vec<char>, Option<Vec<usize>>), SnippetError>(e),
            Ok(p) => r matches Ok(q) && q.0@ == p.0 && match p.1 {
                None => q.1 is None,
                Some(n) => q.1 matches Some(v) && nums_view(v@) == n,
            },
        },
{
    let cs = chars_of(input);
    match mode {
        Mode::TreeSitter { ranges, file_extension, .. } => {
            if ranges.len() == 0 {
                return Ok((dedent_exec(cs), None));
            }
            let lines = lines_exec(&cs);
            proof {
                crate::theme::lemma_find_from(key_views(comments@), file_extension@, 0);
            }
            let style = match find_key_exec(comments, file_extension) {
                Some(j) => Some(&comments[j].1),
                None => None,
            };
            match assemble_exec(&lines, style, ranges) {
                Err(e) => Err(e),
                Ok((code, nums)) => Ok((dedent_exec(code), Some(nums))),
            }
        },
        _ => Ok((dedent_exec(cs), None)),
    }
}

/// What a rendering is configured with.
#[derive(Debug)]
pub struct HighlightConfig {
    pub mode: Mode,
    pub theme: Theme,
    /// Extra options for the LaTeX `Verbatim` environment.
    pub fancyvrb_args: String,
    pub renderer: Renderer,
    /// A value of the caller's that also distinguishes renderings.
    pub additional_hash_value: u64,
}

/// A snippet ready to be highlighted, with its fingerprint.
#[derive(Debug)]
pub struct Prepared {
    pub code: String,
    pub line_numbers: Option<Vec<usize>>,
    pub key: CacheKey,
}

/// How far a rendering got.
#[derive(Debug)]
pub enum Outcome {
    /// The rendered output.
    Done(String),
    /// The snippet still has to be highlighted with a grammar.
    NeedsLanguage(Prepared),
}

pub open spec fn to_usizes(v: Seq<int>) -> Seq<usize> {
    v.map_values(|x: int| x as usize)
}

pub open spec fn numbers_view(n: Option<Seq<int>>) -> LineNumbersView {
    match n {
        Some(v) => LineNumbersView::Listed(to_usizes(v), 0),
        None => LineNumbersView::Counting(1),
    }
}

pub open spec fn key_of(config: HighlightConfig, code: Seq<char>) -> u64 {
    fingerprint(config.mode, code, config.theme, config.renderer, config.additional_hash_value)
}

/// The code escaped without highlighting, as a numbered listing.
pub open spec fn raw_listing(config: HighlightConfig, code: Seq<char>, numbers: Option<Seq<int>>) -> Seq<
    char,
> {
    let label = match config.mode {
        Mode::TreeSitter { label, .. } => label_view(label),
        _ => None,
    };
    let w = push_text(
        new_writer(numbers_view(numbers), false, config.fancyvrb_args@, label, config.renderer),
        unstyled(config.renderer, code),
    );
    w.out + tail(config.renderer, false)
}

pub open spec fn same_settings(a: HighlightConfig, b: HighlightConfig) -> bool {
    &&& a.mode == b.mode
    &&& a.fancyvrb_args == b.fancyvrb_args
    &&& a.renderer == b.renderer
    &&& a.additional_hash_value == b.additional_hash_value
    &&& a.theme.ansi_colors@ == b.theme.ansi_colors@
    &&& a.theme.comment_map@ == b.theme.comment_map@
}

fn line_numbers_of(numbers: Option<Vec<usize>>) -> (r: LineNumbers)
    ensures
        r@ == match numbers {
            Some(v) => LineNumbersView::Listed(v@, 0),
            None => LineNumbersView::Counting(1),
        },
{
    match numbers {
        Some(v) => LineNumbers::listed(v),
        None => LineNumbers::counting(),
    }
}

/// Resolves the theme's links, builds the snippet and fingerprints it.
pub fn prepare(input: &str, config: &mut HighlightConfig) -> (r: Result<Prepared, HighlightError>)
    ensures
        same_settings(*old(config), *final(config)),
        match resolve(entries_view(old(config).theme.highlights@)) {
            Err(ThemeErrorView::UnknownLinkKey(k)) => r matches Err(
                HighlightError::Theme(ThemeError::UnknownLinkKey(s)),
            ) && s@ == k,
            Err(ThemeErrorView::LinkCycle) => r matches Err(HighlightError::Theme(ThemeError::LinkCycle)),
            Ok(es) => entries_view(final(config).theme.highlights@) == es && match snippet_of(
                input@,
                old(config).mode,
                &old(config).theme.comment_map,
            ) {
                Err(e) => r matches Err(HighlightError::Snippet(x)) && x == e,
                Ok(sn) => r matches Ok(p) && p.code@ == sn.0 && p.key.0 == key_of(
                    *final(config),
                    sn.0,
                ) && match sn.1 {
                    None => p.line_numbers is None,
                    Some(n) => p.line_numbers matches Some(v) && nums_view(v@) == n,
                },
            },
        },
{
    match config.theme.resolve_links() {
        Ok(()) => {},
        Err(e) => {
            return Err(HighlightError::Theme(e));
        },
    }
    let (code, line_numbers) = match build_snippet(input, &config.mode, &config.theme.comment_map) {
        Ok(x) => x,
        Err(e) => {
            return Err(HighlightError::Snippet(e));
        },
    };
    let code = string_of(&code);
    let key = CacheKey::new(
        &config.mode,
        code.as_str(),
        &config.theme,
        config.renderer,
        config.additional_hash_value,
    );
    Ok(Prepared { code, line_numbers, key })
}

/// Renders `input` as `config` says, unless `cache` holds the output for
/// the same inputs already. ANSI and raw output is rendered here; output
/// that needs a grammar comes back as `NeedsLanguage`, for
/// `finish_highlight`. A new output is stored in `cache`.
pub fn highlight(input: &str, config: &mut HighlightConfig, cache: &mut Cache) -> (r: Result<
    Outcome,
    HighlightError,
>)
    ensures
        same_settings(*old(config), *final(config)),
        r is Err ==> final(cache)@ == old(cache)@,
        match resolve(entries_view(old(config).theme.highlights@)) {
            Err(ThemeErrorView::UnknownLinkKey(k)) => r matches Err(
                HighlightError::Theme(ThemeError::UnknownLinkKey(s)),
            ) && s@ == k,
            Err(ThemeErrorView::LinkCycle) => r matches Err(HighlightError::Theme(ThemeError::LinkCycle)),
            Ok(es) => entries_view(final(config).theme.highlights@) == es && match snippet_of(
                input@,
                old(config).mode,
                &old(config).theme.comment_map,
            ) {
                Err(e) => r matches Err(HighlightError::Snippet(x)) && x == e,
                Ok(sn) => {
                    let k = key_of(*final(config), sn.0);
                    if old(cache)@.contains_key(k) {
                        r matches Ok(Outcome::Done(s)) && s@ == old(cache)@[k]@ && final(cache)@
                            == old(cache)@
                    } else {
                        match old(config).mode {
                            Mode::Ansi => if old(config).theme.ansi_colors.len() < 256 {
                                r matches Err(HighlightError::MissingAnsiColors)
                            } else {
                                r matches Ok(Outcome::Done(s)) && s@ == crate::ansi::ansi_listing(
                                    sn.0,
                                    old(config).fancyvrb_args@,
                                    crate::ansi::colors_view(old(config).theme.ansi_colors@),
                                ) && final(cache)@ == old(cache)@.insert(k, s)
                            },
                            Mode::TreeSitter { raw: true, .. } => r matches Ok(Outcome::Done(s))
                                && s@ == raw_listing(*old(config), sn.0, sn.1) && final(cache)@
                                == old(cache)@.insert(k, s),
                            _ => r matches Ok(Outcome::NeedsLanguage(p)) && p.code@ == sn.0
                                && p.key.0 == k && final(cache)@ == old(cache)@ && match sn.1 {
                                None => p.line_numbers is None,
                                Some(n) => p.line_numbers matches Some(v) && nums_view(v@) == n,
                            },
                        }
                    }
                },
            },
        },
{
    let prepared = prepare(input, config)?;
    match cache.get_cached(prepared.key) {
        Some(s) => {
            return Ok(Outcome::Done(String::from_str(s)));
        },
        None => {},
    }
    let key = prepared.key;
    match &config.mode {
        Mode::Ansi => {
            if config.theme.ansi_colors.len() < 256 {
                return Err(HighlightError::MissingAnsiColors);
            }
            let out = crate::ansi::highlight(
                prepared.code.as_str(),
                config.fancyvrb_args.as_str(),
                &config.theme.ansi_colors,
            );
            cache.set_entry(key, out.clone());
            Ok(Outcome::Done(out))
        },
        Mode::TreeSitter { raw, label, .. } => {
            if *raw {
                proof {
                    assert forall|v: Seq<usize>| #[trigger] to_usizes(nums_view(v)) == v by {
                        assert(to_usizes(nums_view(v)) =~= v);
                    }
                }
                let mut writer = OutputWriter::new(
                    line_numbers_of(prepared.line_numbers),
                    false,
                    config.fancyvrb_args.as_str(),
                    match label {
                        Some(l) => Some(l.clone()),
                        None => None,
                    },
                    config.renderer,
                );
                let code = chars_of(prepared.code.as_str());
                let escaped = config.renderer.unstyled(&code);
                writer.push_chars(&escaped);
                let out = writer.finish();
                cache.set_entry(key, out.clone());
                Ok(Outcome::Done(out))
            } else {
                Ok(Outcome::NeedsLanguage(prepared))
            }
        },
        Mode::TreeSitterInline { .. } => Ok(Outcome::NeedsLanguage(prepared)),
    }
}

/// The writer that highlighted output starts from: numbered as the snippet's
/// lines, on one line for inline code, labelled as the mode says.
pub open spec fn start_writer(config: HighlightConfig, numbers: Option<Vec<usize>>) -> WriterView {
    new_writer(
        match numbers {
            Some(v) => LineNumbersView::Listed(v@, 0),
            None => LineNumbersView::Counting(1),
        },
        config.mode is TreeSitterInline,
        config.fancyvrb_args@,
        match config.mode {
            Mode::TreeSitter { label, .. } => label_view(label),
            _ => None,
        },
        config.renderer,
    )
}

/// Highlights a prepared snippet with the grammar and queries of its
/// language, and stores the output in `cache`.
pub fn finish_highlight(
    prepared: Prepared,
    config: &HighlightConfig,
    language: &LanguageQueries,
    cache: &mut Cache,
) -> (r: Result<String, HighlightError>)
    ensures
        r matches Ok(s) ==> final(cache)@ == old(cache)@.insert(prepared.key.0, s),
        r is Err ==> final(cache)@ == old(cache)@,
        r matches Ok(s) ==> exists|events: Seq<HighlightEvent>|
            #[trigger] final_writer(
                prepared.code@,
                highlight_styles(config.theme.highlights@),
                start_writer(*config, prepared.line_numbers),
                events,
            ) is Some && s@ == closed_output(
                final_writer(
                    prepared.code@,
                    highlight_styles(config.theme.highlights@),
                    start_writer(*config, prepared.line_numbers),
                    events,
                )->0,
            ),
        r matches Err(HighlightError::TreeSitter(TsError::InvalidEvent)) ==> exists|
            events: Seq<HighlightEvent>,
        |
            #[trigger] final_writer(
                prepared.code@,
                highlight_styles(config.theme.highlights@),
                start_writer(*config, prepared.line_numbers),
                events,
            ) is None,
{
    let (inline, raw_queries, label) = match &config.mode {
        Mode::TreeSitter { raw_queries, label, .. } => (
            false,
            *raw_queries,
            match label {
                Some(l) => Some(l.clone()),
                None => None,
            },
        ),
        Mode::TreeSitterInline { .. } => (true, false, None),
        Mode::Ansi => (false, false, None),
    };
    let writer = OutputWriter::new(
        line_numbers_of(prepared.line_numbers),
        inline,
        config.fancyvrb_args.as_str(),
        label,
        config.renderer,
    );
    let code = chars_of(prepared.code.as_str());
    match crate::ts::highlight(&code, writer, raw_queries, language, &config.theme.highlights) {
        Ok(out) => {
            cache.set_entry(prepared.key, out.clone());
            Ok(out)
        },
        Err(e) => Err(HighlightError::TreeSitter(e)),
    }
}

/// Rendering the same inputs twice gives the same fingerprint, so the output
/// that the first rendering stored is what the second one finds in the cache
/// (and returns without highlighting anything).
pub proof fn lemma_rerender_hits_cache(
    first: HighlightConfig,
    second: HighlightConfig,
    code: Seq<char>,
    cache: Map<u64, String>,
    output: String,
)
    requires
        same_settings(first, second),
        entries_view(first.theme.highlights@) == entries_view(second.theme.highlights@),
    ensures
        key_of(first, code) == key_of(second, code),
        cache.insert(key_of(first, code), output).contains_key(key_of(second, code)),
        cache.insert(key_of(first, code), output)[key_of(second, code)] == output,
{
    crate::cache::lemma_highlights_text_views(first.theme.highlights@, second.theme.highlights@);
    assert(entries_view(first.theme.highlights@).len() == first.theme.highlights.len());
    assert(entries_view(second.theme.highlights@).len() == second.theme.highlights.len());
    assert(first.theme.ansi_colors.len() == second.theme.ansi_colors.len());
    assert(first.theme.comment_map.len() == second.theme.comment_map.len());
    assert(crate::cache::theme_text(first.theme) == crate::cache::theme_text(second.theme));
}

} // verus!
