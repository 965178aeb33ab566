//! Highlighting with tree-sitter: the calls into the highlighting engine,
//! and the rendering of the events it emits.
use vstd::prelude::*;

use crate::output::{push_text, OutputWriter, WriterView};
use crate::query::{
    char_index, char_index_exec, names_view, normalize_query, normalized, patterns_view, preds_view,
    ArgView, PatternInfo, PatternView, Predicate, PredicateArg, PredicateError,
};
use crate::renderer::{tail, unstyled};
use crate::text::slice;
use crate::theme::{write_text, StyleView, ThemeValue};

verus! {

#[verifier::external_type_specification]
#[verifier::external_body]
pub struct ExLanguage(tree_sitter::Language);

#[verifier::external_type_specification]
#[verifier::external_body]
pub struct ExQuery(tree_sitter::Query);

#[verifier::external_type_specification]
#[verifier::external_body]
pub struct ExQueryError(tree_sitter::QueryError);

#[verifier::external_type_specification]
#[verifier::external_body]
pub struct ExHighlightConfiguration(tree_sitter_highlight::HighlightConfiguration);

#[verifier::external_type_specification]
#[verifier::external_body]
pub struct ExHighlighter(tree_sitter_highlight::Highlighter);

#[verifier::external_type_specification]
#[verifier::external_body]
pub struct ExHighlightError(tree_sitter_highlight::Error);

/// The start bytes of the patterns of a query, in order.
pub uninterp spec fn pattern_starts(q: tree_sitter::Query) -> Seq<usize>;

/// The predicates, other than the built-in ones, of each pattern of a query.
pub uninterp spec fn query_predicates(q: tree_sitter::Query) -> Seq<
    Seq<(Seq<char>, Seq<ArgView>)>,
>;

/// The capture names of a query.
pub uninterp spec fn query_capture_names(q: tree_sitter::Query) -> Seq<Seq<char>>;

/// The patterns of a query, with their start bytes and predicates.
pub open spec fn query_patterns(q: tree_sitter::Query) -> Seq<PatternView> {
    Seq::new(pattern_starts(q).len(), |i: int| (pattern_starts(q)[i], query_predicates(q)[i]))
}

/// Relies on `tree_sitter::Query::new`: compiles a query for a grammar.
#[verifier::external_body]
fn query_new(language: tree_sitter::Language, source: &str) -> (r: Result<
    tree_sitter::Query,
    tree_sitter::QueryError,
>) {
    tree_sitter::Query::new(language, source)
}

/// Relies on `tree_sitter::Query::pattern_count`: the number of patterns.
#[verifier::external_body]
fn pattern_count(q: &tree_sitter::Query) -> (r: usize)
    ensures
        r == pattern_starts(*q).len(),
{
    q.pattern_count()
}

/// Relies on `tree_sitter::Query::start_byte_for_pattern`: where pattern `i`
/// starts in the query source; it panics past the last pattern.
#[verifier::external_body]
fn start_byte_for_pattern(q: &tree_sitter::Query, i: usize) -> (r: usize)
    requires
        i < pattern_starts(*q).len(),
    ensures
        r == pattern_starts(*q)[i as int],
{
    q.start_byte_for_pattern(i)
}

/// Relies on `tree_sitter::Query::general_predicates`: the predicates of
/// pattern `i` other than the built-in ones; it panics past the last pattern.
#[verifier::external_body]
fn general_predicates(q: &tree_sitter::Query, i: usize) -> (r: Vec<Predicate>)
    requires
        i < pattern_starts(*q).len(),
    ensures
        preds_view(r@) == query_predicates(*q)[i as int],
{
    q.general_predicates(i).iter().map(|p| Predicate {
        operator: p.operator.to_string(),
        args: p.args.iter().map(|a| match a {
            tree_sitter::QueryPredicateArg::Capture(n) => PredicateArg::Capture(*n),
            tree_sitter::QueryPredicateArg::String(s) => PredicateArg::Text(s.to_string()),
        }).collect(),
    }).collect()
}

/// Relies on `tree_sitter::Query::capture_names`: the names of the captures.
#[verifier::external_body]
fn capture_names(q: &tree_sitter::Query) -> (r: Vec<String>)
    ensures
        names_view(r@) == query_capture_names(*q),
{
    q.capture_names().to_vec()
}

/// Relies on `tree_sitter_highlight::HighlightConfiguration::new`: compiles
/// the three queries of a grammar for highlighting.
#[verifier::external_body]
fn highlight_configuration(
    language: tree_sitter::Language,
    highlights: &str,
    injections: &str,
    locals: &str,
) -> (r: Result<tree_sitter_highlight::HighlightConfiguration, tree_sitter::QueryError>) {
    tree_sitter_highlight::HighlightConfiguration::new(language, highlights, injections, locals)
}

/// Relies on `tree_sitter_highlight::HighlightConfiguration::configure`:
/// sets the highlight names whose indices the events carry.
#[verifier::external_body]
fn configure(config: &mut tree_sitter_highlight::HighlightConfiguration, names: &Vec<String>) {
    config.configure(names)
}

/// Relies on `tree_sitter_highlight::Highlighter::new`.
#[verifier::external_body]
fn highlighter_new() -> (r: tree_sitter_highlight::Highlighter) {
    tree_sitter_highlight::Highlighter::new()
}

/// Injected languages are not highlighted.
fn no_injection<'a>(_language: &str) -> (r: Option<&'a tree_sitter_highlight::HighlightConfiguration>)
    ensures
        r is None,
{
    None
}

/// Relies on `tree_sitter_highlight::Highlighter::highlight`: the events of
/// highlighting `source`, without injected languages.
#[verifier::external_body]
fn highlight_events(
    highlighter: &mut tree_sitter_highlight::Highlighter,
    config: &tree_sitter_highlight::HighlightConfiguration,
    source: &[u8],
) -> (r: Result<Vec<HighlightEvent>, tree_sitter_highlight::Error>) {
    highlighter.highlight(config, source, None, no_injection)?.map(|e| e.map(|e| match e {
        tree_sitter_highlight::HighlightEvent::HighlightStart(h) => HighlightEvent::Start(h.0),
        tree_sitter_highlight::HighlightEvent::HighlightEnd => HighlightEvent::End,
        tree_sitter_highlight::HighlightEvent::Source { start, end } => HighlightEvent::Source { start, end },
    })).collect()
}

/// A grammar and its queries, as a language provider hands them over.
pub struct LanguageQueries {
    pub inner: tree_sitter::Language,
    pub highlights_query: String,
    pub injection_query: String,
    pub locals_query: String,
}

/// A step of the highlighter's output.
#[derive(Debug, Clone, Copy, PartialEq, Eq)]
pub enum HighlightEvent {
    /// Highlight number `n` starts.
    Start(usize),
    /// The innermost highlight ends.
    End,
    /// The bytes `start..end` of the code.
    Source { start: usize, end: usize },
}

/// Why tree-sitter highlighting failed.
#[derive(Debug)]
pub enum TsError {
    /// A query does not compile for the grammar.
    Query(tree_sitter::QueryError),
    /// A predicate cannot be rewritten.
    Predicate(crate::query::PredicateError),
    /// The highlighter gave up.
    Highlighter(tree_sitter_highlight::Error),
    /// An event names a highlight without a style or bytes that are not
    /// between two characters.
    InvalidEvent,
}

/// The writer and style stack after one event, or `None` for an invalid event.
pub open spec fn event_step(
    code: Seq<char>,
    styles: Seq<StyleView>,
    state: (WriterView, Seq<usize>),
    e: HighlightEvent,
) -> Option<(WriterView, Seq<usize>)> {
    let (w, stack) = state;
    match e {
        HighlightEvent::Start(h) => Some((w, stack.push(h))),
        HighlightEvent::End => Some(
            (
                w,
                if stack.len() > 0 {
                    stack.drop_last()
                } else {
                    stack
                },
            ),
        ),
        HighlightEvent::Source { start, end } => match (
            char_index(code, start as int),
            char_index(code, end as int),
        ) {
            (Some(a), Some(b)) => if a > b {
                None
            } else {
                let piece = code.subrange(a, b);
                if stack.len() == 0 {
                    Some((push_text(w, unstyled(w.renderer, piece)), stack))
                } else if stack.last() < styles.len() {
                    Some(
                        (
                            push_text(
                                w,
                                write_text(styles[stack.last() as int], w.renderer, piece),
                            ),
                            stack,
                        ),
                    )
                } else {
                    None
                }
            },
            _ => None,
        },
    }
}

/// The writer and style stack after the first `n` events.
pub open spec fn events_run(
    code: Seq<char>,
    styles: Seq<StyleView>,
    w: WriterView,
    events: Seq<HighlightEvent>,
    n: nat,
) -> Option<(WriterView, Seq<usize>)>
    decreases n,
{
    if n == 0 {
        Some((w, Seq::empty()))
    } else {
        match events_run(code, styles, w, events, (n - 1) as nat) {
            None => None,
            Some(s) => event_step(code, styles, s, events[n - 1]),
        }
    }
}

/// The writer after all `events`, if they are valid.
pub open spec fn final_writer(
    code: Seq<char>,
    styles: Seq<StyleView>,
    w: WriterView,
    events: Seq<HighlightEvent>,
) -> Option<WriterView> {
    match events_run(code, styles, w, events, events.len()) {
        Some(s) => Some(s.0),
        None => None,
    }
}

/// The output of a writer, closed by its renderer's tail.
pub open spec fn closed_output(w: WriterView) -> Seq<char> {
    w.out + tail(w.renderer, w.inline)
}

/// The styles of a theme's highlights, in order.
pub open spec fn highlight_styles(h: Seq<(String, ThemeValue)>) -> Seq<StyleView> {
    h.map_values(|e: (String, ThemeValue)| e.1@)
}

pub open spec fn style_views(v: Seq<ThemeValue>) -> Seq<StyleView> {
    v.map_values(|t: ThemeValue| t@)
}

proof fn lemma_events_none(
    code: Seq<char>,
    styles: Seq<StyleView>,
    w: WriterView,
    events: Seq<HighlightEvent>,
    n: nat,
    m: nat,
)
    requires
        n <= m,
        events_run(code, styles, w, events, n) is None,
    ensures
        events_run(code, styles, w, events, m) is None,
    decreases m - n,
{
    if m > n {
        lemma_events_none(code, styles, w, events, n, (m - 1) as nat);
    }
}

/// Renders the highlighter's events into `writer`: source text inside a
/// highlight in that highlight's style, other source text escaped.
pub fn render_events(
    code: &Vec<char>,
    events: &Vec<HighlightEvent>,
    styles: &Vec<ThemeValue>,
    writer: &mut OutputWriter,
) -> (r: Result<(), TsError>)
    ensures
        match events_run(code@, style_views(styles@), old(writer)@, events@, events.len() as nat) {
            Some(s) => r is Ok && final(writer)@ == s.0,
            None => r matches Err(TsError::InvalidEvent),
        },
{
    let ghost sv = style_views(styles@);
    let ghost w0 = writer@;
    let mut stack: Vec<usize> = Vec::new();
    let mut i: usize = 0;
    while i < events.len()
        invariant
            i <= events.len(),
            sv == style_views(styles@),
            w0 == old(writer)@,
            events_run(code@, sv, w0, events@, i as nat) == Some((writer@, stack@)),
        decreases events.len() - i,
    {
        match events[i] {
            HighlightEvent::Start(h) => {
                stack.push(h);
            },
            HighlightEvent::End => {
                stack.pop();
            },
            HighlightEvent::Source { start, end } => {
                let a = char_index_exec(code, start);
                let b = char_index_exec(code, end);
                let (a, b) = match (a, b) {
                    (Some(a), Some(b)) => if a > b {
                        proof {
                            lemma_events_none(code@, sv, w0, events@, (i + 1) as nat, events.len() as nat);
                        }
                        return Err(TsError::InvalidEvent);
                    } else {
                        (a, b)
                    },
                    _ => {
                        proof {
                            lemma_events_none(code@, sv, w0, events@, (i + 1) as nat, events.len() as nat);
                        }
                        return Err(TsError::InvalidEvent);
                    },
                };
                let piece = slice(code, a, b);
                let renderer = writer.renderer();
                if stack.len() == 0 {
                    let text = renderer.unstyled(&piece);
                    writer.push_chars(&text);
                } else {
                    let s = stack[stack.len() - 1];
                    if s < styles.len() {
                        assert(sv[s as int] == styles@[s as int]@);
                        let text = styles[s].write_chars(renderer, &piece);
                        writer.push_chars(&text);
                    } else {
                        proof {
                            lemma_events_none(code@, sv, w0, events@, (i + 1) as nat, events.len() as nat);
                        }
                        return Err(TsError::InvalidEvent);
                    }
                }
            },
        }
        i += 1;
    }
    Ok(())
}

/// The patterns of a compiled query, with their start bytes and predicates.
fn pattern_infos(q: &tree_sitter::Query) -> (r: Vec<PatternInfo>)
    ensures
        patterns_view(r@) == query_patterns(*q),
{
    let n = pattern_count(q);
    let mut infos: Vec<PatternInfo> = Vec::new();
    let mut i: usize = 0;
    while i < n
        invariant
            n == pattern_starts(*q).len(),
            i <= n,
            patterns_view(infos@) == query_patterns(*q).take(i as int),
        decreases n - i,
    {
        let start_byte = start_byte_for_pattern(q, i);
        let predicates = general_predicates(q, i);
        let ghost before = patterns_view(infos@);
        infos.push(PatternInfo { start_byte, predicates });
        assert(patterns_view(infos@) =~= before.push(query_patterns(*q)[i as int]));
        assert(query_patterns(*q).take(i + 1) =~= query_patterns(*q).take(i as int).push(
            query_patterns(*q)[i as int],
        ));
        i += 1;
    }
    assert(query_patterns(*q).take(n as int) =~= query_patterns(*q));
    infos
}

/// The source of a compiled query with the convenience predicates of its
/// patterns rewritten into `match?` predicates.
pub fn rewrite_query(q: &tree_sitter::Query, source: &str) -> (r: Result<String, PredicateError>)
    ensures
        match normalized(source@, query_patterns(*q), query_capture_names(*q)) {
            Some(t) => r matches Ok(s) && s@ == t,
            None => r == Err::<String, PredicateError>(PredicateError::InvalidQuery),
        },
{
    let infos = pattern_infos(q);
    let names = capture_names(q);
    normalize_query(source, &infos, &names)
}

/// Compiles `source` for the grammar and rewrites its convenience
/// predicates into `match?` predicates. Which query the grammar compiles is
/// the engine's; what is done with it is `rewrite_query`.
pub fn process_queries(language: tree_sitter::Language, source: &str) -> (r: Result<String, TsError>)
    ensures
        r matches Ok(t) ==> exists|q: tree_sitter::Query|
            #[trigger] normalized(source@, query_patterns(q), query_capture_names(q)) == Some(t@),
        r matches Err(TsError::Predicate(_)) ==> exists|q: tree_sitter::Query|
            #[trigger] normalized(source@, query_patterns(q), query_capture_names(q)) is None,
        r is Err ==> r matches Err(TsError::Query(_)) || r matches Err(TsError::Predicate(_)),
{
    let query = match query_new(language, source) {
        Ok(q) => q,
        Err(e) => {
            return Err(TsError::Query(e));
        },
    };
    match rewrite_query(&query, source) {
        Ok(t) => Ok(t),
        Err(e) => Err(TsError::Predicate(e)),
    }
}

/// The names of a theme's highlights and their styles, in the same order.
pub fn get_settings(highlights: &Vec<(String, ThemeValue)>) -> (r: (Vec<String>, Vec<ThemeValue>))
    ensures
        r.0.len() == highlights.len(),
        r.1.len() == highlights.len(),
        forall|i: int| 0 <= i < highlights.len() ==> #[trigger] r.0@[i]@ == highlights@[i].0@,
        forall|i: int| 0 <= i < highlights.len() ==> #[trigger] r.1@[i]@ == highlights@[i].1@,
        crate::theme::keys_ascending(crate::theme::key_views(highlights@)) ==> crate::theme::keys_ascending(
            r.0@.map_values(|s: String| s@),
        ),
{
    let mut names: Vec<String> = Vec::new();
    let mut styles: Vec<ThemeValue> = Vec::new();
    let mut i: usize = 0;
    while i < highlights.len()
        invariant
            i <= highlights.len(),
            names.len() == i,
            styles.len() == i,
            forall|j: int| 0 <= j < i ==> #[trigger] names@[j]@ == highlights@[j].0@,
            forall|j: int| 0 <= j < i ==> #[trigger] styles@[j]@ == highlights@[j].1@,
        decreases highlights.len() - i,
    {
        names.push(highlights[i].0.clone());
        styles.push(highlights[i].1.clone());
        i += 1;
    }
    assert(names@.map_values(|s: String| s@) =~= crate::theme::key_views(highlights@));
    (names, styles)
}

/// Renders the events of highlighting `code` into `writer` and closes the
/// output; fails exactly where an event is invalid.
pub fn render_highlighted(
    code: &Vec<char>,
    events: &Vec<HighlightEvent>,
    writer: OutputWriter,
    highlights: &Vec<(String, ThemeValue)>,
) -> (r: Result<String, TsError>)
    ensures
        match final_writer(code@, highlight_styles(highlights@), writer@, events@) {
            Some(w) => r matches Ok(s) && s@ == closed_output(w),
            None => r matches Err(TsError::InvalidEvent),
        },
{
    let mut writer = writer;
    let (_names, styles) = get_settings(highlights);
    assert(style_views(styles@) =~= highlight_styles(highlights@));
    render_events(code, events, &styles, &mut writer)?;
    Ok(writer.finish())
}

/// Highlights `code` with tree-sitter and renders it: the queries are
/// rewritten first unless `raw_queries`, and each highlight name of the
/// theme is given its style.
pub fn highlight(
    code: &Vec<char>,
    writer: OutputWriter,
    raw_queries: bool,
    language: &LanguageQueries,
    highlights: &Vec<(String, ThemeValue)>,
) -> (r: Result<String, TsError>)
    ensures
        r matches Ok(s) ==> exists|events: Seq<HighlightEvent>|
            #[trigger] final_writer(code@, highlight_styles(highlights@), writer@, events) is Some
                && s@ == closed_output(
                final_writer(code@, highlight_styles(highlights@), writer@, events)->0,
            ),
        r matches Err(TsError::InvalidEvent) ==> exists|events: Seq<HighlightEvent>|
            #[trigger] final_writer(code@, highlight_styles(highlights@), writer@, events) is None,
        r matches Err(TsError::Predicate(_)) ==> !raw_queries && exists|q: tree_sitter::Query|
            #[trigger] query_patterns(q) == query_patterns(q) && (normalized(
                language.highlights_query@,
                query_patterns(q),
                query_capture_names(q),
            ) is None || normalized(
                language.injection_query@,
                query_patterns(q),
                query_capture_names(q),
            ) is None || normalized(
                language.locals_query@,
                query_patterns(q),
                query_capture_names(q),
            ) is None),
{
    let (names, _styles) = get_settings(highlights);
    let (h, i, l) = if raw_queries {
        (language.highlights_query.clone(), language.injection_query.clone(), language.locals_query.clone())
    } else {
        let h = match process_queries(language.inner, language.highlights_query.as_str()) {
            Ok(t) => t,
            Err(e) => {
                return Err(e);
            },
        };
        let i = match process_queries(language.inner, language.injection_query.as_str()) {
            Ok(t) => t,
            Err(e) => {
                return Err(e);
            },
        };
        let l = match process_queries(language.inner, language.locals_query.as_str()) {
            Ok(t) => t,
            Err(e) => {
                return Err(e);
            },
        };
        (h, i, l)
    };
    let mut config = match highlight_configuration(language.inner, h.as_str(), i.as_str(), l.as_str()) {
        Ok(c) => c,
        Err(e) => {
            return Err(TsError::Query(e));
        },
    };
    configure(&mut config, &names);
    let mut highlighter = highlighter_new();
    let source = crate::text::string_of(code);
    let events = match highlight_events(&mut highlighter, &config, source.as_str().as_bytes()) {
        Ok(v) => v,
        Err(e) => {
            return Err(TsError::Highlighter(e));
        },
    };
    render_highlighted(code, &events, writer, highlights)
}

} // verus!
