use lirstings::cache::{Cache, CacheKey};
use lirstings::pipeline::{highlight, HighlightConfig, HighlightError, Outcome};
use lirstings::renderer::Renderer;
use lirstings::{Mode, Range, Theme, ThemeValue};

fn config(raw: bool, renderer: Renderer) -> HighlightConfig {
    HighlightConfig {
        mode: Mode::TreeSitter {
            raw,
            raw_queries: false,
            ranges: vec![Range::parse_literal("2-3").unwrap()],
            label: None,
            file_extension: "rs".into(),
        },
        theme: Theme {
            highlights: vec![("keyword".into(), ThemeValue::Color("$kw".into())), ("kw".into(), ThemeValue::Color("#ff0000".into()))],
            ansi_colors: vec![],
            comment_map: vec![],
        },
        fancyvrb_args: String::new(),
        renderer,
        additional_hash_value: 7,
    }
}

fn done(o: Outcome) -> String {
    match o {
        Outcome::Done(s) => s,
        Outcome::NeedsLanguage(_) => panic!("expected output"),
    }
}

#[test]
fn raw_rendering_is_cached_and_found_again() {
    let input = "a\n  {b}\n  c\nd\n";
    let mut cache = Cache::new();
    let first = done(highlight(input, &mut config(true, Renderer::Latex), &mut cache).unwrap());
    assert_eq!(
        first,
        "\\begin{Verbatim}[commandchars=×\\{\\},]\n×setcounter{LirstingsLineNo}{2}×{b×}\n×setcounter{LirstingsLineNo}{3}c\n\\end{Verbatim}"
    );
    assert_eq!(cache.len(), 1);
    let second = done(highlight(input, &mut config(true, Renderer::Latex), &mut cache).unwrap());
    assert_eq!(first, second);
    assert_eq!(cache.len(), 1);
}

#[test]
fn cached_output_is_returned_without_highlighting() {
    let input = "x\ny\nz\n";
    let mut cfg = config(false, Renderer::Html);
    let mut cache = Cache::new();
    let prepared = match highlight(input, &mut cfg, &mut cache).unwrap() {
        Outcome::NeedsLanguage(p) => p,
        Outcome::Done(_) => panic!("nothing was cached yet"),
    };
    cache.set_entry(prepared.key, "stored".to_string());
    let again = highlight(input, &mut config(false, Renderer::Html), &mut cache).unwrap();
    assert_eq!(done(again), "stored");
}

#[test]
fn fingerprint_depends_on_every_input() {
    let mut a = config(true, Renderer::Latex);
    a.theme.resolve_links().unwrap();
    let k = CacheKey::new(&a.mode, "code", &a.theme, Renderer::Latex, 7);
    assert_eq!(k, CacheKey::new(&a.mode, "code", &a.theme, Renderer::Latex, 7));
    assert_ne!(k, CacheKey::new(&a.mode, "code2", &a.theme, Renderer::Latex, 7));
    assert_ne!(k, CacheKey::new(&a.mode, "code", &a.theme, Renderer::Html, 7));
    assert_ne!(k, CacheKey::new(&a.mode, "code", &a.theme, Renderer::Latex, 8));
    assert_ne!(k, CacheKey::new(&Mode::Ansi, "code", &a.theme, Renderer::Latex, 7));
}

#[test]
fn ansi_needs_the_full_palette() {
    let mut cfg = config(false, Renderer::Latex);
    cfg.mode = Mode::Ansi;
    let r = highlight("x", &mut cfg, &mut Cache::new());
    assert!(matches!(r, Err(HighlightError::MissingAnsiColors)));
}

#[test]
fn theme_and_range_errors_reach_the_caller() {
    let mut cfg = config(true, Renderer::Latex);
    cfg.theme.highlights.push(("bad".into(), ThemeValue::Color("$missing".into())));
    assert!(matches!(highlight("a\nb\nc\n", &mut cfg, &mut Cache::new()), Err(HighlightError::Theme(_))));
    let r = highlight("only one line\n", &mut config(true, Renderer::Latex), &mut Cache::new());
    assert!(matches!(r, Err(HighlightError::Snippet(_))));
}
