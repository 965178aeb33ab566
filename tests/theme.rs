use lirstings::renderer::Renderer;
use lirstings::theme::ThemeError;
use lirstings::{Theme, ThemeValue};

fn obj(color: Option<&str>, bold: bool, italic: bool, link: Option<&str>) -> ThemeValue {
    ThemeValue::Object {
        color: color.map(String::from),
        underline: false,
        strikethrough: false,
        italic,
        bold,
        link: link.map(String::from),
    }
}

fn fields(v: &ThemeValue) -> (Option<String>, bool, bool, bool, bool, Option<String>) {
    match v {
        ThemeValue::Object { color, underline, strikethrough, italic, bold, link } => {
            (color.clone(), *underline, *strikethrough, *italic, *bold, link.clone())
        }
        ThemeValue::Color(c) => (Some(format!("bare {c}")), false, false, false, false, None),
    }
}

fn theme(highlights: Vec<(&str, ThemeValue)>) -> Theme {
    Theme {
        highlights: highlights.into_iter().map(|(k, v)| (k.to_string(), v)).collect(),
        ansi_colors: vec![],
        comment_map: vec![],
    }
}

#[test]
fn styled_linked_to_color_takes_the_color() {
    let styled = obj(None, true, false, Some("white"));
    let r = styled.linked_to(&ThemeValue::Color("#fff".into()));
    assert_eq!(fields(&r), (Some("#fff".into()), false, false, false, true, None));
}

#[test]
fn styled_keeps_own_color_and_merges_flags() {
    let a = obj(Some("#111111"), true, false, Some("b"));
    let b = obj(Some("#222222"), false, true, Some("c"));
    assert_eq!(fields(&a.linked_to(&b)), (Some("#111111".into()), false, false, true, true, Some("c".into())));
    let none = obj(None, false, false, Some("b"));
    assert_eq!(fields(&none.linked_to(&b)).0, Some("#222222".into()));
}

#[test]
fn color_linked_to_anything_copies_it() {
    let b = obj(Some("#222222"), true, false, None);
    let r = ThemeValue::Color("$b".into()).linked_to(&b);
    assert_eq!(fields(&r), fields(&b));
}

#[test]
fn chains_resolve_to_fixed_point() {
    let mut t = theme(vec![
        ("a", ThemeValue::Color("$b".into())),
        ("b", obj(None, true, false, Some("c"))),
        ("c", ThemeValue::Color("#abcdef".into())),
        ("d", obj(None, false, true, Some("b"))),
    ]);
    t.resolve_links().unwrap();
    for (_, v) in &t.highlights {
        assert!(v.link_key().is_none());
    }
    assert_eq!(fields(&t.highlights[0].1), (Some("#abcdef".into()), false, false, false, true, None));
    assert_eq!(fields(&t.highlights[3].1), (Some("#abcdef".into()), false, false, true, true, None));
}

#[test]
fn unknown_link_is_an_error() {
    let mut t = theme(vec![("a", ThemeValue::Color("$nope".into()))]);
    assert_eq!(t.resolve_links(), Err(ThemeError::UnknownLinkKey("nope".into())));
}

#[test]
fn cycle_is_an_error() {
    let mut t = theme(vec![
        ("a", ThemeValue::Color("$b".into())),
        ("b", ThemeValue::Color("$a".into())),
    ]);
    assert_eq!(t.resolve_links(), Err(ThemeError::LinkCycle));
}

#[test]
fn write_latex_styles_each_line() {
    let v = obj(Some("#ff0000"), true, true, None);
    assert_eq!(v.write(Renderer::Latex, "a{b}\nc"), "×textcolor[HTML]{ff0000}{×textit{×textbf{a×{b×}}}}\n×textcolor[HTML]{ff0000}{×textit{×textbf{c}}}");
    assert_eq!(ThemeValue::Color("#00ff00".into()).write(Renderer::Latex, "x"), "×textcolor[HTML]{00ff00}{x}");
}

#[test]
fn write_html_and_colorless_style() {
    let v = obj(Some("#ff0000"), true, false, None);
    assert_eq!(v.write(Renderer::Html, "a<b"), "<span style=\"color: #ff0000;font-weight: bold;\">a&lt;b</span>");
    assert_eq!(obj(None, true, false, None).write(Renderer::Latex, "gone"), "");
}

#[test]
fn object_linking_to_a_color_link_takes_the_resolved_color() {
    let mut t = theme(vec![
        ("a", obj(None, true, false, Some("b"))),
        ("b", ThemeValue::Color("$c".into())),
        ("c", ThemeValue::Color("#fff".into())),
    ]);
    t.resolve_links().unwrap();
    assert_eq!(fields(&t.highlights[0].1), (Some("#fff".into()), false, false, false, true, None));
    assert_eq!(fields(&t.highlights[1].1), fields(&ThemeValue::Color("#fff".into())));
}

#[test]
fn failed_resolution_changes_nothing() {
    let mut t = theme(vec![
        ("a", ThemeValue::Color("$b".into())),
        ("b", ThemeValue::Color("$a".into())),
        ("c", obj(None, false, false, Some("d"))),
        ("d", ThemeValue::Color("#000000".into())),
    ]);
    assert_eq!(t.resolve_links(), Err(ThemeError::LinkCycle));
    assert_eq!(fields(&t.highlights[0].1), fields(&ThemeValue::Color("$b".into())));
    assert_eq!(fields(&t.highlights[2].1), (None, false, false, false, false, Some("d".into())));
}
