use lirstings::ts::{render_highlighted, HighlightEvent};
use lirstings::ThemeValue;
use lirstings::ansi;
use lirstings::output::{LineNumbers, OutputWriter};
use lirstings::renderer::Renderer;

fn chars(s: &str) -> Vec<char> {
    s.chars().collect()
}

#[test]
fn latex_writer_numbers_lines_from_the_list() {
    let mut w = OutputWriter::new(LineNumbers::listed(vec![2, 3, 0, 7]), false, "xleftmargin=1em", Some("f.rs".to_string()), Renderer::Latex);
    w.push_str("a\nb\n");
    w.push_str("c\nd\ne");
    let out = w.finish();
    assert_eq!(
        out,
        "\\begin{Verbatim}[commandchars=×\\{\\},label={\\footnotesize f.rs},xleftmargin=1em]\n×setcounter{LirstingsLineNo}{2}a\n×setcounter{LirstingsLineNo}{3}b\n×setcounter{LirstingsLineNo}{0}c\n×setcounter{LirstingsLineNo}{7}d\n×setcounter{LirstingsLineNo}{0}e\n\\end{Verbatim}"
    );
}

#[test]
fn latex_inline_writer_drops_line_feeds() {
    let mut w = OutputWriter::new(LineNumbers::counting(), true, "", None, Renderer::Latex);
    w.push_str("x\ny");
    assert_eq!(w.finish(), "\\Verb[commandchars=×\\{\\}]{xy}");
}

#[test]
fn html_writer_counts_from_one() {
    let mut w = OutputWriter::new(LineNumbers::counting(), false, "", None, Renderer::Html);
    w.push_str("a\nb");
    assert_eq!(w.finish(), "a\nb");
}

#[test]
fn line_numbers_run_out_to_zero() {
    let mut n = LineNumbers::listed(vec![5]);
    assert_eq!(n.next(), 5);
    assert_eq!(n.next(), 0);
    let mut c = LineNumbers::counting();
    assert_eq!((c.next(), c.next()), (1, 2));
}

#[test]
fn escaping() {
    assert_eq!(Renderer::Latex.unstyled(&chars("{x}")), chars("×{x×}"));
    assert_eq!(Renderer::Html.unstyled(&chars("a & b<\t>\n")), chars("a&nbsp;<wbr>&amp;&nbsp;<wbr>b&lt;&nbsp;&nbsp;&nbsp;&nbsp;<wbr>&gt;<br>"));
}

#[test]
fn styled_markup() {
    let mut out = vec![];
    Renderer::Latex.styled(&mut out, &chars("t"), "#123456", true, true, false, false);
    assert_eq!(out, chars("×textcolor[HTML]{123456}{×uline{×sout{t}}}"));
    let mut html = vec![];
    Renderer::Html.styled(&mut html, &chars("t"), "#123456", true, true, true, false);
    assert_eq!(html, chars("<span style=\"color: #123456;text-decoration: underline line-through;font-style: italic;\">t</span>"));
}

fn palette() -> Vec<String> {
    (0..256).map(|i| format!("C{i}")).collect()
}

#[test]
fn ansi_colors_and_bold() {
    let out = ansi::highlight("plain \x1b[1;31mred{}\x1b[0m end", "", &palette());
    assert_eq!(
        out,
        "\\begin{Verbatim}[commandchars=×\\{\\},numbers=none,]\nplain ×textbf{×textcolor[HTML]{C1}{red×{×}}} end\n\\end{Verbatim}"
    );
}

#[test]
fn ansi_rgb_and_reset_of_one_attribute() {
    let out = ansi::highlight("\x1b[38;2;255;0;16mA\x1b[4mB\x1b[24mC", "x=1", &palette());
    assert_eq!(
        out,
        "\\begin{Verbatim}[commandchars=×\\{\\},numbers=none,x=1]\n×textcolor[HTML]{ff0010}{A}×textcolor[HTML]{ff0010}{×uline{B}}×textcolor[HTML]{ff0010}{C}\n\\end{Verbatim}"
    );
}

#[test]
fn ansi_multiline_text_closes_each_line() {
    let out = ansi::highlight("\x1b[42mab\ncd", "", &palette());
    assert_eq!(
        out,
        "\\begin{Verbatim}[commandchars=×\\{\\},numbers=none,]\n×colorbox[HTML]{C2}{ab}\n×colorbox[HTML]{C2}{cd}\n\\end{Verbatim}"
    );
}

#[test]
fn highlight_events_render_in_their_styles() {
    let code = chars("fn x{}");
    let events = vec![
        HighlightEvent::Start(0),
        HighlightEvent::Source { start: 0, end: 2 },
        HighlightEvent::End,
        HighlightEvent::Source { start: 2, end: 6 },
    ];
    let highlights = vec![("keyword".to_string(), ThemeValue::Color("#ff0000".into()))];
    let w = OutputWriter::new(LineNumbers::counting(), true, "", None, Renderer::Latex);
    let out = render_highlighted(&code, &events, w, &highlights).unwrap();
    assert_eq!(out, "\\Verb[commandchars=×\\{\\}]{×textcolor[HTML]{ff0000}{fn} x×{×}}");
    let bad = vec![HighlightEvent::Start(3), HighlightEvent::Source { start: 0, end: 1 }];
    let w = OutputWriter::new(LineNumbers::counting(), true, "", None, Renderer::Latex);
    assert!(render_highlighted(&code, &bad, w, &highlights).is_err());
    let split = vec![HighlightEvent::Source { start: 0, end: 9 }];
    let w = OutputWriter::new(LineNumbers::counting(), true, "", None, Renderer::Latex);
    assert!(render_highlighted(&code, &split, w, &highlights).is_err());
}
