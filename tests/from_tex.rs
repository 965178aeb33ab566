use lirstings::from_tex::{parse_options, run};
use lirstings::range::RangeParseError;

fn pairs(v: &[(&str, &str)]) -> Vec<(String, String)> {
    v.iter().map(|(k, v)| (k.to_string(), v.to_string())).collect()
}

#[test]
fn options_with_braces_and_escapes() {
    let got = parse_options(" ranges = {2-4,7-9}, fancyvrb={frame=single,numbers=left} , caption = A \\{b\\} ");
    assert_eq!(got, pairs(&[("ranges", "2-4,7-9"), ("fancyvrb", "frame=single,numbers=left"), ("caption", "A \\{b\\}")]));
}

#[test]
fn nested_braces_are_kept() {
    assert_eq!(parse_options("caption={a {b} c}"), pairs(&[("caption", "a {b} c")]));
}

#[test]
fn blank_last_pair_is_dropped() {
    assert_eq!(parse_options("raw=true, label= "), pairs(&[("raw", "true")]));
    assert_eq!(parse_options(""), pairs(&[]));
}

#[test]
fn float_with_caption_and_label() {
    let t = run("float=htb, caption=Code, label=lst:a, continued=true, ranges={3-5}, raw=true").unwrap();
    assert!(!t.ansi && t.raw && !t.raw_queries);
    assert_eq!(t.ranges.len(), 1);
    assert_eq!((t.ranges[0].start, t.ranges[0].end), (2, 4));
    assert_eq!(t.prefix, "\\begin{listing}[htb]\\ContinuedFloat\n");
    assert_eq!(t.suffix, "\n\\vspace{-1\\baselineskip}\\caption{Code (cont.)}\\label{lst:a}\n\\end{listing}");
}

#[test]
fn wrapped_float_with_default_width() {
    let t = run("wrap=r, fancyvrb={xleftmargin=1em}").unwrap();
    assert_eq!(t.fancyvrb_args, "xleftmargin=1em");
    assert_eq!(t.prefix, "\\begin{wrapfloat}{listing}{r}{0.5\\textwidth}\n\\vspace{-1\\baselineskip}\n");
    assert_eq!(t.suffix, "\n\\end{wrapfloat}");
}

#[test]
fn no_float_no_surroundings() {
    let t = run("caption=x, path prefix=src/").unwrap();
    assert_eq!((t.prefix.as_str(), t.suffix.as_str()), ("", ""));
    assert_eq!(t.path_prefix.as_deref(), Some("src/"));
}

#[test]
fn ansi_listing_ignores_ranges() {
    let t = run("ansi=true, ranges={oops}").unwrap();
    assert!(t.ansi);
    assert!(t.ranges.is_empty());
}

#[test]
fn bad_range_is_reported() {
    assert_eq!(run("ranges={2-4,0-1}").unwrap_err(), RangeParseError::ZeroLine);
}
