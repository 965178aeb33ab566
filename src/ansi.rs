//! Rendering of text with ANSI escape sequences (SGR colors and font
//! styles) as a LaTeX listing.
use vstd::prelude::*;

use crate::query::find_seq;
use crate::range::{digits_value, digits_value_exec, is_digit};
use crate::renderer::{after_first, braces, unstyled, Renderer};
use crate::text::{append, append_str, chars_of, join_nl, slice, split_exec, split_on, string_of, views};

verus! {

/// A color of the terminal: one of its 256 numbered colors, or RGB.
#[derive(Debug, Clone, Copy, PartialEq, Eq)]
pub enum AnsiColor {
    Simple(u8),
    Rgb(u8, u8, u8),
}

/// A text attribute that an escape sequence switches on.
#[derive(Debug, Clone, Copy, PartialEq, Eq)]
pub enum AnsiStyle {
    Bold,
    Italic,
    Underline,
    Fg(AnsiColor),
    Bg(AnsiColor),
}

/// Kinds of attributes that an escape sequence switches off.
#[derive(Debug, Clone, Copy, PartialEq, Eq, Structural)]
pub enum StyleKind {
    Bold,
    Italic,
    Underline,
    Fg,
    Bg,
}

pub open spec fn kind_of(s: AnsiStyle) -> StyleKind {
    match s {
        AnsiStyle::Bold => StyleKind::Bold,
        AnsiStyle::Italic => StyleKind::Italic,
        AnsiStyle::Underline => StyleKind::Underline,
        AnsiStyle::Fg(_) => StyleKind::Fg,
        AnsiStyle::Bg(_) => StyleKind::Bg,
    }
}

/// The attributes without those of kind `k`.
pub open spec fn without(s: Seq<AnsiStyle>, k: StyleKind) -> Seq<AnsiStyle>
    decreases s.len(),
{
    if s.len() == 0 {
        s
    } else if kind_of(s.last()) == k {
        without(s.drop_last(), k)
    } else {
        without(s.drop_last(), k).push(s.last())
    }
}

/// `a` without a leading `+`.
pub open spec fn unsigned_part(a: Seq<char>) -> Seq<char> {
    if a.len() > 0 && a[0] == '+' {
        a.drop_first()
    } else {
        a
    }
}

pub open spec fn all_digits(d: Seq<char>) -> bool {
    forall|i: int| 0 <= i < d.len() ==> is_digit(#[trigger] d[i])
}

/// The number that `a` denotes as a `u8`: an optional `+`, then decimal
/// digits, at most 255.
pub open spec fn parse_u8(a: Seq<char>) -> Option<u8> {
    let d = unsigned_part(a);
    if d.len() > 0 && all_digits(d) && digits_value(d) <= 255 {
        Some(digits_value(d) as u8)
    } else {
        None
    }
}

pub open spec fn fg_or_bg(fg: bool, c: AnsiColor) -> AnsiStyle {
    if fg {
        AnsiStyle::Fg(c)
    } else {
        AnsiStyle::Bg(c)
    }
}

/// The color set by the arguments from index `j` on, after a `38` (`fg`)
/// or `48`, and the index of the first argument not used: `5;n` is color
/// `n`, `2;r;g;b` is an RGB color.
pub open spec fn color_arg(args: Seq<Seq<char>>, j: int, fg: bool) -> (Option<AnsiStyle>, int) {
    if j >= args.len() {
        (None, j)
    } else {
        match parse_u8(args[j]) {
            None => (None, j + 1),
            Some(kind) => if kind == 5 {
                if j + 1 >= args.len() {
                    (None, j + 1)
                } else {
                    match parse_u8(args[j + 1]) {
                        None => (None, j + 2),
                        Some(c) => (Some(fg_or_bg(fg, AnsiColor::Simple(c))), j + 2),
                    }
                }
            } else if kind == 2 {
                if j + 1 >= args.len() {
                    (None, j + 1)
                } else {
                    match parse_u8(args[j + 1]) {
                        None => (None, j + 2),
                        Some(r) => if j + 2 >= args.len() {
                            (None, j + 2)
                        } else {
                            match parse_u8(args[j + 2]) {
                                None => (None, j + 3),
                                Some(g) => if j + 3 >= args.len() {
                                    (None, j + 3)
                                } else {
                                    match parse_u8(args[j + 3]) {
                                        None => (None, j + 4),
                                        Some(b) => (
                                            Some(fg_or_bg(fg, AnsiColor::Rgb(r, g, b))),
                                            j + 4,
                                        ),
                                    }
                                },
                            }
                        },
                    }
                }
            } else {
                (None, j + 1)
            },
        }
    }
}

pub open spec fn push_opt(s: Seq<AnsiStyle>, o: Option<AnsiStyle>) -> Seq<AnsiStyle> {
    match o {
        Some(x) => s.push(x),
        None => s,
    }
}

/// The attributes after the arguments from index `i` on are applied.
pub open spec fn apply_args(args: Seq<Seq<char>>, i: int, styles: Seq<AnsiStyle>) -> Seq<AnsiStyle>
    decreases args.len() - i,
{
    if i < 0 || i >= args.len() {
        styles
    } else if args[i].len() == 0 {
        apply_args(args, i + 1, Seq::empty())
    } else {
        match parse_u8(args[i]) {
            None => apply_args(args, i + 1, styles),
            Some(n) => if n == 0 {
                apply_args(args, i + 1, Seq::empty())
            } else if n == 1 {
                apply_args(args, i + 1, styles.push(AnsiStyle::Bold))
            } else if n == 3 {
                apply_args(args, i + 1, styles.push(AnsiStyle::Italic))
            } else if n == 4 {
                apply_args(args, i + 1, styles.push(AnsiStyle::Underline))
            } else if n == 22 {
                apply_args(args, i + 1, without(styles, StyleKind::Bold))
            } else if n == 23 {
                apply_args(args, i + 1, without(styles, StyleKind::Italic))
            } else if n == 24 {
                apply_args(args, i + 1, without(styles, StyleKind::Underline))
            } else if 30 <= n <= 37 {
                apply_args(args, i + 1, styles.push(AnsiStyle::Fg(AnsiColor::Simple((n - 30) as u8))))
            } else if n == 39 {
                apply_args(args, i + 1, without(styles, StyleKind::Fg))
            } else if 40 <= n <= 47 {
                apply_args(args, i + 1, styles.push(AnsiStyle::Bg(AnsiColor::Simple((n - 40) as u8))))
            } else if n == 49 {
                apply_args(args, i + 1, without(styles, StyleKind::Bg))
            } else if 90 <= n <= 97 {
                apply_args(args, i + 1, styles.push(AnsiStyle::Fg(AnsiColor::Simple((n - 82) as u8))))
            } else if 100 <= n <= 107 {
                apply_args(args, i + 1, styles.push(AnsiStyle::Bg(AnsiColor::Simple((n - 92) as u8))))
            } else if n == 38 || n == 48 {
                let c = color_arg(args, i + 1, args[i] == "38"@);
                apply_args(
                    args,
                    if c.1 > i {
                        c.1
                    } else {
                        i + 1
                    },
                    push_opt(styles, c.0),
                )
            } else {
                apply_args(args, i + 1, styles)
            },
        }
    }
}

pub open spec fn hex_digit(n: nat) -> char {
    if n < 10 {
        crate::text::digit_char(n)
    } else if n == 10 {
        'a'
    } else if n == 11 {
        'b'
    } else if n == 12 {
        'c'
    } else if n == 13 {
        'd'
    } else if n == 14 {
        'e'
    } else {
        'f'
    }
}

/// A byte as two lowercase hexadecimal digits.
pub open spec fn hex2(b: u8) -> Seq<char> {
    seq![hex_digit((b / 16) as nat), hex_digit((b % 16) as nat)]
}

pub open spec fn color_text(c: AnsiColor, colors: Seq<Seq<char>>) -> Seq<char> {
    match c {
        AnsiColor::Simple(n) => colors[n as int],
        AnsiColor::Rgb(r, g, b) => hex2(r) + hex2(g) + hex2(b),
    }
}

/// The LaTeX command that opens one attribute.
pub open spec fn style_cmd(s: AnsiStyle, colors: Seq<Seq<char>>) -> Seq<char> {
    match s {
        AnsiStyle::Bold => "×textbf{"@,
        AnsiStyle::Italic => "×textit{"@,
        AnsiStyle::Underline => "×uline{"@,
        AnsiStyle::Fg(c) => "×textcolor[HTML]{"@ + color_text(c, colors) + "}{"@,
        AnsiStyle::Bg(c) => "×colorbox[HTML]{"@ + color_text(c, colors) + "}{"@,
    }
}

pub open spec fn cmds(styles: Seq<AnsiStyle>, colors: Seq<Seq<char>>) -> Seq<char>
    decreases styles.len(),
{
    if styles.len() == 0 {
        Seq::empty()
    } else {
        cmds(styles.drop_last(), colors) + style_cmd(styles.last(), colors)
    }
}

/// One line of text with the attributes in force.
pub open spec fn styled_line(styles: Seq<AnsiStyle>, colors: Seq<Seq<char>>, line: Seq<char>) -> Seq<
    char,
> {
    cmds(styles, colors) + unstyled(Renderer::Latex, line) + braces(styles.len())
}

/// The output for the text after one escape sequence, and the attributes
/// in force after it.
pub open spec fn part_step(styles: Seq<AnsiStyle>, colors: Seq<Seq<char>>, part: Seq<char>) -> (
    Seq<char>,
    Seq<AnsiStyle>,
) {
    let p0 = if part.len() > 0 && part[0] == '[' {
        Seq::empty()
    } else {
        seq!['\x1b'] + part
    };
    match find_seq(part, seq!['m'], 0) {
        None => (p0 + seq!['\x1b'] + part, styles),
        Some(m) => {
            let st = apply_args(split_on(after_first(part.take(m)), ';'), 0, styles);
            (
                p0 + join_nl(
                    split_on(part.skip(m + 1), '\n').map_values(
                        |l: Seq<char>| styled_line(st, colors, l),
                    ),
                ),
                st,
            )
        },
    }
}

/// The output for the first `n` pieces between escape characters.
pub open spec fn parts_run(parts: Seq<Seq<char>>, colors: Seq<Seq<char>>, n: nat) -> (
    Seq<char>,
    Seq<AnsiStyle>,
)
    decreases n,
{
    if n <= 1 {
        (parts[0], Seq::empty())
    } else {
        let prev = parts_run(parts, colors, (n - 1) as nat);
        let step = part_step(prev.1, colors, parts[n - 1]);
        (prev.0 + step.0, step.1)
    }
}

/// The listing of `input`: its text with the attributes that its escape
/// sequences switch on and off.
pub open spec fn ansi_listing(input: Seq<char>, extra_args: Seq<char>, colors: Seq<Seq<char>>) -> Seq<
    char,
> {
    let parts = split_on(input, '\x1b');
    "\\begin{Verbatim}[commandchars=×\\{\\},numbers=none,"@ + extra_args + "]\n"@ + parts_run(
        parts,
        colors,
        parts.len(),
    ).0 + "\n\\end{Verbatim}"@
}

fn parse_u8_exec(a: &Vec<char>) -> (r: Option<u8>)
    ensures
        r == parse_u8(a@),
{
    let from: usize = if a.len() > 0 && a[0] == '+' { 1 } else { 0 };
    let ghost d = unsigned_part(a@);
    assert(d =~= a@.subrange(from as int, a.len() as int));
    if from >= a.len() {
        return None;
    }
    let mut k: usize = from;
    while k < a.len()
        invariant
            from <= k <= a.len(),
            d == unsigned_part(a@),
            d == a@.subrange(from as int, a.len() as int),
            forall|j: int| from <= j < k ==> is_digit(#[trigger] a@[j]),
        decreases a.len() - k,
    {
        if !('0' <= a[k] && a[k] <= '9') {
            assert(d[k - from] == a@[k as int]);
            assert(!is_digit(d[k - from]));
            assert(!all_digits(d));
            return None;
        }
        k += 1;
    }
    assert forall|i: int| 0 <= i < d.len() implies is_digit(#[trigger] d[i]) by {
        assert(d[i] == a@[i + from]);
    }
    match digits_value_exec(a, from, a.len()) {
        Some(v) => if v <= 255 {
            Some(v as u8)
        } else {
            None
        },
        None => None,
    }
}

fn fg_or_bg_exec(fg: bool, c: AnsiColor) -> (r: AnsiStyle)
    ensures
        r == fg_or_bg(fg, c),
{
    if fg {
        AnsiStyle::Fg(c)
    } else {
        AnsiStyle::Bg(c)
    }
}

fn parse_color(args: &Vec<Vec<char>>, j: usize, fg: bool) -> (r: (Option<AnsiStyle>, usize))
    requires
        j <= args.len(),
    ensures
        (r.0, r.1 as int) == color_arg(views(args@), j as int, fg),
{
    let ghost av = views(args@);
    if j >= args.len() {
        return (None, j);
    }
    assert(av[j as int] == args@[j as int]@);
    match parse_u8_exec(&args[j]) {
        None => (None, j + 1),
        Some(kind) => if kind == 5 {
            if j + 1 >= args.len() {
                (None, j + 1)
            } else {
                assert(av[j + 1] == args@[j + 1]@);
                match parse_u8_exec(&args[j + 1]) {
                    None => (None, j + 2),
                    Some(c) => (Some(fg_or_bg_exec(fg, AnsiColor::Simple(c))), j + 2),
                }
            }
        } else if kind == 2 {
            if j + 1 >= args.len() {
                return (None, j + 1);
            }
            assert(av[j + 1] == args@[j + 1]@);
            let r = match parse_u8_exec(&args[j + 1]) {
                None => {
                    return (None, j + 2);
                },
                Some(r) => r,
            };
            if j + 2 >= args.len() {
                return (None, j + 2);
            }
            assert(av[j + 2] == args@[j + 2]@);
            let g = match parse_u8_exec(&args[j + 2]) {
                None => {
                    return (None, j + 3);
                },
                Some(g) => g,
            };
            if j + 3 >= args.len() {
                return (None, j + 3);
            }
            assert(av[j + 3] == args@[j + 3]@);
            match parse_u8_exec(&args[j + 3]) {
                None => (None, j + 4),
                Some(b) => (Some(fg_or_bg_exec(fg, AnsiColor::Rgb(r, g, b))), j + 4),
            }
        } else {
            (None, j + 1)
        },
    }
}

fn kind_of_exec(s: AnsiStyle) -> (r: StyleKind)
    ensures
        r == kind_of(s),
{
    match s {
        AnsiStyle::Bold => StyleKind::Bold,
        AnsiStyle::Italic => StyleKind::Italic,
        AnsiStyle::Underline => StyleKind::Underline,
        AnsiStyle::Fg(_) => StyleKind::Fg,
        AnsiStyle::Bg(_) => StyleKind::Bg,
    }
}

fn without_exec(s: &Vec<AnsiStyle>, k: StyleKind) -> (r: Vec<AnsiStyle>)
    ensures
        r@ == without(s@, k),
{
    let mut out: Vec<AnsiStyle> = Vec::new();
    let mut i: usize = 0;
    assert(s@.take(0) =~= Seq::<AnsiStyle>::empty());
    while i < s.len()
        invariant
            i <= s.len(),
            out@ == without(s@.take(i as int), k),
        decreases s.len() - i,
    {
        assert(s@.take(i + 1).drop_last() =~= s@.take(i as int));
        if kind_of_exec(s[i]) != k {
            out.push(s[i]);
        }
        i += 1;
    }
    assert(s@.take(s.len() as int) =~= s@);
    out
}

fn apply_args_exec(args: &Vec<Vec<char>>, styles: Vec<AnsiStyle>) -> (r: Vec<AnsiStyle>)
    ensures
        r@ == apply_args(views(args@), 0, styles@),
{
    let ghost av = views(args@);
    let ghost s0 = styles@;
    let mut styles = styles;
    let mut i: usize = 0;
    let thirty_eight = chars_of("38");
    while i < args.len()
        invariant
            i <= args.len(),
            av == views(args@),
            thirty_eight@ == "38"@,
            apply_args(av, 0, s0) == apply_args(av, i as int, styles@),
        decreases args.len() - i,
    {
        assert(av[i as int] == args@[i as int]@);
        let a = &args[i];
        if a.len() == 0 {
            styles = Vec::new();
            i += 1;
            continue;
        }
        match parse_u8_exec(a) {
            None => {},
            Some(n) => if n == 0 {
                styles = Vec::new();
            } else if n == 1 {
                styles.push(AnsiStyle::Bold);
            } else if n == 3 {
                styles.push(AnsiStyle::Italic);
            } else if n == 4 {
                styles.push(AnsiStyle::Underline);
            } else if n == 22 {
                styles = without_exec(&styles, StyleKind::Bold);
            } else if n == 23 {
                styles = without_exec(&styles, StyleKind::Italic);
            } else if n == 24 {
                styles = without_exec(&styles, StyleKind::Underline);
            } else if 30 <= n && n <= 37 {
                styles.push(AnsiStyle::Fg(AnsiColor::Simple(n - 30)));
            } else if n == 39 {
                styles = without_exec(&styles, StyleKind::Fg);
            } else if 40 <= n && n <= 47 {
                styles.push(AnsiStyle::Bg(AnsiColor::Simple(n - 40)));
            } else if n == 49 {
                styles = without_exec(&styles, StyleKind::Bg);
            } else if 90 <= n && n <= 97 {
                styles.push(AnsiStyle::Fg(AnsiColor::Simple(n - 82)));
            } else if 100 <= n && n <= 107 {
                styles.push(AnsiStyle::Bg(AnsiColor::Simple(n - 92)));
            } else if n == 38 || n == 48 {
                let fg = crate::text::chars_eq(a, &thirty_eight);
                let (c, next) = parse_color(args, i + 1, fg);
                match c {
                    Some(x) => styles.push(x),
                    None => {},
                }
                assert(next > i);
                i = next;
                continue;
            },
        }
        i += 1;
    }
    styles
}

fn hex_digit_exec(n: u8) -> (r: char)
    requires
        n < 16,
    ensures
        r == hex_digit(n as nat),
{
    if n < 10 {
        if n == 0 { '0' } else if n == 1 { '1' } else if n == 2 { '2' } else if n == 3 { '3' }
        else if n == 4 { '4' } else if n == 5 { '5' } else if n == 6 { '6' } else if n == 7 { '7' }
        else if n == 8 { '8' } else { '9' }
    } else if n == 10 {
        'a'
    } else if n == 11 {
        'b'
    } else if n == 12 {
        'c'
    } else if n == 13 {
        'd'
    } else if n == 14 {
        'e'
    } else {
        'f'
    }
}

fn push_hex2(out: &mut Vec<char>, b: u8)
    ensures
        final(out)@ == old(out)@ + hex2(b),
{
    out.push(hex_digit_exec(b / 16));
    out.push(hex_digit_exec(b % 16));
    assert(final(out)@ =~= old(out)@ + hex2(b));
}

pub open spec fn colors_view(colors: Seq<String>) -> Seq<Seq<char>> {
    colors.map_values(|c: String| c@)
}

fn push_style_cmd(out: &mut Vec<char>, st: AnsiStyle, colors: &Vec<String>)
    requires
        colors.len() >= 256,
    ensures
        final(out)@ == old(out)@ + style_cmd(st, colors_view(colors@)),
{
    let ghost o = old(out)@;
    match st {
        AnsiStyle::Bold => append_str(out, "×textbf{"),
        AnsiStyle::Italic => append_str(out, "×textit{"),
        AnsiStyle::Underline => append_str(out, "×uline{"),
        AnsiStyle::Fg(c) => {
            append_str(out, "×textcolor[HTML]{");
            push_color(out, c, colors);
            append_str(out, "}{");
            assert(out@ =~= o + style_cmd(st, colors_view(colors@)));
        },
        AnsiStyle::Bg(c) => {
            append_str(out, "×colorbox[HTML]{");
            push_color(out, c, colors);
            append_str(out, "}{");
            assert(out@ =~= o + style_cmd(st, colors_view(colors@)));
        },
    }
}

fn push_color(out: &mut Vec<char>, c: AnsiColor, colors: &Vec<String>)
    requires
        colors.len() >= 256,
    ensures
        final(out)@ == old(out)@ + color_text(c, colors_view(colors@)),
{
    match c {
        AnsiColor::Simple(n) => {
            append_str(out, colors[n as usize].as_str());
        },
        AnsiColor::Rgb(r, g, b) => {
            let ghost o = out@;
            push_hex2(out, r);
            push_hex2(out, g);
            push_hex2(out, b);
            assert(out@ =~= o + color_text(c, colors_view(colors@)));
        },
    }
}

fn styled_line_exec(out: &mut Vec<char>, styles: &Vec<AnsiStyle>, colors: &Vec<String>, line: &Vec<char>)
    requires
        colors.len() >= 256,
    ensures
        final(out)@ == old(out)@ + styled_line(styles@, colors_view(colors@), line@),
{
    let ghost o = old(out)@;
    let ghost cv = colors_view(colors@);
    let mut i: usize = 0;
    assert(styles@.take(0) =~= Seq::<AnsiStyle>::empty());
    assert(out@ =~= o + cmds(styles@.take(0), cv));
    while i < styles.len()
        invariant
            i <= styles.len(),
            colors.len() >= 256,
            cv == colors_view(colors@),
            out@ == o + cmds(styles@.take(i as int), cv),
        decreases styles.len() - i,
    {
        assert(styles@.take(i + 1).drop_last() =~= styles@.take(i as int));
        push_style_cmd(out, styles[i], colors);
        i += 1;
        assert(out@ =~= o + cmds(styles@.take(i as int), cv));
    }
    assert(styles@.take(styles.len() as int) =~= styles@);
    let esc = Renderer::Latex.unstyled(line);
    append(out, &esc);
    let close = braces_exec(styles.len());
    append(out, &close);
    assert(out@ =~= o + styled_line(styles@, cv, line@));
}

fn braces_exec(n: usize) -> (r: Vec<char>)
    ensures
        r@ == braces(n as nat),
{
    let mut close: Vec<char> = Vec::new();
    let mut k: usize = 0;
    while k < n
        invariant
            k <= n,
            close@ == braces(k as nat),
        decreases n - k,
    {
        close.push('}');
        k += 1;
        assert(close@ =~= braces(k as nat));
    }
    close
}

/// The output for one piece after an escape character, and the attributes
/// in force after it.
fn part_step_exec(styles: Vec<AnsiStyle>, colors: &Vec<String>, part: &Vec<char>) -> (r: (
    Vec<char>,
    Vec<AnsiStyle>,
))
    requires
        colors.len() >= 256,
    ensures
        (r.0@, r.1@) == part_step(styles@, colors_view(colors@), part@),
{
    let ghost cv = colors_view(colors@);
    let mut out: Vec<char> = Vec::new();
    if !(part.len() > 0 && part[0] == '[') {
        out.push('\x1b');
        append(&mut out, part);
    }
    let ghost p0 = out@;
    let m_pat = vec!['m'];
    assert(m_pat@ =~= seq!['m']);
    match crate::query::find_seq_exec(part, &m_pat, 0) {
        None => {
            out.push('\x1b');
            append(&mut out, part);
            assert(out@ =~= p0 + seq!['\x1b'] + part@);
            (out, styles)
        },
        Some(m) => {
            proof {
                crate::query::lemma_find_seq(part@, seq!['m'], 0);
            }
            let head = slice(part, 0, m);
            let body = if head.len() > 0 {
                slice(&head, 1, head.len())
            } else {
                Vec::new()
            };
            assert(head@ =~= part@.take(m as int));
            assert(body@ =~= after_first(part@.take(m as int)));
            let args = split_exec(&body, ';');
            let st = apply_args_exec(&args, styles);
            let text = slice(part, m + 1, part.len());
            assert(text@ =~= part@.skip(m + 1));
            let lines = split_exec(&text, '\n');
            let ghost lv = views(lines@);
            let ghost sl = lv.map_values(|l: Seq<char>| styled_line(st@, cv, l));
            let ghost base = out@;
            let mut k: usize = 0;
            assert(sl.take(0) =~= Seq::<Seq<char>>::empty());
            assert(base + join_nl(sl.take(0)) =~= base);
            while k < lines.len()
                invariant
                    k <= lines.len(),
                    colors.len() >= 256,
                    cv == colors_view(colors@),
                    lv == views(lines@),
                    sl == lv.map_values(|l: Seq<char>| styled_line(st@, cv, l)),
                    out@ == base + join_nl(sl.take(k as int)),
                decreases lines.len() - k,
            {
                assert(sl.take(k + 1).drop_last() =~= sl.take(k as int));
                if k > 0 {
                    out.push('\n');
                }
                styled_line_exec(&mut out, &st, colors, &lines[k]);
                assert(sl[k as int] == styled_line(st@, cv, lines@[k as int]@));
                proof {
                    if k == 0 {
                        assert(sl.take(1) =~= seq![sl[0]]);
                        assert(out@ =~= base + join_nl(sl.take(1)));
                    } else {
                        assert(out@ =~= base + (join_nl(sl.take(k as int)) + seq!['\n'] + sl[k as int]));
                    }
                }
                k += 1;
            }
            assert(sl.take(lines.len() as int) =~= sl);
            (out, st)
        },
    }
}

/// Renders text with ANSI escape sequences as a LaTeX listing without line
/// numbers; `colors` are the terminal's 256 colors as hex codes.
pub fn highlight(input: &str, extra_args: &str, colors: &Vec<String>) -> (r: String)
    requires
        colors.len() >= 256,
    ensures
        r@ == ansi_listing(input@, extra_args@, colors_view(colors@)),
{
    let ghost cv = colors_view(colors@);
    let cs = chars_of(input);
    let parts = split_exec(&cs, '\x1b');
    let ghost pv = views(parts@);
    let mut body: Vec<char> = Vec::new();
    append(&mut body, &parts[0]);
    let mut styles: Vec<AnsiStyle> = Vec::new();
    let mut n: usize = 1;
    assert(pv[0] == parts@[0]@);
    while n < parts.len()
        invariant
            1 <= n <= parts.len(),
            colors.len() >= 256,
            cv == colors_view(colors@),
            pv == views(parts@),
            (body@, styles@) == parts_run(pv, cv, n as nat),
        decreases parts.len() - n,
    {
        assert(pv[n as int] == parts@[n as int]@);
        let (x, st) = part_step_exec(styles, colors, &parts[n]);
        append(&mut body, &x);
        styles = st;
        n += 1;
    }
    let mut out = chars_of("\\begin{Verbatim}[commandchars=×\\{\\},numbers=none,");
    append_str(&mut out, extra_args);
    append_str(&mut out, "]\n");
    append(&mut out, &body);
    append_str(&mut out, "\n\\end{Verbatim}");
    string_of(&out)
}

} // verus!
