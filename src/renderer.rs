//! The output formats: escaping of plain text and markup of styled text.
use vstd::prelude::*;

use crate::text::{append, append_str, chars_of, decimal, push_decimal};

verus! {

/// An output format.
#[derive(Debug, Clone, Copy, Hash, PartialEq, Eq)]
pub enum Renderer {
    /// A `Verbatim` environment of the LaTeX package fancyvrb, with `×` as
    /// its escape character.
    Latex,
    /// HTML text with inline styles.
    Html,
}

/// The command that sets the line counter, without its argument.
pub open spec fn set_counter() -> Seq<char> {
    "×setcounter{LirstingsLineNo}"@
}

/// `s` without its first character.
pub open spec fn after_first(s: Seq<char>) -> Seq<char> {
    if s.len() == 0 {
        s
    } else {
        s.drop_first()
    }
}

/// What starts the output.
pub open spec fn head(
    r: Renderer,
    inline: bool,
    label: Option<Seq<char>>,
    args: Seq<char>,
    first: nat,
) -> Seq<char> {
    match r {
        Renderer::Latex => if inline {
            "\\Verb[commandchars=×\\{\\}]{"@
        } else {
            "\\begin{Verbatim}[commandchars=×\\{\\},"@ + match label {
                Some(l) => "label={\\footnotesize "@ + l + "},"@,
                None => Seq::empty(),
            } + args + "]\n"@ + set_counter() + seq!['{'] + decimal(first) + seq!['}']
        },
        Renderer::Html => Seq::empty(),
    }
}

/// What ends one line and starts line number `n`.
pub open spec fn newline(r: Renderer, n: nat) -> Seq<char> {
    match r {
        Renderer::Latex => seq!['\n'] + set_counter() + seq!['{'] + decimal(n) + seq!['}'],
        Renderer::Html => seq!['\n'],
    }
}

/// What ends the output.
pub open spec fn tail(r: Renderer, inline: bool) -> Seq<char> {
    match r {
        Renderer::Latex => if inline {
            "}"@
        } else {
            "\n\\end{Verbatim}"@
        },
        Renderer::Html => Seq::empty(),
    }
}

/// One character of plain text, escaped.
pub open spec fn escape_char(r: Renderer, c: char) -> Seq<char> {
    match r {
        Renderer::Latex => if c == '{' || c == '}' {
            seq!['×', c]
        } else {
            seq![c]
        },
        Renderer::Html => if c == '&' {
            "&amp;"@
        } else if c == '<' {
            "&lt;"@
        } else if c == '>' {
            "&gt;"@
        } else if c == ' ' {
            "&nbsp;<wbr>"@
        } else if c == '\n' {
            "<br>"@
        } else if c == '\t' {
            "&nbsp;&nbsp;&nbsp;&nbsp;<wbr>"@
        } else {
            seq![c]
        },
    }
}

/// Plain text, escaped.
pub open spec fn unstyled(r: Renderer, s: Seq<char>) -> Seq<char>
    decreases s.len(),
{
    if s.len() == 0 {
        Seq::empty()
    } else {
        unstyled(r, s.drop_last()) + escape_char(r, s.last())
    }
}

pub open spec fn opt_seq(b: bool, s: Seq<char>) -> Seq<char> {
    if b {
        s
    } else {
        Seq::empty()
    }
}

/// `n` closing braces.
pub open spec fn braces(n: nat) -> Seq<char> {
    Seq::new(n, |i: int| '}')
}

pub open spec fn one_if(b: bool) -> nat {
    if b {
        1
    } else {
        0
    }
}

/// Braces that close a colored text with its decorations.
pub open spec fn brace_count(underline: bool, strikethrough: bool, italic: bool, bold: bool) -> nat {
    1 + one_if(underline) + one_if(strikethrough) + one_if(italic) + one_if(bold)
}

/// The LaTeX commands that open the decorations.
pub open spec fn latex_deco(underline: bool, strikethrough: bool, italic: bool, bold: bool) -> Seq<
    char,
> {
    opt_seq(underline, "×uline{"@) + opt_seq(strikethrough, "×sout{"@) + opt_seq(
        italic,
        "×textit{"@,
    ) + opt_seq(bold, "×textbf{"@)
}

/// The CSS declarations of the decorations.
pub open spec fn html_deco(underline: bool, strikethrough: bool, italic: bool, bold: bool) -> Seq<
    char,
> {
    (if underline && strikethrough {
        "text-decoration: underline line-through;"@
    } else if underline {
        "text-decoration: underline;"@
    } else if strikethrough {
        "text-decoration: line-through;"@
    } else {
        Seq::empty()
    }) + opt_seq(bold, "font-weight: bold;"@) + opt_seq(italic, "font-style: italic;"@)
}

/// Text in a color (`#rrggbb`) with decorations.
pub open spec fn styled(
    r: Renderer,
    text: Seq<char>,
    color: Seq<char>,
    underline: bool,
    strikethrough: bool,
    italic: bool,
    bold: bool,
) -> Seq<char> {
    match r {
        Renderer::Latex => "×textcolor[HTML]{"@ + after_first(color) + "}{"@ + latex_deco(
            underline,
            strikethrough,
            italic,
            bold,
        ) + text + braces(brace_count(underline, strikethrough, italic, bold)),
        Renderer::Html => "<span style=\"color: "@ + color + ";"@ + html_deco(
            underline,
            strikethrough,
            italic,
            bold,
        ) + "\">"@ + text + "</span>"@,
    }
}

impl Renderer {
    /// Appends what starts the output.
    pub fn head(&self, out: &mut Vec<char>, inline: bool, label: &Option<String>, args: &str, first: usize)
        ensures
            final(out)@ == old(out)@ + head(
                *self,
                inline,
                match label {
                    Some(l) => Some(l@),
                    None => None,
                },
                args@,
                first as nat,
            ),
    {
        match self {
            Renderer::Latex => if inline {
                append_str(out, "\\Verb[commandchars=×\\{\\}]{");
            } else {
                append_str(out, "\\begin{Verbatim}[commandchars=×\\{\\},");
                match label {
                    Some(l) => {
                        append_str(out, "label={\\footnotesize ");
                        append_str(out, l.as_str());
                        append_str(out, "},");
                    },
                    None => {},
                }
                append_str(out, args);
                append_str(out, "]\n");
                append_str(out, "×setcounter{LirstingsLineNo}");
                out.push('{');
                push_decimal(out, first);
                out.push('}');
            },
            Renderer::Html => {},
        }
    }

    /// Appends what ends one line and starts line number `n`.
    pub fn newline(&self, out: &mut Vec<char>, n: usize)
        ensures
            final(out)@ == old(out)@ + newline(*self, n as nat),
    {
        match self {
            Renderer::Latex => {
                out.push('\n');
                append_str(out, "×setcounter{LirstingsLineNo}");
                out.push('{');
                push_decimal(out, n);
                out.push('}');
            },
            Renderer::Html => {
                out.push('\n');
            },
        }
    }

    /// Appends what ends the output.
    pub fn tail(&self, out: &mut Vec<char>, inline: bool)
        ensures
            final(out)@ == old(out)@ + tail(*self, inline),
    {
        match self {
            Renderer::Latex => if inline {
                append_str(out, "}");
            } else {
                append_str(out, "\n\\end{Verbatim}");
            },
            Renderer::Html => {},
        }
    }

    /// Appends one character of plain text, escaped.
    pub fn escape_char(&self, out: &mut Vec<char>, c: char)
        ensures
            final(out)@ == old(out)@ + escape_char(*self, c),
    {
        match self {
            Renderer::Latex => {
                if c == '{' || c == '}' {
                    out.push('×');
                }
                out.push(c);
            },
            Renderer::Html => {
                if c == '&' {
                    append_str(out, "&amp;");
                } else if c == '<' {
                    append_str(out, "&lt;");
                } else if c == '>' {
                    append_str(out, "&gt;");
                } else if c == ' ' {
                    append_str(out, "&nbsp;<wbr>");
                } else if c == '\n' {
                    append_str(out, "<br>");
                } else if c == '\t' {
                    append_str(out, "&nbsp;&nbsp;&nbsp;&nbsp;<wbr>");
                } else {
                    out.push(c);
                }
            },
        }
    }

    /// Plain text, escaped.
    pub fn unstyled(&self, text: &Vec<char>) -> (r: Vec<char>)
        ensures
            r@ == unstyled(*self, text@),
    {
        let mut out: Vec<char> = Vec::new();
        let mut i: usize = 0;
        assert(text@.take(0) =~= Seq::<char>::empty());
        while i < text.len()
            invariant
                i <= text.len(),
                out@ == unstyled(*self, text@.take(i as int)),
            decreases text.len() - i,
        {
            assert(text@.take(i + 1).drop_last() =~= text@.take(i as int));
            self.escape_char(&mut out, text[i]);
            i += 1;
        }
        assert(text@.take(text.len() as int) =~= text@);
        out
    }

    /// Appends text in a color (`#rrggbb`) with decorations.
    pub fn styled(
        &self,
        out: &mut Vec<char>,
        text: &Vec<char>,
        color: &str,
        underline: bool,
        strikethrough: bool,
        italic: bool,
        bold: bool,
    )
        ensures
            final(out)@ == old(out)@ + styled(
                *self,
                text@,
                color@,
                underline,
                strikethrough,
                italic,
                bold,
            ),
    {
        let piece = match self {
            Renderer::Latex => latex_styled(text, color, underline, strikethrough, italic, bold),
            Renderer::Html => html_styled(text, color, underline, strikethrough, italic, bold),
        };
        append(out, &piece);
    }
}

fn push_if(out: &mut Vec<char>, b: bool, s: &str)
    ensures
        final(out)@ == old(out)@ + opt_seq(b, s@),
{
    if b {
        append_str(out, s);
    } else {
        assert(old(out)@ + Seq::<char>::empty() =~= old(out)@);
    }
}

fn braces_exec(n: usize) -> (r: Vec<char>)
    ensures
        r@ == braces(n as nat),
{
    let mut close: Vec<char> = Vec::new();
    let mut k: usize = 0;
    while k < n
        invariant
            k <= n,
            close@ == braces(k as nat),
        decreases n - k,
    {
        close.push('}');
        k += 1;
        assert(close@ =~= braces(k as nat));
    }
    close
}

/// The LaTeX commands that open the decorations, and how many braces close
/// them together with the color.
fn latex_decorations(underline: bool, strikethrough: bool, italic: bool, bold: bool) -> (r: (
    Vec<char>,
    usize,
))
    ensures
        r.0@ == latex_deco(underline, strikethrough, italic, bold),
        r.1 as nat == brace_count(underline, strikethrough, italic, bold),
{
    let mut deco: Vec<char> = Vec::new();
    push_if(&mut deco, underline, "×uline{");
    push_if(&mut deco, strikethrough, "×sout{");
    push_if(&mut deco, italic, "×textit{");
    push_if(&mut deco, bold, "×textbf{");
    assert(deco@ =~= latex_deco(underline, strikethrough, italic, bold));
    let mut count: usize = 1;
    if underline {
        count += 1;
    }
    if strikethrough {
        count += 1;
    }
    if italic {
        count += 1;
    }
    if bold {
        count += 1;
    }
    (deco, count)
}

fn latex_styled(
    text: &Vec<char>,
    color: &str,
    underline: bool,
    strikethrough: bool,
    italic: bool,
    bold: bool,
) -> (r: Vec<char>)
    ensures
        r@ == styled(Renderer::Latex, text@, color@, underline, strikethrough, italic, bold),
{
    let (deco, count) = latex_decorations(underline, strikethrough, italic, bold);
    let close = braces_exec(count);
    let mut out = chars_of("×textcolor[HTML]{");
    let cs = chars_of(color);
    let rest = if cs.len() > 0 {
        crate::text::slice(&cs, 1, cs.len())
    } else {
        Vec::new()
    };
    assert(rest@ =~= after_first(color@));
    append(&mut out, &rest);
    append_str(&mut out, "}{");
    append(&mut out, &deco);
    append(&mut out, text);
    append(&mut out, &close);
    out
}

fn html_styled(
    text: &Vec<char>,
    color: &str,
    underline: bool,
    strikethrough: bool,
    italic: bool,
    bold: bool,
) -> (r: Vec<char>)
    ensures
        r@ == styled(Renderer::Html, text@, color@, underline, strikethrough, italic, bold),
{
    let mut deco: Vec<char> = Vec::new();
    if underline && strikethrough {
        append_str(&mut deco, "text-decoration: underline line-through;");
    } else if underline {
        append_str(&mut deco, "text-decoration: underline;");
    } else if strikethrough {
        append_str(&mut deco, "text-decoration: line-through;");
    }
    push_if(&mut deco, bold, "font-weight: bold;");
    push_if(&mut deco, italic, "font-style: italic;");
    assert(deco@ =~= html_deco(underline, strikethrough, italic, bold));
    let mut out = chars_of("<span style=\"color: ");
    append_str(&mut out, color);
    append_str(&mut out, ";");
    append(&mut out, &deco);
    append_str(&mut out, "\">");
    append(&mut out, text);
    append_str(&mut out, "</span>");
    out
}

} // verus!
