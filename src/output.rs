//! Assembly of the rendered text, with a line number in front of each line.
use vstd::prelude::*;

use crate::renderer::{head, newline, tail, Renderer};
use crate::text::{chars_of, string_of};

verus! {

/// The numbers given to the lines of the output, drawn one at a time: a
/// list (after which every line gets `0`), or counting up from a start.
#[derive(Debug)]
pub enum LineNumbers {
    Listed { numbers: Vec<usize>, next: usize },
    Counting { next: usize },
}

pub enum LineNumbersView {
    Listed(Seq<usize>, nat),
    Counting(nat),
}

impl View for LineNumbers {
    type V = LineNumbersView;

    open spec fn view(&self) -> LineNumbersView {
        match self {
            LineNumbers::Listed { numbers, next } => LineNumbersView::Listed(numbers@, *next as nat),
            LineNumbers::Counting { next } => LineNumbersView::Counting(*next as nat),
        }
    }
}

/// The next number and what is left to draw from.
pub open spec fn draw(n: LineNumbersView) -> (nat, LineNumbersView) {
    match n {
        LineNumbersView::Listed(s, p) => if p < s.len() {
            (s[p as int] as nat, LineNumbersView::Listed(s, p + 1))
        } else {
            (0, n)
        },
        LineNumbersView::Counting(k) => (
            k,
            LineNumbersView::Counting(
                if k < usize::MAX {
                    k + 1
                } else {
                    k
                },
            ),
        ),
    }
}

impl LineNumbers {
    /// The numbers of `numbers`, in order.
    pub fn listed(numbers: Vec<usize>) -> (r: Self)
        ensures
            r@ == LineNumbersView::Listed(numbers@, 0),
    {
        LineNumbers::Listed { numbers, next: 0 }
    }

    /// `1, 2, 3, ...`
    pub fn counting() -> (r: Self)
        ensures
            r@ == LineNumbersView::Counting(1),
    {
        LineNumbers::Counting { next: 1 }
    }

    /// Draws the next number: `0` once a list is used up.
    pub fn next(&mut self) -> (r: usize)
        ensures
            (r as nat, final(self)@) == draw(old(self)@),
    {
        match self {
            LineNumbers::Listed { numbers, next } => {
                if *next < numbers.len() {
                    let r = numbers[*next];
                    *next = *next + 1;
                    r
                } else {
                    0
                }
            },
            LineNumbers::Counting { next } => {
                let r = *next;
                if *next < usize::MAX {
                    *next = *next + 1;
                }
                r
            },
        }
    }
}

/// The state of an output writer.
pub struct WriterView {
    pub out: Seq<char>,
    pub numbers: LineNumbersView,
    pub inline: bool,
    pub renderer: Renderer,
}

/// Accumulates rendered text; each line feed that it is given ends a line
/// and starts the next, numbered with the next line number. Inline output
/// has a single line and drops line feeds.
pub struct OutputWriter {
    line_numbers: LineNumbers,
    output: Vec<char>,
    inline: bool,
    renderer: Renderer,
}

impl View for OutputWriter {
    type V = WriterView;

    closed spec fn view(&self) -> WriterView {
        WriterView {
            out: self.output@,
            numbers: self.line_numbers@,
            inline: self.inline,
            renderer: self.renderer,
        }
    }
}

/// The writer after it is given the character `c`.
pub open spec fn push_char(w: WriterView, c: char) -> WriterView {
    if c == '\n' {
        if w.inline {
            w
        } else {
            let d = draw(w.numbers);
            WriterView { out: w.out + newline(w.renderer, d.0), numbers: d.1, ..w }
        }
    } else {
        WriterView { out: w.out.push(c), ..w }
    }
}

/// The writer after it is given the text `s`.
pub open spec fn push_text(w: WriterView, s: Seq<char>) -> WriterView
    decreases s.len(),
{
    if s.len() == 0 {
        w
    } else {
        push_char(push_text(w, s.drop_last()), s.last())
    }
}

pub open spec fn label_view(label: Option<String>) -> Option<Seq<char>> {
    match label {
        Some(l) => Some(l@),
        None => None,
    }
}

/// A new writer: the output starts with the renderer's head, which carries
/// the first line number.
pub open spec fn new_writer(
    numbers: LineNumbersView,
    inline: bool,
    args: Seq<char>,
    label: Option<Seq<char>>,
    renderer: Renderer,
) -> WriterView {
    let d = draw(numbers);
    WriterView { out: head(renderer, inline, label, args, d.0), numbers: d.1, inline, renderer }
}

impl OutputWriter {
    pub fn new(
        line_numbers: LineNumbers,
        inline: bool,
        fancyvrb_args: &str,
        label: Option<String>,
        renderer: Renderer,
    ) -> (r: Self)
        ensures
            r@ == new_writer(line_numbers@, inline, fancyvrb_args@, label_view(label), renderer),
    {
        let mut line_numbers = line_numbers;
        let first = line_numbers.next();
        let mut output: Vec<char> = Vec::new();
        renderer.head(&mut output, inline, &label, fancyvrb_args, first);
        OutputWriter { line_numbers, output, inline, renderer }
    }

    /// Gives the writer the characters `s`.
    pub fn push_chars(&mut self, s: &Vec<char>)
        ensures
            final(self)@ == push_text(old(self)@, s@),
            final(self)@.inline == old(self)@.inline,
            final(self)@.renderer == old(self)@.renderer,
    {
        let mut i: usize = 0;
        assert(s@.take(0) =~= Seq::<char>::empty());
        while i < s.len()
            invariant
                i <= s.len(),
                self@ == push_text(old(self)@, s@.take(i as int)),
                self@.inline == old(self)@.inline,
                self@.renderer == old(self)@.renderer,
            decreases s.len() - i,
        {
            assert(s@.take(i + 1).drop_last() =~= s@.take(i as int));
            let c = s[i];
            if c == '\n' {
                if !self.inline {
                    let n = self.line_numbers.next();
                    self.renderer.newline(&mut self.output, n);
                }
            } else {
                self.output.push(c);
            }
            i += 1;
        }
        assert(s@.take(s.len() as int) =~= s@);
    }

    /// Gives the writer the text `s`.
    pub fn push_str(&mut self, s: &str)
        ensures
            final(self)@ == push_text(old(self)@, s@),
            final(self)@.inline == old(self)@.inline,
            final(self)@.renderer == old(self)@.renderer,
    {
        let cs = chars_of(s);
        self.push_chars(&cs);
    }

    /// The renderer this writer renders with.
    pub fn renderer(&self) -> (r: Renderer)
        ensures
            r == self@.renderer,
    {
        self.renderer
    }

    /// The output, closed by the renderer's tail.
    pub fn finish(self) -> (r: String)
        ensures
            r@ == self@.out + tail(self@.renderer, self@.inline),
    {
        let mut out = self.output;
        self.renderer.tail(&mut out, self.inline);
        string_of(&out)
    }
}

} // verus!
