//! Styled text of the lifecycle cards.

use vstd::prelude::*;

use crate::text;

verus! {

#[derive(Clone, Copy, Debug, PartialEq, Eq, Structural)]
pub enum SpanStyle {
    Plain,
    Dim,
    Bold,
    Cyan,
    Green,
    Red,
    Magenta,
}

/// A piece of text in one style. With a clip, at most so many graphemes of it are shown.
pub struct Span {
    pub style: SpanStyle,
    pub text: String,
    pub clip: Option<usize>,
}

pub struct SpanModel {
    pub style: SpanStyle,
    pub text: Seq<char>,
    pub clip: Option<usize>,
}

impl View for Span {
    type V = SpanModel;

    open spec fn view(&self) -> SpanModel {
        SpanModel { style: self.style, text: self.text@, clip: self.clip }
    }
}

pub open spec fn span(style: SpanStyle, text: Seq<char>) -> SpanModel {
    SpanModel { style, text, clip: None }
}

pub open spec fn clipped(style: SpanStyle, text: Seq<char>, clip: usize) -> SpanModel {
    SpanModel { style, text, clip: Some(clip) }
}

pub fn make_span(style: SpanStyle, text: &str) -> (r: Span)
    ensures
        r@ == span(style, text@),
{
    Span { style, text: text::owned(text), clip: None }
}

pub fn make_clipped(style: SpanStyle, text: &str, clip: usize) -> (r: Span)
    ensures
        r@ == clipped(style, text@, clip),
{
    Span { style, text: text::owned(text), clip: Some(clip) }
}

pub open spec fn spans(line: Seq<Span>) -> Seq<SpanModel> {
    Seq::new(line.len(), |i: int| line[i]@)
}

/// Appends a span to a line.
pub fn push_span(line: &mut Vec<Span>, piece: Span)
    ensures
        spans(final(line)@) == spans(old(line)@).push(piece@),
{
    let ghost before = line@;
    line.push(piece);
    proof {
        assert(spans(line@) =~= spans(before).push(piece@));
    }
}

pub open spec fn lines_model(lines: Seq<Vec<Span>>) -> Seq<Seq<SpanModel>> {
    Seq::new(lines.len(), |i: int| spans(lines[i]@))
}

/// Appends a line to a list of lines.
pub fn push_line(lines: &mut Vec<Vec<Span>>, line: Vec<Span>)
    ensures
        lines_model(final(lines)@) == lines_model(old(lines)@).push(spans(line@)),
{
    let ghost before = lines@;
    lines.push(line);
    proof {
        assert(lines_model(lines@) =~= lines_model(before).push(spans(line@)));
    }
}

/// A line of unstyled text.
pub open spec fn plain_line(text: Seq<char>) -> Seq<SpanModel> {
    seq![span(SpanStyle::Plain, text)]
}

pub open spec fn plain_lines(texts: Seq<Seq<char>>) -> Seq<Seq<SpanModel>> {
    texts.map_values(|t: Seq<char>| plain_line(t))
}

/// Appends a line of unstyled text.
pub fn push_plain_line(lines: &mut Vec<Vec<Span>>, text: &str)
    ensures
        lines_model(final(lines)@) == lines_model(old(lines)@).push(plain_line(text@)),
{
    let mut line = no_spans();
    push_span(&mut line, make_span(SpanStyle::Plain, text));
    proof {
        assert(spans(line@) =~= plain_line(text@));
    }
    push_line(lines, line);
}

/// Appends lines of unstyled text.
pub fn push_plain_lines(lines: &mut Vec<Vec<Span>>, texts: &Vec<String>)
    ensures
        lines_model(final(lines)@) == lines_model(old(lines)@) + plain_lines(text::views(texts@)),
{
    let ghost before = lines_model(lines@);
    let ghost all = plain_lines(text::views(texts@));
    let mut i: usize = 0;
    proof {
        assert(before + all.take(0) =~= before);
    }
    while i < texts.len()
        invariant
            i <= texts@.len(),
            all == plain_lines(text::views(texts@)),
            lines_model(lines@) == before + all.take(i as int),
        decreases texts@.len() - i,
    {
        push_plain_line(lines, texts[i].as_str());
        proof {
            assert(all[i as int] == plain_line(texts@[i as int]@));
            assert(all.take(i + 1) =~= all.take(i as int).push(all[i as int]));
            assert(lines_model(lines@) =~= before + all.take(i + 1));
        }
        i += 1;
    }
    proof {
        assert(all.take(texts@.len() as int) =~= all);
    }
}

/// What a card shows: a header, wrapped to the width with its further rows indented by two
/// columns, and detail rows below it.
pub struct Card {
    pub header: Vec<Span>,
    pub details: Vec<Vec<Span>>,
}

pub struct CardModel {
    pub header: Seq<SpanModel>,
    pub details: Seq<Seq<SpanModel>>,
}

impl View for Card {
    type V = CardModel;

    open spec fn view(&self) -> CardModel {
        CardModel { header: spans(self.header@), details: lines_model(self.details@) }
    }
}

/// An empty line.
pub fn no_spans() -> (r: Vec<Span>)
    ensures
        spans(r@) == Seq::<SpanModel>::empty(),
{
    let r: Vec<Span> = Vec::new();
    proof {
        assert(spans(r@) =~= Seq::empty());
    }
    r
}

/// No lines.
pub fn no_lines() -> (r: Vec<Vec<Span>>)
    ensures
        lines_model(r@) == Seq::<Seq<SpanModel>>::empty(),
{
    let r: Vec<Vec<Span>> = Vec::new();
    proof {
        assert(lines_model(r@) =~= Seq::empty());
    }
    r
}

} // verus!
