//! Terminal decoration of a run of text, and text cut into decorated runs.

use vstd::prelude::*;

verus! {

/// The decoration of a run of text.
#[derive(Clone, Copy, Debug, PartialEq, Eq, Structural)]
pub enum Style {
    /// No decoration.
    Plain,
    /// Bold and underlined.
    BoldUnderline,
    /// Underlined.
    Underline,
    /// Blue foreground.
    Blue,
    /// Red foreground.
    Red,
    /// Purple (magenta) foreground.
    Purple,
    /// Dimmed.
    Dimmed,
}

/// A run of text with one decoration.
#[derive(Clone, Debug, PartialEq, Eq)]
pub struct Span {
    pub text: String,
    pub style: Style,
}

/// The mathematical value of a [`Span`].
pub struct SpanView {
    pub text: Seq<char>,
    pub style: Style,
}

impl View for Span {
    type V = SpanView;

    open spec fn view(&self) -> SpanView {
        SpanView { text: self.text@, style: self.style }
    }
}

/// The span of `text` decorated with `style`.
pub open spec fn styled(text: Seq<char>, style: Style) -> SpanView {
    SpanView { text, style }
}

/// The undecorated span of `text`.
pub open spec fn plain(text: Seq<char>) -> SpanView {
    styled(text, Style::Plain)
}

/// The views of a sequence of spans, in order.
pub open spec fn spans(items: Seq<Span>) -> Seq<SpanView> {
    items.map_values(|s: Span| s@)
}

impl Span {
    /// A run of `text` decorated with `style`.
    pub fn new(text: &str, style: Style) -> (span: Span)
        ensures
            span@ == styled(text@, style),
    {
        Span { text: text.to_owned(), style }
    }
}

/// Appends the span of `text` decorated with `style` to `out`.
pub(crate) fn push_span(out: &mut Vec<Span>, text: &str, style: Style)
    ensures
        spans(final(out)@) == spans(old(out)@).push(styled(text@, style)),
{
    out.push(Span::new(text, style));
    assert(spans(out@) =~= spans(old(out)@).push(styled(text@, style)));
}

/// Appends the spans of `more` to `out`, in order.
pub(crate) fn push_spans(out: &mut Vec<Span>, more: Vec<Span>)
    ensures
        spans(final(out)@) == spans(old(out)@) + spans(more@),
{
    let mut more = more;
    let ghost added = more@;
    out.append(&mut more);
    assert(spans(out@) =~= spans(old(out)@) + spans(added));
}

} // verus!
