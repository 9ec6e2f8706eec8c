//! From spans to the characters that reach the terminal.
//!
//! A decorated span is handed to the `colored` crate, which decides from
//! its surroundings (the environment, whether the output is a terminal)
//! whether to write colours at all. Nothing here looks at those
//! surroundings, so every statement holds of both outcomes: a painted span
//! is either its bare text or its text inside ANSI escape sequences. The
//! crate never switches colours over itself; should another thread of the
//! program do so in the middle of one call into `colored`, that call is
//! outside what is stated here.

use colored::Colorize;
use vstd::prelude::*;
use vstd::seq_lib::lemma_flatten_concat;
use crate::runs::{
    lemma_cut_at_run, lemma_end_occurs, lemma_flatten_member, lemma_occurs_between, occurs_at,
    occurs_in,
};
use crate::style::{spans, Span, SpanView, Style};
use crate::text::texts;

verus! {

/// The parameters of the escape sequence that switches `style` on.
pub open spec fn sgr_parameters(style: Style) -> Seq<char> {
    match style {
        Style::Plain => Seq::empty(),
        Style::BoldUnderline => "1;4"@,
        Style::Underline => "4"@,
        Style::Blue => "34"@,
        Style::Red => "31"@,
        Style::Purple => "35"@,
        Style::Dimmed => "2"@,
    }
}

/// The escape sequence that switches `style` on.
pub open spec fn sgr_open(style: Style) -> Seq<char> {
    "\x1B["@ + sgr_parameters(style) + "m"@
}

/// The escape sequence that switches every decoration off.
pub open spec fn sgr_reset() -> Seq<char> {
    "\x1B[0m"@
}

/// `text` with `open` put again behind every sequence in it that switches
/// every decoration off, so that a decoration opened before the text lasts
/// to its end. A text that holds no such sequence is left as it is.
pub open spec fn reopened(text: Seq<char>, open: Seq<char>) -> Seq<char>
    decreases text.len(),
    via reopened_ends
{
    if text.len() == 0 {
        text
    } else if sgr_reset().is_prefix_of(text) {
        sgr_reset() + open + reopened(text.skip(sgr_reset().len() as int), open)
    } else {
        text.take(1) + reopened(text.skip(1), open)
    }
}

#[via_fn]
proof fn reopened_ends(text: Seq<char>, open: Seq<char>) {
    reveal_strlit("\x1B[0m");
}

/// `text` decorated with `style` by escape sequences: the sequence that
/// switches the style on, the text with the style switched on again after
/// every reset that the text holds, and the reset.
pub open spec fn colored_text(text: Seq<char>, style: Style) -> Seq<char> {
    sgr_open(style) + reopened(text, sgr_open(style)) + sgr_reset()
}

/// Whether `out` shows `span`: as its bare text, or, for a decorated span,
/// as its text decorated by escape sequences.
pub open spec fn is_painting(out: Seq<char>, span: SpanView) -> bool {
    out == span.text || (span.style != Style::Plain && out == colored_text(span.text, span.style))
}

/// Whether `pieces` show the spans of `layout`, one each, in order.
pub open spec fn are_paintings(pieces: Seq<Seq<char>>, layout: Seq<SpanView>) -> bool {
    &&& pieces.len() == layout.len()
    &&& forall|i: int| 0 <= i < layout.len() ==> is_painting(#[trigger] pieces[i], layout[i])
}

/// Whether `out` shows `layout`: the spans painted one by one and written
/// one after the other.
pub open spec fn is_rendering(out: Seq<char>, layout: Seq<SpanView>) -> bool {
    exists|pieces: Seq<Seq<char>>| #[trigger]
        are_paintings(pieces, layout) && out == pieces.flatten()
}

/// The text of `layout` without any decoration.
pub open spec fn plain_text(layout: Seq<SpanView>) -> Seq<char> {
    layout.map_values(|s: SpanView| s.text).flatten()
}

/// `Colorize::bold`, then `Colorize::underline`, then `Display` of the
/// `ColoredString`.
///
/// Trusted, from the source of `colored`: where colours are off, `Display`
/// writes the text as it is. Where they are on, it writes `ESC [ 1 ; 4 m`,
/// the text, and `ESC [ 0 m`; in a text that itself holds `ESC [ 0 m` it
/// first puts the opening sequence again behind each of them
/// (`escape_inner_reset_sequences`), which `reopened` states. Whether
/// colours are on is decided outside this crate and may differ from call
/// to call; the contract takes it that no other thread switches colours
/// over (`colored::control::set_override`) while one call runs.
#[verifier::external_body]
fn paint_bold_underline(text: &str) -> (out: String)
    ensures
        out@ == text@ || out@ == colored_text(text@, Style::BoldUnderline),
{
    text.bold().underline().to_string()
}

/// `Colorize::underline`, then `Display` of the `ColoredString`.
///
/// Trusted as in `paint_bold_underline`; the opening sequence is `ESC [ 4 m`.
#[verifier::external_body]
fn paint_underline(text: &str) -> (out: String)
    ensures
        out@ == text@ || out@ == colored_text(text@, Style::Underline),
{
    text.underline().to_string()
}

/// `Colorize::blue`, then `Display` of the `ColoredString`.
///
/// Trusted as in `paint_bold_underline`; the opening sequence is `ESC [ 3 4 m`.
#[verifier::external_body]
fn paint_blue(text: &str) -> (out: String)
    ensures
        out@ == text@ || out@ == colored_text(text@, Style::Blue),
{
    text.blue().to_string()
}

/// `Colorize::red`, then `Display` of the `ColoredString`.
///
/// Trusted as in `paint_bold_underline`; the opening sequence is `ESC [ 3 1 m`.
#[verifier::external_body]
fn paint_red(text: &str) -> (out: String)
    ensures
        out@ == text@ || out@ == colored_text(text@, Style::Red),
{
    text.red().to_string()
}

/// `Colorize::purple`, then `Display` of the `ColoredString`.
///
/// Trusted as in `paint_bold_underline`; the opening sequence is `ESC [ 3 5 m`.
#[verifier::external_body]
fn paint_purple(text: &str) -> (out: String)
    ensures
        out@ == text@ || out@ == colored_text(text@, Style::Purple),
{
    text.purple().to_string()
}

/// `Colorize::dimmed`, then `Display` of the `ColoredString`.
///
/// Trusted as in `paint_bold_underline`; the opening sequence is `ESC [ 2 m`.
#[verifier::external_body]
fn paint_dimmed(text: &str) -> (out: String)
    ensures
        out@ == text@ || out@ == colored_text(text@, Style::Dimmed),
{
    text.dimmed().to_string()
}

/// Paints one span: a plain span is its text, a decorated one goes through
/// `colored`.
pub fn paint(span: &Span) -> (out: String)
    ensures
        is_painting(out@, span@),
{
    let text = span.text.as_str();
    match span.style {
        Style::Plain => span.text.clone(),
        Style::BoldUnderline => paint_bold_underline(text),
        Style::Underline => paint_underline(text),
        Style::Blue => paint_blue(text),
        Style::Red => paint_red(text),
        Style::Purple => paint_purple(text),
        Style::Dimmed => paint_dimmed(text),
    }
}

/// Paints the spans of `layout` one by one.
pub fn paint_all(layout: &Vec<Span>) -> (pieces: Vec<String>)
    ensures
        are_paintings(texts(pieces@), spans(layout@)),
{
    let mut pieces: Vec<String> = Vec::new();
    let mut i: usize = 0;
    while i < layout.len()
        invariant
            i <= layout.len(),
            are_paintings(texts(pieces@), spans(layout@).take(i as int)),
        decreases layout.len() - i,
    {
        let ghost before = texts(pieces@);
        let piece = paint(&layout[i]);
        pieces.push(piece);
        proof {
            let after = texts(pieces@);
            let shown = spans(layout@).take(i + 1);
            assert forall|k: int| 0 <= k < shown.len() implies is_painting(
                #[trigger] after[k],
                shown[k],
            ) by {
                if k < i {
                    assert(after[k] == before[k]);
                    assert(shown[k] == spans(layout@).take(i as int)[k]);
                }
            }
        }
        i += 1;
    }
    assert(spans(layout@).take(i as int) =~= spans(layout@));
    pieces
}

/// Writes `pieces` one after the other.
pub fn assemble(pieces: &Vec<String>) -> (out: String)
    ensures
        out@ == texts(pieces@).flatten(),
{
    let mut out = String::new();
    let mut i: usize = 0;
    assert(texts(pieces@).take(0) =~= Seq::<Seq<char>>::empty());
    while i < pieces.len()
        invariant
            i <= pieces.len(),
            out@ == texts(pieces@).take(i as int).flatten(),
        decreases pieces.len() - i,
    {
        out.append(pieces[i].as_str());
        proof {
            let before = texts(pieces@).take(i as int);
            assert(texts(pieces@).take(i + 1) =~= before.push(pieces@[i as int]@));
            before.lemma_flatten_push(pieces@[i as int]@);
        }
        i += 1;
    }
    assert(texts(pieces@).take(i as int) =~= texts(pieces@));
    out
}

/// Renders `layout`: paints its spans and writes them one after the other.
pub fn render_spans(layout: &Vec<Span>) -> (out: String)
    ensures
        is_rendering(out@, spans(layout@)),
{
    let pieces = paint_all(layout);
    assemble(&pieces)
}

/// A text that never switches every decoration off is left as it is.
pub proof fn lemma_reopened_without_reset(text: Seq<char>, open: Seq<char>)
    requires
        !occurs_in(text, sgr_reset()),
    ensures
        reopened(text, open) == text,
    decreases text.len(),
{
    reveal_strlit("\x1B[0m");
    if text.len() > 0 {
        if sgr_reset().is_prefix_of(text) {
            assert(occurs_at(text, sgr_reset(), 0));
        }
        let rest = text.skip(1);
        if occurs_in(rest, sgr_reset()) {
            let at = choose|at: int| occurs_at(rest, sgr_reset(), at);
            assert(text.subrange(at + 1, at + 1 + sgr_reset().len()) =~= rest.subrange(
                at,
                at + sgr_reset().len(),
            ));
            assert(occurs_at(text, sgr_reset(), at + 1));
        }
        lemma_reopened_without_reset(rest, open);
        assert(text.take(1) + rest =~= text);
    }
}

/// Where colours are written, a text that never switches every decoration
/// off stands as it is between the opening sequence and the reset.
pub proof fn lemma_colored_text_without_reset(text: Seq<char>, style: Style)
    requires
        !occurs_in(text, sgr_reset()),
    ensures
        colored_text(text, style) == sgr_open(style) + text + sgr_reset(),
{
    lemma_reopened_without_reset(text, sgr_open(style));
}

/// Decoration is decoration only: the bare text of a layout is one of its
/// renderings.
pub proof fn lemma_plain_text_is_rendering(layout: Seq<SpanView>)
    ensures
        is_rendering(plain_text(layout), layout),
{
    let pieces = layout.map_values(|s: SpanView| s.text);
    assert(are_paintings(pieces, layout));
}

/// The bare text of a layout with one more span at its end is the bare text
/// of the layout followed by the text of that span.
pub proof fn lemma_plain_text_push(layout: Seq<SpanView>, span: SpanView)
    ensures
        plain_text(layout.push(span)) == plain_text(layout) + span.text,
{
    let text = |s: SpanView| s.text;
    assert(layout.push(span).map_values(text) =~= layout.map_values(text).push(span.text));
    layout.map_values(text).lemma_flatten_push(span.text);
}

/// The bare text of two layouts in a row is the bare text of the first
/// followed by the bare text of the second.
pub proof fn lemma_plain_text_concat(a: Seq<SpanView>, b: Seq<SpanView>)
    ensures
        plain_text(a + b) == plain_text(a) + plain_text(b),
{
    let text = |s: SpanView| s.text;
    assert((a + b).map_values(text) =~= a.map_values(text) + b.map_values(text));
    lemma_flatten_concat(a.map_values(text), b.map_values(text));
}

/// Where a run of spans stands in a layout, the bare text of that run
/// stands in the bare text of the layout.
pub proof fn lemma_plain_text_of_run(layout: Seq<SpanView>, block: Seq<SpanView>)
    requires
        occurs_in(layout, block),
    ensures
        occurs_in(plain_text(layout), plain_text(block)),
{
    let at = choose|at: int| occurs_at(layout, block, at);
    let before = layout.take(at);
    let after = layout.skip(at + block.len());
    lemma_cut_at_run(layout, block, at);
    lemma_plain_text_concat(before + block, after);
    lemma_plain_text_concat(before, block);
    lemma_occurs_between(plain_text(before), plain_text(block), plain_text(after));
}

/// Where a layout ends with a run of spans, the bare text of the layout
/// ends with the bare text of that run.
pub proof fn lemma_plain_text_of_ending(layout: Seq<SpanView>, block: Seq<SpanView>)
    requires
        block.is_suffix_of(layout),
    ensures
        plain_text(block).is_suffix_of(plain_text(layout)),
{
    let before = layout.take(layout.len() - block.len());
    assert(layout =~= before + block);
    lemma_plain_text_concat(before, block);
    lemma_end_occurs(plain_text(before), plain_text(block));
}

/// A character that stands in the bare text of a layout stands in the text
/// of one of its spans.
pub proof fn lemma_plain_text_member(layout: Seq<SpanView>, c: char)
    requires
        plain_text(layout).contains(c),
    ensures
        exists|k: int| 0 <= k < layout.len() && (#[trigger] layout[k]).text.contains(c),
{
    let parts = layout.map_values(|s: SpanView| s.text);
    lemma_flatten_member(parts, c);
    let k = choose|k: int| 0 <= k < parts.len() && (#[trigger] parts[k]).contains(c);
    assert(layout[k].text == parts[k]);
}

/// A layout without spans renders as the empty text, and only so.
pub proof fn lemma_rendering_of_nothing(out: Seq<char>)
    ensures
        is_rendering(out, Seq::empty()) <==> out == Seq::<char>::empty(),
{
    let nothing = Seq::<Seq<char>>::empty();
    if is_rendering(out, Seq::empty()) {
        let pieces = choose|pieces: Seq<Seq<char>>| #[trigger]
            are_paintings(pieces, Seq::empty()) && out == pieces.flatten();
        assert(pieces =~= nothing);
    }
    if out == Seq::<char>::empty() {
        assert(are_paintings(nothing, Seq::empty()));
        assert(out =~= nothing.flatten());
    }
}

/// A layout of one span renders as a painting of that span, and only so.
pub proof fn lemma_rendering_of_span(out: Seq<char>, span: SpanView)
    ensures
        is_rendering(out, seq![span]) <==> is_painting(out, span),
{
    if is_rendering(out, seq![span]) {
        let pieces = choose|pieces: Seq<Seq<char>>| #[trigger]
            are_paintings(pieces, seq![span]) && out == pieces.flatten();
        pieces.lemma_flatten_one_element();
        assert(is_painting(pieces[0], seq![span][0]));
    }
    if is_painting(out, span) {
        let pieces = seq![out];
        pieces.lemma_flatten_one_element();
        assert(are_paintings(pieces, seq![span]));
    }
}

/// A rendering of one layout followed by a rendering of another is a
/// rendering of the two layouts in a row.
pub proof fn lemma_renderings_join(
    x: Seq<char>,
    a: Seq<SpanView>,
    y: Seq<char>,
    b: Seq<SpanView>,
)
    requires
        is_rendering(x, a),
        is_rendering(y, b),
    ensures
        is_rendering(x + y, a + b),
{
    let p = choose|p: Seq<Seq<char>>| #[trigger] are_paintings(p, a) && x == p.flatten();
    let q = choose|q: Seq<Seq<char>>| #[trigger] are_paintings(q, b) && y == q.flatten();
    lemma_flatten_concat(p, q);
    assert(are_paintings(p + q, a + b));
}

/// A rendering of two layouts in a row is a rendering of the first followed
/// by a rendering of the second. The result is the two renderings.
pub proof fn lemma_rendering_splits(
    out: Seq<char>,
    a: Seq<SpanView>,
    b: Seq<SpanView>,
) -> (parts: (Seq<char>, Seq<char>))
    requires
        is_rendering(out, a + b),
    ensures
        is_rendering(parts.0, a),
        is_rendering(parts.1, b),
        out == parts.0 + parts.1,
{
    let pieces = choose|pieces: Seq<Seq<char>>| #[trigger]
        are_paintings(pieces, a + b) && out == pieces.flatten();
    let n = a.len() as int;
    let p = pieces.take(n);
    let q = pieces.skip(n);
    assert(pieces =~= p + q);
    lemma_flatten_concat(p, q);
    assert forall|i: int| 0 <= i < a.len() implies is_painting(#[trigger] p[i], a[i]) by {
        assert(p[i] == pieces[i]);
        assert(a[i] == (a + b)[i]);
    }
    assert forall|i: int| 0 <= i < b.len() implies is_painting(#[trigger] q[i], b[i]) by {
        assert(q[i] == pieces[i + n]);
        assert(b[i] == (a + b)[i + n]);
    }
    assert(are_paintings(p, a));
    assert(are_paintings(q, b));
    (p.flatten(), q.flatten())
}

/// A rendering of a layout with one more span at its end is a rendering of
/// the layout followed by a painting of that span. The result is the
/// rendering and the painting.
pub proof fn lemma_rendering_of_push(
    out: Seq<char>,
    layout: Seq<SpanView>,
    span: SpanView,
) -> (parts: (Seq<char>, Seq<char>))
    requires
        is_rendering(out, layout.push(span)),
    ensures
        is_rendering(parts.0, layout),
        is_painting(parts.1, span),
        out == parts.0 + parts.1,
{
    assert(layout.push(span) =~= layout + seq![span]);
    let parts = lemma_rendering_splits(out, layout, seq![span]);
    lemma_rendering_of_span(parts.1, span);
    parts
}

/// Where a run of spans stands in a layout, a rendering of that run stands
/// in every rendering of the layout. The result is that rendering.
pub proof fn lemma_rendering_of_run(
    out: Seq<char>,
    layout: Seq<SpanView>,
    block: Seq<SpanView>,
) -> (shown: Seq<char>)
    requires
        is_rendering(out, layout),
        occurs_in(layout, block),
    ensures
        is_rendering(shown, block),
        occurs_in(out, shown),
{
    let at = choose|at: int| occurs_at(layout, block, at);
    let before = layout.take(at);
    let after = layout.skip(at + block.len());
    lemma_cut_at_run(layout, block, at);
    let (xy, z) = lemma_rendering_splits(out, before + block, after);
    let (x, y) = lemma_rendering_splits(xy, before, block);
    lemma_occurs_between(x, y, z);
    y
}

/// Where a layout ends with a run of spans, every rendering of the layout
/// ends with a rendering of that run. The result is that rendering.
pub proof fn lemma_rendering_of_ending(
    out: Seq<char>,
    layout: Seq<SpanView>,
    block: Seq<SpanView>,
) -> (shown: Seq<char>)
    requires
        is_rendering(out, layout),
        block.is_suffix_of(layout),
    ensures
        is_rendering(shown, block),
        shown.is_suffix_of(out),
{
    let before = layout.take(layout.len() - block.len());
    assert(layout =~= before + block);
    let (x, y) = lemma_rendering_splits(out, before, block);
    assert(y.is_suffix_of(out));
    y
}

} // verus!
