//! The text that shows an entry, and the text that shows an answer of
//! several entries.

use vstd::prelude::*;
use crate::layout::{definition_layout, meaning_layout, phonetic_layout, word_layout};
use crate::model::{entries, Definition, Meaning, Phonetic, Word, WordView};
use crate::paint::{is_rendering, lemma_rendering_of_nothing, render_spans};
use crate::runs::{
    flattened_upto, lemma_flattened_upto_all, lemma_flattened_upto_next,
    lemma_flattened_upto_none,
};
use crate::style::{push_spans, spans, Span, SpanView};

verus! {

/// The layouts of the entries of an answer, one part each.
pub open spec fn entry_blocks(ws: Seq<WordView>) -> Seq<Seq<SpanView>> {
    ws.map_values(|w: WordView| word_layout(w))
}

/// An answer: its entries in order, one block each, each right after the
/// one before it. Nothing stands between two blocks and nothing after the
/// last.
pub open spec fn entries_layout(ws: Seq<WordView>) -> Seq<SpanView> {
    entry_blocks(ws).flatten()
}

impl Phonetic {
    /// The text that shows this pronunciation.
    pub fn render(&self) -> (out: String)
        ensures
            is_rendering(out@, phonetic_layout(self@)),
    {
        render_spans(&self.layout())
    }
}

impl Definition {
    /// The text that shows this sense.
    pub fn render(&self) -> (out: String)
        ensures
            is_rendering(out@, definition_layout(self@)),
    {
        render_spans(&self.layout())
    }
}

impl Meaning {
    /// The text that shows this meaning.
    pub fn render(&self) -> (out: String)
        ensures
            is_rendering(out@, meaning_layout(self@)),
    {
        render_spans(&self.layout())
    }
}

impl Word {
    /// The text that shows this entry.
    pub fn render(&self) -> (out: String)
        ensures
            is_rendering(out@, word_layout(self@)),
    {
        render_spans(&self.layout())
    }
}

/// The layout of an answer of several entries.
pub fn layout_entries(words: &Vec<Word>) -> (out: Vec<Span>)
    ensures
        spans(out@) == entries_layout(entries(words@)),
{
    let mut out: Vec<Span> = Vec::new();
    let ghost parts = entry_blocks(entries(words@));
    let mut i: usize = 0;
    proof {
        lemma_flattened_upto_none(parts);
    }
    while i < words.len()
        invariant
            i <= words.len(),
            parts == entry_blocks(entries(words@)),
            spans(out@) =~= flattened_upto(parts, i as int),
        decreases words.len() - i,
    {
        push_spans(&mut out, words[i].layout());
        proof {
            lemma_flattened_upto_next(parts, i as int);
        }
        i += 1;
    }
    proof {
        lemma_flattened_upto_all(parts);
    }
    out
}

/// The text that shows an answer of several entries: what is written to the
/// terminal for one lookup. An answer without entries shows as nothing.
pub fn render_entries(words: &Vec<Word>) -> (out: String)
    ensures
        is_rendering(out@, entries_layout(entries(words@))),
        words@.len() == 0 ==> out@ == Seq::<char>::empty(),
{
    let out = render_spans(&layout_entries(words));
    proof {
        if words@.len() == 0 {
            assert(entries_layout(entries(words@)) =~= Seq::<SpanView>::empty());
            lemma_rendering_of_nothing(out@);
        }
    }
    out
}

} // verus!
