//! The layout of an entry: which runs of text show it, in which order and
//! with which decoration.
//!
//! The layout is a function of the entry alone. It fixes headers,
//! indentation, numbering and blank lines; how a decoration reaches the
//! terminal is decided later, when the spans are painted.

use vstd::prelude::*;
use crate::model::{
    Definition, DefinitionView, Meaning, MeaningView, Phonetic, PhoneticView, Word, WordView,
};
use crate::runs::{
    flattened_upto, lemma_flattened_upto_all, lemma_flattened_upto_next,
    lemma_flattened_upto_none,
};
use crate::style::{plain, push_span, push_spans, spans, styled, Span, SpanView, Style};
use crate::text::{decimal, decimal_string, join, joined, texts};

verus! {

/// The header above the pronunciations of an entry.
pub open spec fn phonetics_header() -> SpanView {
    styled("Phonetics\n"@, Style::Underline)
}

/// The header above the meanings of an entry.
pub open spec fn meanings_header() -> SpanView {
    styled("Meanings\n"@, Style::Underline)
}

/// What stands in place of a transcription that the dictionary lacks.
pub open spec fn unavailable() -> SpanView {
    styled("[unavailable] "@, Style::Dimmed)
}

/// The end of a line.
pub open spec fn line_end() -> SpanView {
    plain("\n"@)
}

/// `body` as one indented item of a list: a tab, a dash and a space before
/// it, the end of the line after it.
pub open spec fn bullet(body: Seq<SpanView>) -> Seq<SpanView> {
    seq![plain("\t- "@)] + body + seq![line_end()]
}

/// A pronunciation: the transcription and a space, or the placeholder where
/// there is no transcription; then, where there is a recording, its address
/// in parentheses, dimmed.
pub open spec fn phonetic_layout(p: PhoneticView) -> Seq<SpanView> {
    let lead = match p.text {
        Some(text) => plain(text + " "@),
        None => unavailable(),
    };
    if p.audio.len() > 0 {
        seq![lead, plain("("@), styled(p.audio, Style::Dimmed), plain(")"@)]
    } else {
        seq![lead]
    }
}

/// A sense: the definition, then, where there is one, the example in
/// parentheses, purple.
pub open spec fn definition_layout(d: DefinitionView) -> Seq<SpanView> {
    match d.example {
        Some(example) => seq![
            plain(d.definition),
            plain(" ("@),
            styled(example, Style::Purple),
            plain(")"@),
        ],
        None => seq![plain(d.definition)],
    }
}

/// The list items of the senses of a meaning, one part each.
pub open spec fn definition_line_parts(ds: Seq<DefinitionView>) -> Seq<Seq<SpanView>> {
    ds.map_values(|d: DefinitionView| bullet(definition_layout(d)))
}

/// The senses of a meaning, one list item each, in order.
pub open spec fn definition_lines(ds: Seq<DefinitionView>) -> Seq<SpanView> {
    definition_line_parts(ds).flatten()
}

/// A line of related words: a tab, the red `label`, a colon and the words
/// joined by commas. The line is not ended.
pub open spec fn related_words(label: Seq<char>, words: Seq<Seq<char>>) -> Seq<SpanView> {
    seq![plain("\t"@), styled(label, Style::Red), plain(": "@ + joined(words, ", "@))]
}

/// The line of synonyms of a meaning; nothing where it has none.
pub open spec fn synonym_line(m: MeaningView) -> Seq<SpanView> {
    if m.synonyms.len() > 0 {
        related_words("Synonyms"@, m.synonyms)
    } else {
        Seq::empty()
    }
}

/// The line of antonyms of a meaning; nothing where it has none. Where the
/// meaning has synonyms too, the end of their line comes first.
pub open spec fn antonym_line(m: MeaningView) -> Seq<SpanView> {
    if m.antonyms.len() > 0 {
        (if m.synonyms.len() > 0 {
            seq![line_end()]
        } else {
            Seq::empty()
        }) + related_words("Antonyms"@, m.antonyms)
    } else {
        Seq::empty()
    }
}

/// Whether a meaning has synonyms or antonyms.
pub open spec fn has_related_words(m: MeaningView) -> bool {
    m.synonyms.len() > 0 || m.antonyms.len() > 0
}

/// What parts the senses of a meaning from its related words: one empty
/// line where there are any related words, nothing where there are none.
pub open spec fn related_gap(m: MeaningView) -> Seq<SpanView> {
    if has_related_words(m) {
        seq![line_end()]
    } else {
        Seq::empty()
    }
}

/// A meaning: the part of speech in blue on a line of its own, the senses,
/// and after one empty line the synonyms and the antonyms. The last line of
/// related words is left open; without related words every line is ended.
pub open spec fn meaning_layout(m: MeaningView) -> Seq<SpanView> {
    seq![styled(m.part_of_speech, Style::Blue), line_end()] + definition_lines(m.definitions)
        + related_gap(m) + synonym_line(m) + antonym_line(m)
}

/// What ends the last line of a meaning: the end of a line where the
/// meaning has related words, whose last line its layout leaves open;
/// nothing where it has none, since its last line is ended already.
pub open spec fn closing(m: MeaningView) -> Seq<SpanView> {
    if has_related_words(m) {
        seq![line_end()]
    } else {
        Seq::empty()
    }
}

/// The list items of the pronunciations of an entry, one part each.
pub open spec fn phonetic_line_parts(ps: Seq<PhoneticView>) -> Seq<Seq<SpanView>> {
    ps.map_values(|p: PhoneticView| bullet(phonetic_layout(p)))
}

/// The pronunciations of an entry, one list item each, in order.
pub open spec fn phonetic_lines(ps: Seq<PhoneticView>) -> Seq<SpanView> {
    phonetic_line_parts(ps).flatten()
}

/// A meaning under its number: the numeral, a colon and a space, then the
/// meaning with its last line ended. After the last line stands one end of
/// a line and no more.
pub open spec fn numbered(number: nat, m: MeaningView) -> Seq<SpanView> {
    seq![plain(decimal(number) + ": "@)] + meaning_layout(m) + closing(m)
}

/// The last line of a meaning under its number, without its end: the line
/// of antonyms; without antonyms the line of synonyms; without related
/// words the list item of the last sense; without senses the numeral and
/// the part of speech.
pub open spec fn last_line(number: nat, m: MeaningView) -> Seq<SpanView> {
    if m.antonyms.len() > 0 {
        related_words("Antonyms"@, m.antonyms)
    } else if m.synonyms.len() > 0 {
        related_words("Synonyms"@, m.synonyms)
    } else if m.definitions.len() > 0 {
        seq![plain("\t- "@)] + definition_layout(m.definitions.last())
    } else {
        seq![plain(decimal(number) + ": "@), styled(m.part_of_speech, Style::Blue)]
    }
}

/// The meaning at index `i` of `ms` under the number `i + 1`, followed by
/// one empty line unless it is the last.
pub open spec fn meaning_entry(ms: Seq<MeaningView>, i: int) -> Seq<SpanView> {
    numbered((i + 1) as nat, ms[i]) + if i + 1 < ms.len() {
        seq![line_end()]
    } else {
        Seq::empty()
    }
}

/// The meanings of an entry, each under its number and followed by what
/// parts it from the next, one part each.
pub open spec fn meaning_entry_parts(ms: Seq<MeaningView>) -> Seq<Seq<SpanView>> {
    Seq::new(ms.len(), |i: int| meaning_entry(ms, i))
}

/// The meanings of an entry, numbered from one, in order, with one empty
/// line between each two neighbours and none after the last.
pub open spec fn meaning_entries(ms: Seq<MeaningView>) -> Seq<SpanView> {
    meaning_entry_parts(ms).flatten()
}

/// The pronunciations of an entry under their header; nothing where it has
/// none.
pub open spec fn phonetics_section(ps: Seq<PhoneticView>) -> Seq<SpanView> {
    if ps.len() > 0 {
        seq![phonetics_header()] + phonetic_lines(ps)
    } else {
        Seq::empty()
    }
}

/// The meanings of an entry under their header; nothing where it has none.
pub open spec fn meanings_section(ms: Seq<MeaningView>) -> Seq<SpanView> {
    if ms.len() > 0 {
        seq![meanings_header()] + meaning_entries(ms)
    } else {
        Seq::empty()
    }
}

/// An entry: the headword, bold and underlined, on a line of its own; the
/// pronunciations; the meanings.
pub open spec fn word_layout(w: WordView) -> Seq<SpanView> {
    seq![styled(w.word, Style::BoldUnderline), line_end()] + phonetics_section(w.phonetics)
        + meanings_section(w.meanings)
}

impl Phonetic {
    /// The layout of this pronunciation.
    pub fn layout(&self) -> (out: Vec<Span>)
        ensures
            spans(out@) == phonetic_layout(self@),
    {
        let mut out: Vec<Span> = Vec::new();
        match &self.text {
            Some(text) => {
                let mut lead = text.clone();
                lead.append(" ");
                push_span(&mut out, lead.as_str(), Style::Plain);
            },
            None => {
                push_span(&mut out, "[unavailable] ", Style::Dimmed);
            },
        }
        if !self.audio.as_str().is_empty() {
            push_span(&mut out, "(", Style::Plain);
            push_span(&mut out, self.audio.as_str(), Style::Dimmed);
            push_span(&mut out, ")", Style::Plain);
        }
        assert(spans(out@) =~= phonetic_layout(self@));
        out
    }
}

impl Definition {
    /// The layout of this sense.
    pub fn layout(&self) -> (out: Vec<Span>)
        ensures
            spans(out@) == definition_layout(self@),
    {
        let mut out: Vec<Span> = Vec::new();
        push_span(&mut out, self.definition.as_str(), Style::Plain);
        match &self.example {
            Some(example) => {
                push_span(&mut out, " (", Style::Plain);
                push_span(&mut out, example.as_str(), Style::Purple);
                push_span(&mut out, ")", Style::Plain);
            },
            None => {},
        }
        assert(spans(out@) =~= definition_layout(self@));
        out
    }
}

/// Appends a line of related words under `label` to `out`.
fn push_related_words(out: &mut Vec<Span>, label: &str, words: &Vec<String>)
    ensures
        spans(final(out)@) == spans(old(out)@) + related_words(label@, texts(words@)),
{
    push_span(out, "\t", Style::Plain);
    push_span(out, label, Style::Red);
    let mut list = String::from_str(": ");
    list.append(join(words, ", ").as_str());
    push_span(out, list.as_str(), Style::Plain);
    assert(spans(out@) =~= spans(old(out)@) + related_words(label@, texts(words@)));
}

impl Meaning {
    /// The layout of this meaning.
    pub fn layout(&self) -> (out: Vec<Span>)
        ensures
            spans(out@) == meaning_layout(self@),
    {
        let mut out: Vec<Span> = Vec::new();
        push_span(&mut out, self.part_of_speech.as_str(), Style::Blue);
        push_span(&mut out, "\n", Style::Plain);
        let ghost head = spans(out@);
        assert(head =~= seq![styled(self@.part_of_speech, Style::Blue), line_end()]);
        let ghost parts = definition_line_parts(self@.definitions);
        let mut i: usize = 0;
        proof {
            lemma_flattened_upto_none(parts);
        }
        while i < self.definitions.len()
            invariant
                i <= self.definitions.len(),
                parts == definition_line_parts(self@.definitions),
                spans(out@) =~= head + flattened_upto(parts, i as int),
            decreases self.definitions.len() - i,
        {
            push_span(&mut out, "\t- ", Style::Plain);
            push_spans(&mut out, self.definitions[i].layout());
            push_span(&mut out, "\n", Style::Plain);
            proof {
                lemma_flattened_upto_next(parts, i as int);
            }
            i += 1;
        }
        proof {
            lemma_flattened_upto_all(parts);
        }
        let has_synonyms = self.synonyms.len() > 0;
        let has_antonyms = self.antonyms.len() > 0;
        if has_synonyms || has_antonyms {
            push_span(&mut out, "\n", Style::Plain);
        }
        if has_synonyms {
            push_related_words(&mut out, "Synonyms", &self.synonyms);
        }
        if has_antonyms {
            if has_synonyms {
                push_span(&mut out, "\n", Style::Plain);
            }
            push_related_words(&mut out, "Antonyms", &self.antonyms);
        }
        assert(spans(out@) =~= meaning_layout(self@));
        out
    }
}

impl Word {
    /// The layout of this entry.
    pub fn layout(&self) -> (out: Vec<Span>)
        ensures
            spans(out@) == word_layout(self@),
    {
        let mut out: Vec<Span> = Vec::new();
        push_span(&mut out, self.word.as_str(), Style::BoldUnderline);
        push_span(&mut out, "\n", Style::Plain);
        if self.phonetics.len() > 0 {
            push_span(&mut out, "Phonetics\n", Style::Underline);
        }
        let ghost head = spans(out@);
        let ghost parts = phonetic_line_parts(self@.phonetics);
        let mut i: usize = 0;
        proof {
            lemma_flattened_upto_none(parts);
        }
        while i < self.phonetics.len()
            invariant
                i <= self.phonetics.len(),
                parts == phonetic_line_parts(self@.phonetics),
                spans(out@) =~= head + flattened_upto(parts, i as int),
            decreases self.phonetics.len() - i,
        {
            push_span(&mut out, "\t- ", Style::Plain);
            push_spans(&mut out, self.phonetics[i].layout());
            push_span(&mut out, "\n", Style::Plain);
            proof {
                lemma_flattened_upto_next(parts, i as int);
            }
            i += 1;
        }
        proof {
            lemma_flattened_upto_all(parts);
        }
        assert(spans(out@) =~= seq![styled(self@.word, Style::BoldUnderline), line_end()]
            + phonetics_section(self@.phonetics));
        if self.meanings.len() > 0 {
            push_span(&mut out, "Meanings\n", Style::Underline);
        }
        let ghost head = spans(out@);
        let ghost parts = meaning_entry_parts(self@.meanings);
        let mut i: usize = 0;
        proof {
            lemma_flattened_upto_none(parts);
        }
        while i < self.meanings.len()
            invariant
                i <= self.meanings.len(),
                parts == meaning_entry_parts(self@.meanings),
                spans(out@) =~= head + flattened_upto(parts, i as int),
            decreases self.meanings.len() - i,
        {
            let meaning = &self.meanings[i];
            let mut number = decimal_string(i + 1);
            number.append(": ");
            push_span(&mut out, number.as_str(), Style::Plain);
            push_spans(&mut out, meaning.layout());
            if meaning.synonyms.len() > 0 || meaning.antonyms.len() > 0 {
                push_span(&mut out, "\n", Style::Plain);
            }
            if i < self.meanings.len() - 1 {
                push_span(&mut out, "\n", Style::Plain);
            }
            proof {
                lemma_flattened_upto_next(parts, i as int);
            }
            i += 1;
        }
        proof {
            lemma_flattened_upto_all(parts);
        }
        assert(spans(out@) =~= word_layout(self@));
        out
    }
}

} // verus!
