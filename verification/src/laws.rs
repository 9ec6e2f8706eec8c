//! What holds of every entry and of every text that shows it.

use vstd::prelude::*;
use crate::layout::{
    antonym_line, bullet, closing, definition_layout, definition_line_parts, definition_lines,
    has_related_words, last_line, line_end, meaning_entries, meaning_entry_parts, meaning_layout,
    meanings_header, meanings_section, numbered, phonetic_layout, phonetic_line_parts,
    phonetic_lines, phonetics_header, phonetics_section, related_gap, related_words,
    synonym_line, unavailable, word_layout,
};
use crate::model::{DefinitionView, MeaningView, PhoneticView, WordView};
use crate::paint::{
    is_painting, is_rendering, lemma_plain_text_concat, lemma_plain_text_member,
    lemma_plain_text_of_ending, lemma_plain_text_of_run, lemma_plain_text_push,
    lemma_rendering_of_ending, lemma_rendering_of_nothing, lemma_rendering_of_push,
    lemma_rendering_of_run, lemma_rendering_of_span, lemma_rendering_splits, plain_text,
};
use crate::render::{entries_layout, entry_blocks};
use crate::runs::{
    lemma_end_occurs, lemma_ending_extends, lemma_first_part_leads, lemma_flatten_member,
    lemma_last_part_ends, lemma_neighbours_occur, lemma_occurs_between,
    lemma_occurs_in_transitive, lemma_part_occurs, lemma_start_occurs, occurs_in,
};
use crate::style::{plain, styled, SpanView, Style};
use crate::text::{decimal, is_digit, joined, lemma_decimal_is_digits, lemma_joined_member};

verus! {

/// The two headers differ.
proof fn lemma_headers_differ()
    ensures
        phonetics_header() != meanings_header(),
{
    reveal_strlit("Phonetics\n");
    reveal_strlit("Meanings\n");
    assert("Phonetics\n"@.len() != "Meanings\n"@.len());
}

/// The two labels of related words differ.
proof fn lemma_labels_differ()
    ensures
        "Synonyms"@ != "Antonyms"@,
{
    reveal_strlit("Synonyms");
    reveal_strlit("Antonyms");
    assert("Synonyms"@[0] != "Antonyms"@[0]);
}

/// The spans of a list of pronunciations are plain or dimmed.
proof fn lemma_phonetic_lines_styles(ps: Seq<PhoneticView>, span: SpanView)
    requires
        phonetic_lines(ps).contains(span),
    ensures
        span.style == Style::Plain || span.style == Style::Dimmed,
{
    let parts = phonetic_line_parts(ps);
    lemma_flatten_member(parts, span);
    let i = choose|i: int| 0 <= i < parts.len() && (#[trigger] parts[i]).contains(span);
    let k = choose|k: int| 0 <= k < parts[i].len() && parts[i][k] == span;
    assert(parts[i] == bullet(phonetic_layout(ps[i])));
}

/// The spans of a list of senses are plain or purple.
proof fn lemma_definition_lines_styles(ds: Seq<DefinitionView>, span: SpanView)
    requires
        definition_lines(ds).contains(span),
    ensures
        span.style == Style::Plain || span.style == Style::Purple,
{
    let parts = definition_line_parts(ds);
    lemma_flatten_member(parts, span);
    let i = choose|i: int| 0 <= i < parts.len() && (#[trigger] parts[i]).contains(span);
    let k = choose|k: int| 0 <= k < parts[i].len() && parts[i][k] == span;
    assert(parts[i] == bullet(definition_layout(ds[i])));
}

/// The spans of a meaning are plain, blue, purple or red, and a red one is
/// the label of a line of related words that the meaning has.
proof fn lemma_meaning_styles(m: MeaningView, span: SpanView)
    requires
        meaning_layout(m).contains(span),
    ensures
        span.style == Style::Plain || span.style == Style::Blue || span.style == Style::Purple
            || span.style == Style::Red,
        span.style == Style::Red ==> (span.text == "Synonyms"@ && m.synonyms.len() > 0) || (
        span.text == "Antonyms"@ && m.antonyms.len() > 0),
{
    let head = seq![styled(m.part_of_speech, Style::Blue), line_end()];
    let lines = definition_lines(m.definitions);
    let k = choose|k: int| 0 <= k < meaning_layout(m).len() && meaning_layout(m)[k] == span;
    if k < head.len() {
    } else if k < head.len() + lines.len() {
        assert(lines[k - head.len()] == span);
        lemma_definition_lines_styles(m.definitions, span);
    } else {
        let tail = related_gap(m) + synonym_line(m) + antonym_line(m);
        assert(meaning_layout(m) =~= head + lines + tail);
        assert(tail[k - head.len() - lines.len()] == span);
    }
}

/// The spans of a list of numbered meanings are plain, blue, purple or red.
proof fn lemma_meaning_entries_styles(ms: Seq<MeaningView>, span: SpanView)
    requires
        meaning_entries(ms).contains(span),
    ensures
        span.style == Style::Plain || span.style == Style::Blue || span.style == Style::Purple
            || span.style == Style::Red,
{
    let parts = meaning_entry_parts(ms);
    lemma_flatten_member(parts, span);
    let i = choose|i: int| 0 <= i < parts.len() && (#[trigger] parts[i]).contains(span);
    let k = choose|k: int| 0 <= k < parts[i].len() && parts[i][k] == span;
    let inner = meaning_layout(ms[i]);
    if 1 <= k <= inner.len() {
        assert(inner[k - 1] == span);
        lemma_meaning_styles(ms[i], span);
    }
}

/// The header of the pronunciations stands in the layout of an entry if the
/// entry has pronunciations, and only then.
pub proof fn lemma_phonetics_header_iff(w: WordView)
    ensures
        word_layout(w).contains(phonetics_header()) <==> w.phonetics.len() > 0,
{
    let layout = word_layout(w);
    let head = seq![styled(w.word, Style::BoldUnderline), line_end()];
    if w.phonetics.len() > 0 {
        assert(layout[2] == phonetics_header());
    } else if layout.contains(phonetics_header()) {
        let k = choose|k: int| 0 <= k < layout.len() && layout[k] == phonetics_header();
        assert(layout =~= head + meanings_section(w.meanings));
        if k >= 2 {
            let section = meanings_section(w.meanings);
            assert(section[k - 2] == phonetics_header());
            lemma_headers_differ();
            let entries = meaning_entries(w.meanings);
            assert(entries[k - 3] == phonetics_header());
            lemma_meaning_entries_styles(w.meanings, phonetics_header());
        }
    }
}

/// The header of the meanings stands in the layout of an entry if the entry
/// has meanings, and only then.
pub proof fn lemma_meanings_header_iff(w: WordView)
    ensures
        word_layout(w).contains(meanings_header()) <==> w.meanings.len() > 0,
{
    let layout = word_layout(w);
    let head = seq![styled(w.word, Style::BoldUnderline), line_end()];
    let section = phonetics_section(w.phonetics);
    if w.meanings.len() > 0 {
        assert(layout[(head.len() + section.len()) as int] == meanings_header());
    } else if layout.contains(meanings_header()) {
        let k = choose|k: int| 0 <= k < layout.len() && layout[k] == meanings_header();
        assert(layout =~= head + section);
        if k >= 2 {
            assert(section[k - 2] == meanings_header());
            lemma_headers_differ();
            let lines = phonetic_lines(w.phonetics);
            assert(lines[k - 3] == meanings_header());
            lemma_phonetic_lines_styles(w.phonetics, meanings_header());
        }
    }
}

/// Every rendering of an entry is the painted headword, the end of the
/// line, a rendering of the pronunciations under their header and a
/// rendering of the meanings under theirs. Where the entry has no
/// pronunciations, nothing stands between the headword and the meanings;
/// where it has no meanings, nothing stands after the pronunciations. The
/// result is the painted headword and the two renderings.
pub proof fn lemma_entry_rendering(w: WordView, out: Seq<char>) -> (parts: (
    Seq<char>,
    Seq<char>,
    Seq<char>,
))
    requires
        is_rendering(out, word_layout(w)),
    ensures
        is_painting(parts.0, styled(w.word, Style::BoldUnderline)),
        is_rendering(parts.1, phonetics_section(w.phonetics)),
        is_rendering(parts.2, meanings_section(w.meanings)),
        w.phonetics.len() == 0 ==> parts.1 == Seq::<char>::empty(),
        w.meanings.len() == 0 ==> parts.2 == Seq::<char>::empty(),
        out == parts.0 + "\n"@ + parts.1 + parts.2,
{
    let headword = styled(w.word, Style::BoldUnderline);
    let first = seq![headword].push(line_end());
    let second = phonetics_section(w.phonetics);
    let third = meanings_section(w.meanings);
    assert(word_layout(w) =~= first + second + third);
    let (xy, z) = lemma_rendering_splits(out, first + second, third);
    let (x, y) = lemma_rendering_splits(xy, first, second);
    let (h, end) = lemma_rendering_of_push(x, seq![headword], line_end());
    lemma_rendering_of_span(h, headword);
    lemma_rendering_of_nothing(y);
    lemma_rendering_of_nothing(z);
    (h, y, z)
}

/// Every rendering of a list item is a rendering of its body between the
/// indentation and the end of the line. The result is the rendering of the
/// body.
pub proof fn lemma_bullet_rendering(
    shown: Seq<char>,
    body: Seq<SpanView>,
) -> (inner: Seq<char>)
    requires
        is_rendering(shown, bullet(body)),
    ensures
        is_rendering(inner, body),
        shown == "\t- "@ + inner + "\n"@,
{
    let (xy, z) = lemma_rendering_splits(shown, seq![plain("\t- "@)] + body, seq![line_end()]);
    let (x, y) = lemma_rendering_splits(xy, seq![plain("\t- "@)], body);
    lemma_rendering_of_span(x, plain("\t- "@));
    lemma_rendering_of_span(z, line_end());
    y
}

/// The list item of each pronunciation of an entry stands in the layout of
/// the entry.
pub proof fn lemma_phonetic_line_occurs(w: WordView, i: int)
    requires
        0 <= i < w.phonetics.len(),
    ensures
        occurs_in(word_layout(w), bullet(phonetic_layout(w.phonetics[i]))),
{
    let parts = phonetic_line_parts(w.phonetics);
    lemma_part_occurs(parts, i);
    let head = seq![styled(w.word, Style::BoldUnderline), line_end(), phonetics_header()];
    let lines = phonetic_lines(w.phonetics);
    let rest = meanings_section(w.meanings);
    assert(word_layout(w) =~= head + lines + rest);
    lemma_occurs_between(head, lines, rest);
    lemma_occurs_in_transitive(word_layout(w), lines, parts[i]);
}

/// Each pronunciation of an entry stands in the layout of the entry.
pub proof fn lemma_phonetic_occurs(w: WordView, i: int)
    requires
        0 <= i < w.phonetics.len(),
    ensures
        occurs_in(word_layout(w), phonetic_layout(w.phonetics[i])),
{
    let item = phonetic_layout(w.phonetics[i]);
    lemma_phonetic_line_occurs(w, i);
    lemma_occurs_between(seq![plain("\t- "@)], item, seq![line_end()]);
    lemma_occurs_in_transitive(word_layout(w), bullet(item), item);
}

/// Every rendering of a pronunciation that has a transcription and a
/// recording is the transcription, a space and the address of the recording
/// in parentheses, the address painted as a dimmed span. The result is the
/// painted address.
pub proof fn lemma_phonetic_rendering(shown: Seq<char>, p: PhoneticView) -> (address: Seq<char>)
    requires
        p.text is Some,
        p.audio.len() > 0,
        is_rendering(shown, phonetic_layout(p)),
    ensures
        is_painting(address, styled(p.audio, Style::Dimmed)),
        shown == p.text->0 + " "@ + "("@ + address + ")"@,
{
    let lead = plain(p.text->0 + " "@);
    let audio = styled(p.audio, Style::Dimmed);
    let three = seq![lead, plain("("@), audio];
    let two = seq![lead, plain("("@)];
    assert(phonetic_layout(p) =~= three.push(plain(")"@)));
    let (x3, close) = lemma_rendering_of_push(shown, three, plain(")"@));
    assert(three =~= two.push(audio));
    let (x2, address) = lemma_rendering_of_push(x3, two, audio);
    assert(two =~= seq![lead].push(plain("("@)));
    let (x1, open) = lemma_rendering_of_push(x2, seq![lead], plain("("@));
    lemma_rendering_of_span(x1, lead);
    address
}

/// Every rendering of an entry holds, for each pronunciation that has a
/// transcription and a recording, the transcription, a space and the address
/// of the recording in parentheses, the address painted as a dimmed span.
/// The result is the painted address.
pub proof fn lemma_transcription_then_audio(
    w: WordView,
    i: int,
    out: Seq<char>,
) -> (address: Seq<char>)
    requires
        0 <= i < w.phonetics.len(),
        w.phonetics[i].text is Some,
        w.phonetics[i].audio.len() > 0,
        is_rendering(out, word_layout(w)),
    ensures
        is_painting(address, styled(w.phonetics[i].audio, Style::Dimmed)),
        occurs_in(out, w.phonetics[i].text->0 + " "@ + "("@ + address + ")"@),
{
    lemma_phonetic_occurs(w, i);
    let shown = lemma_rendering_of_run(out, word_layout(w), phonetic_layout(w.phonetics[i]));
    lemma_phonetic_rendering(shown, w.phonetics[i])
}

/// Without decoration, the text of an entry holds, for each pronunciation
/// that has a transcription and a recording, the transcription, a space and
/// the address of the recording in parentheses.
pub proof fn lemma_plain_transcription_then_audio(w: WordView, i: int)
    requires
        0 <= i < w.phonetics.len(),
        w.phonetics[i].text is Some,
        w.phonetics[i].audio.len() > 0,
    ensures
        occurs_in(
            plain_text(word_layout(w)),
            w.phonetics[i].text->0 + " "@ + "("@ + w.phonetics[i].audio + ")"@,
        ),
{
    let p = w.phonetics[i];
    let item = phonetic_layout(p);
    lemma_phonetic_occurs(w, i);
    lemma_plain_text_of_run(word_layout(w), item);
    let lead = plain(p.text->0 + " "@);
    let audio = styled(p.audio, Style::Dimmed);
    let nothing = Seq::<SpanView>::empty();
    assert(item =~= nothing.push(lead).push(plain("("@)).push(audio).push(plain(")"@)));
    lemma_plain_text_push(nothing.push(lead).push(plain("("@)).push(audio), plain(")"@));
    lemma_plain_text_push(nothing.push(lead).push(plain("("@)), audio);
    lemma_plain_text_push(nothing.push(lead), plain("("@));
    lemma_plain_text_push(nothing, lead);
    assert(plain_text(nothing) =~= Seq::<char>::empty());
    assert(plain_text(item) =~= p.text->0 + " "@ + "("@ + p.audio + ")"@);
}

/// Every rendering of an entry holds, for each pronunciation that has a
/// transcription and no recording, a list item of the transcription and a
/// space, and no parentheses after it.
pub proof fn lemma_transcription_without_audio(w: WordView, i: int, out: Seq<char>)
    requires
        0 <= i < w.phonetics.len(),
        w.phonetics[i].text is Some,
        w.phonetics[i].audio.len() == 0,
        is_rendering(out, word_layout(w)),
    ensures
        occurs_in(out, "\t- "@ + (w.phonetics[i].text->0 + " "@) + "\n"@),
{
    let p = w.phonetics[i];
    let item = phonetic_layout(p);
    lemma_phonetic_line_occurs(w, i);
    let shown = lemma_rendering_of_run(out, word_layout(w), bullet(item));
    let inner = lemma_bullet_rendering(shown, item);
    lemma_rendering_of_span(inner, plain(p.text->0 + " "@));
}

/// Every rendering of an entry holds, for each pronunciation that has no
/// transcription, a list item that begins with the placeholder, painted as
/// a dimmed span. The result is the painted placeholder.
pub proof fn lemma_missing_transcription_shows_placeholder(
    w: WordView,
    i: int,
    out: Seq<char>,
) -> (placeholder: Seq<char>)
    requires
        0 <= i < w.phonetics.len(),
        w.phonetics[i].text is None,
        is_rendering(out, word_layout(w)),
    ensures
        is_painting(placeholder, unavailable()),
        occurs_in(out, "\t- "@ + placeholder),
{
    let item = phonetic_layout(w.phonetics[i]);
    let start = seq![plain("\t- "@)].push(unavailable());
    lemma_phonetic_line_occurs(w, i);
    let after = bullet(item).skip(2);
    assert(bullet(item) =~= start + after);
    lemma_start_occurs(start, after);
    lemma_occurs_in_transitive(word_layout(w), bullet(item), start);
    let shown = lemma_rendering_of_run(out, word_layout(w), start);
    let (indent, placeholder) = lemma_rendering_of_push(shown, seq![plain("\t- "@)], unavailable());
    lemma_rendering_of_span(indent, plain("\t- "@));
    placeholder
}

/// Each meaning stands in the list of numbered meanings under its number.
proof fn lemma_numbered_occurs(ms: Seq<MeaningView>, i: int)
    requires
        0 <= i < ms.len(),
    ensures
        occurs_in(meaning_entries(ms), numbered((i + 1) as nat, ms[i])),
{
    let parts = meaning_entry_parts(ms);
    let this = numbered((i + 1) as nat, ms[i]);
    lemma_part_occurs(parts, i);
    if i + 1 < ms.len() {
        lemma_start_occurs(this, seq![line_end()]);
    } else {
        lemma_start_occurs(this, Seq::<SpanView>::empty());
    }
    lemma_occurs_in_transitive(meaning_entries(ms), parts[i], this);
}

/// Each meaning but the last stands in the list of numbered meanings right
/// before the next one, with one empty line between the two.
proof fn lemma_numbered_neighbours_occur(ms: Seq<MeaningView>, i: int)
    requires
        0 <= i,
        i + 1 < ms.len(),
    ensures
        occurs_in(
            meaning_entries(ms),
            numbered((i + 1) as nat, ms[i]) + seq![line_end()] + numbered(
                (i + 2) as nat,
                ms[i + 1],
            ),
        ),
{
    let parts = meaning_entry_parts(ms);
    let this = numbered((i + 1) as nat, ms[i]);
    let next = numbered((i + 2) as nat, ms[i + 1]);
    let pair = this + seq![line_end()] + next;
    lemma_neighbours_occur(parts, i);
    assert(parts[i] == this + seq![line_end()]);
    if i + 2 < ms.len() {
        assert(parts[i + 1] == next + seq![line_end()]);
        assert(parts[i] + parts[i + 1] =~= pair + seq![line_end()]);
        lemma_start_occurs(pair, seq![line_end()]);
    } else {
        assert(parts[i + 1] == next + Seq::<SpanView>::empty());
        assert(parts[i] + parts[i + 1] =~= pair + Seq::<SpanView>::empty());
        lemma_start_occurs(pair, Seq::<SpanView>::empty());
    }
    lemma_occurs_in_transitive(meaning_entries(ms), parts[i] + parts[i + 1], pair);
}

/// The list of numbered meanings begins with the first meaning under the
/// number one.
proof fn lemma_first_numbered_leads(ms: Seq<MeaningView>)
    requires
        ms.len() > 0,
    ensures
        numbered(1, ms[0]).is_prefix_of(meaning_entries(ms)),
{
    let parts = meaning_entry_parts(ms);
    lemma_first_part_leads(parts);
    let this = numbered(1, ms[0]);
    assert(this.is_prefix_of(parts.first())) by {
        if 1 < ms.len() {
            lemma_start_occurs(this, seq![line_end()]);
        } else {
            lemma_start_occurs(this, Seq::<SpanView>::empty());
        }
    }
    assert(this =~= meaning_entries(ms).subrange(0, this.len() as int)) by {
        assert(parts.first() =~= meaning_entries(ms).subrange(0, parts.first().len() as int));
    }
}

/// The list of numbered meanings ends with the last meaning under its
/// number.
proof fn lemma_last_numbered_ends(ms: Seq<MeaningView>)
    requires
        ms.len() > 0,
    ensures
        numbered(ms.len(), ms.last()).is_suffix_of(meaning_entries(ms)),
{
    let parts = meaning_entry_parts(ms);
    lemma_last_part_ends(parts);
    assert(parts.last() =~= numbered(ms.len(), ms.last()));
}

/// The layout of an entry that has meanings: what stands before their
/// header, the header, the numbered meanings.
proof fn lemma_layout_with_meanings(w: WordView)
    requires
        w.meanings.len() > 0,
    ensures
        word_layout(w) == seq![styled(w.word, Style::BoldUnderline), line_end()]
            + phonetics_section(w.phonetics) + seq![meanings_header()] + meaning_entries(
            w.meanings,
        ),
{
    assert(word_layout(w) =~= seq![styled(w.word, Style::BoldUnderline), line_end()]
        + phonetics_section(w.phonetics) + seq![meanings_header()] + meaning_entries(w.meanings));
}

/// In the layout of an entry the meanings stand under the numbers one, two,
/// three and so on, in the order of the entry: the first right under the
/// header, each next one after the one before it and one empty line, and
/// nothing after the last.
pub proof fn lemma_meanings_numbered_in_order(w: WordView, i: int)
    requires
        0 <= i < w.meanings.len(),
    ensures
        occurs_in(word_layout(w), numbered((i + 1) as nat, w.meanings[i])),
        i == 0 ==> occurs_in(
            word_layout(w),
            seq![meanings_header()] + numbered(1, w.meanings[0]),
        ),
        i + 1 < w.meanings.len() ==> occurs_in(
            word_layout(w),
            numbered((i + 1) as nat, w.meanings[i]) + seq![line_end()] + numbered(
                (i + 2) as nat,
                w.meanings[i + 1],
            ),
        ),
        i + 1 == w.meanings.len() ==> numbered((i + 1) as nat, w.meanings[i]).is_suffix_of(
            word_layout(w),
        ),
{
    let ms = w.meanings;
    let entries = meaning_entries(ms);
    let head = seq![styled(w.word, Style::BoldUnderline), line_end()] + phonetics_section(
        w.phonetics,
    );
    let front = head + seq![meanings_header()];
    lemma_layout_with_meanings(w);
    lemma_end_occurs(front, entries);

    lemma_numbered_occurs(ms, i);
    lemma_occurs_in_transitive(word_layout(w), entries, numbered((i + 1) as nat, ms[i]));
    if i == 0 {
        lemma_first_numbered_leads(ms);
        let first = numbered(1, ms[0]);
        let rest = entries.skip(first.len() as int);
        assert(entries =~= first + rest);
        assert(word_layout(w) =~= head + (seq![meanings_header()] + first) + rest);
        lemma_occurs_between(head, seq![meanings_header()] + first, rest);
    }
    if i + 1 < ms.len() {
        lemma_numbered_neighbours_occur(ms, i);
        lemma_occurs_in_transitive(
            word_layout(w),
            entries,
            numbered((i + 1) as nat, ms[i]) + seq![line_end()] + numbered(
                (i + 2) as nat,
                ms[i + 1],
            ),
        );
    }
    if i + 1 == ms.len() {
        lemma_last_numbered_ends(ms);
        lemma_ending_extends(front, entries, numbered(ms.len(), ms.last()));
    }
}

/// Every rendering of a numbered meaning is the numeral, a colon and a
/// space, a rendering of the meaning, and the end of the line where the
/// meaning leaves its last line open. The result is the rendering of the
/// meaning.
pub proof fn lemma_numbered_rendering(
    shown: Seq<char>,
    number: nat,
    m: MeaningView,
) -> (body: Seq<char>)
    requires
        is_rendering(shown, numbered(number, m)),
    ensures
        is_rendering(body, meaning_layout(m)),
        has_related_words(m) ==> shown == decimal(number) + ": "@ + body + "\n"@,
        !has_related_words(m) ==> shown == decimal(number) + ": "@ + body,
{
    let label = plain(decimal(number) + ": "@);
    let (xy, z) = lemma_rendering_splits(shown, seq![label] + meaning_layout(m), closing(m));
    let (x, y) = lemma_rendering_splits(xy, seq![label], meaning_layout(m));
    lemma_rendering_of_span(x, label);
    if has_related_words(m) {
        lemma_rendering_of_span(z, line_end());
    } else {
        lemma_rendering_of_nothing(z);
        assert(shown =~= decimal(number) + ": "@ + y);
    }
    y
}

/// Every rendering of an entry shows each meaning but the last right before
/// the next one, with one empty line between the two. The result is the
/// renderings of the two meanings under their numbers.
pub proof fn lemma_meanings_shown_apart(
    w: WordView,
    i: int,
    out: Seq<char>,
) -> (pair: (Seq<char>, Seq<char>))
    requires
        0 <= i,
        i + 1 < w.meanings.len(),
        is_rendering(out, word_layout(w)),
    ensures
        is_rendering(pair.0, numbered((i + 1) as nat, w.meanings[i])),
        is_rendering(pair.1, numbered((i + 2) as nat, w.meanings[i + 1])),
        occurs_in(out, pair.0 + "\n"@ + pair.1),
{
    let a = numbered((i + 1) as nat, w.meanings[i]);
    let b = numbered((i + 2) as nat, w.meanings[i + 1]);
    lemma_meanings_numbered_in_order(w, i);
    let shown = lemma_rendering_of_run(out, word_layout(w), a + seq![line_end()] + b);
    let (xy, z) = lemma_rendering_splits(shown, a + seq![line_end()], b);
    let (x, y) = lemma_rendering_splits(xy, a, seq![line_end()]);
    lemma_rendering_of_span(y, line_end());
    (x, z)
}

/// A meaning under its number ends with its last line and one end of a
/// line.
pub proof fn lemma_numbered_ends_one_line(number: nat, m: MeaningView)
    ensures
        (last_line(number, m) + seq![line_end()]).is_suffix_of(numbered(number, m)),
{
    let label = seq![plain(decimal(number) + ": "@)];
    let head = seq![styled(m.part_of_speech, Style::Blue), line_end()];
    let lines = definition_lines(m.definitions);
    let whole = numbered(number, m);
    let ending = last_line(number, m) + seq![line_end()];
    if m.antonyms.len() > 0 {
        let front = label + head + lines + related_gap(m) + synonym_line(m) + (if m.synonyms.len()
            > 0 {
            seq![line_end()]
        } else {
            Seq::<SpanView>::empty()
        });
        assert(whole =~= front + ending);
        lemma_end_occurs(front, ending);
    } else if m.synonyms.len() > 0 {
        let front = label + head + lines + related_gap(m);
        assert(whole =~= front + ending);
        lemma_end_occurs(front, ending);
    } else if m.definitions.len() > 0 {
        let parts = definition_line_parts(m.definitions);
        lemma_last_part_ends(parts);
        assert(parts.last() =~= ending);
        assert(whole =~= (label + head) + lines);
        lemma_ending_extends(label + head, lines, ending);
    } else {
        assert(definition_line_parts(m.definitions) =~= Seq::<Seq<SpanView>>::empty());
        assert(whole =~= ending);
    }
}

/// In the layout of an entry one empty line and no more parts each meaning
/// from the next: after the last line of the one stand the end of that
/// line, the end of one more line, and the number of the next.
pub proof fn lemma_one_empty_line_between(w: WordView, i: int)
    requires
        0 <= i,
        i + 1 < w.meanings.len(),
    ensures
        occurs_in(
            word_layout(w),
            last_line((i + 1) as nat, w.meanings[i]) + seq![line_end(), line_end()] + seq![
                plain(decimal((i + 2) as nat) + ": "@),
            ],
        ),
{
    let this = numbered((i + 1) as nat, w.meanings[i]);
    let next = numbered((i + 2) as nat, w.meanings[i + 1]);
    let line = last_line((i + 1) as nat, w.meanings[i]);
    let label = seq![plain(decimal((i + 2) as nat) + ": "@)];
    let pair = this + seq![line_end()] + next;
    let block = line + seq![line_end(), line_end()] + label;
    lemma_meanings_numbered_in_order(w, i);
    lemma_numbered_ends_one_line((i + 1) as nat, w.meanings[i]);
    let front = this.take(this.len() - (line.len() + 1));
    assert(this =~= front + (line + seq![line_end()]));
    let rest = next.skip(1);
    assert(next =~= label + rest);
    assert(pair =~= front + block + rest);
    lemma_occurs_between(front, block, rest);
    lemma_occurs_in_transitive(word_layout(w), pair, block);
}

/// The layout of an entry that has meanings ends with the last line of the
/// last meaning and one end of a line: no empty line trails the last
/// meaning.
pub proof fn lemma_entry_ends_one_line(w: WordView)
    requires
        w.meanings.len() > 0,
    ensures
        (last_line(w.meanings.len(), w.meanings.last()) + seq![line_end()]).is_suffix_of(
            word_layout(w),
        ),
{
    let n = w.meanings.len();
    let last = numbered(n, w.meanings.last());
    let ending = last_line(n, w.meanings.last()) + seq![line_end()];
    lemma_meanings_numbered_in_order(w, n - 1);
    lemma_numbered_ends_one_line(n, w.meanings.last());
    let layout = word_layout(w);
    let front = layout.take(layout.len() - last.len());
    assert(layout =~= front + last);
    lemma_ending_extends(front, last, ending);
}

/// Whether `text` holds no end of a line.
pub open spec fn is_one_line(text: Seq<char>) -> bool {
    !text.contains('\n')
}

/// Without decoration, the text of an entry that has meanings ends with
/// the last line of the last meaning, which is not empty, and one end of a
/// line: what stands before the final end of a line is the last character
/// of that line.
pub proof fn lemma_plain_text_ends_one_line(w: WordView)
    requires
        w.meanings.len() > 0,
    ensures
        plain_text(last_line(w.meanings.len(), w.meanings.last())).len() > 0,
        (plain_text(last_line(w.meanings.len(), w.meanings.last())) + "\n"@).is_suffix_of(
            plain_text(word_layout(w)),
        ),
        plain_text(word_layout(w)).last() == '\n',
        plain_text(word_layout(w)).drop_last().last() == plain_text(
            last_line(w.meanings.len(), w.meanings.last()),
        ).last(),
{
    let line = last_line(w.meanings.len(), w.meanings.last());
    let text = plain_text(word_layout(w));
    lemma_entry_ends_one_line(w);
    lemma_plain_text_of_ending(word_layout(w), line + seq![line_end()]);
    assert(line + seq![line_end()] =~= line.push(line_end()));
    lemma_plain_text_push(line, line_end());
    reveal_strlit("\n");
    let shown = plain_text(line);
    assert(shown.len() > 0) by {
        reveal_strlit("\t");
        reveal_strlit("\t- ");
        reveal_strlit(": ");
        let first = seq![line.first()];
        let rest = line.skip(1);
        assert(line =~= first + rest);
        lemma_plain_text_concat(first, rest);
        lemma_plain_text_push(Seq::<SpanView>::empty(), line.first());
        assert(first =~= Seq::<SpanView>::empty().push(line.first()));
        assert(plain_text(Seq::<SpanView>::empty()) =~= Seq::<char>::empty());
        assert(line.first().text.len() > 0);
    }
    let ending = shown + "\n"@;
    assert(ending.len() == shown.len() + 1);
    assert(text.subrange(text.len() - ending.len(), text.len() as int) == ending);
    assert(text.last() == ending.last());
    assert(text.drop_last().last() == ending[ending.len() - 2]);
}

/// Whether none of the texts of a meaning holds the end of a line.
pub open spec fn is_on_single_lines(m: MeaningView) -> bool {
    &&& is_one_line(m.part_of_speech)
    &&& forall|i: int| 0 <= i < m.synonyms.len() ==> is_one_line(#[trigger] m.synonyms[i])
    &&& forall|i: int| 0 <= i < m.antonyms.len() ==> is_one_line(#[trigger] m.antonyms[i])
    &&& forall|i: int|
        0 <= i < m.definitions.len() ==> is_one_line((#[trigger] m.definitions[i]).definition)
            && (m.definitions[i].example matches Some(example) ==> is_one_line(example))
}

/// A line of related words holds no end of a line where the label and the
/// words hold none.
proof fn lemma_related_words_one_line(label: Seq<char>, words: Seq<Seq<char>>, k: int)
    requires
        is_one_line(label),
        forall|i: int| 0 <= i < words.len() ==> is_one_line(#[trigger] words[i]),
        0 <= k < related_words(label, words).len(),
    ensures
        is_one_line(related_words(label, words)[k].text),
{
    reveal_strlit("\t");
    reveal_strlit(": ");
    reveal_strlit(", ");
    let list = ": "@ + joined(words, ", "@);
    if list.contains('\n') {
        let at = choose|at: int| 0 <= at < list.len() && list[at] == '\n';
        assert(joined(words, ", "@)[at - 2] == '\n');
        lemma_joined_member(words, ", "@, '\n');
    }
    if "\t"@.contains('\n') {
    }
}

/// The last line of a meaning holds no end of a line where none of the
/// texts of the meaning holds one.
pub proof fn lemma_last_line_is_one_line(number: nat, m: MeaningView, k: int)
    requires
        is_on_single_lines(m),
        0 <= k < last_line(number, m).len(),
    ensures
        is_one_line(last_line(number, m)[k].text),
{
    reveal_strlit("Antonyms");
    reveal_strlit("Synonyms");
    if m.antonyms.len() > 0 {
        assert(is_one_line("Antonyms"@)) by {
            if "Antonyms"@.contains('\n') {
            }
        }
        lemma_related_words_one_line("Antonyms"@, m.antonyms, k);
    } else if m.synonyms.len() > 0 {
        assert(is_one_line("Synonyms"@)) by {
            if "Synonyms"@.contains('\n') {
            }
        }
        lemma_related_words_one_line("Synonyms"@, m.synonyms, k);
    } else if m.definitions.len() > 0 {
        reveal_strlit("\t- ");
        reveal_strlit(" (");
        reveal_strlit(")");
        let d = m.definitions[m.definitions.len() - 1];
        assert(is_one_line(d.definition));
        let text = last_line(number, m)[k].text;
        if text.contains('\n') {
        }
    } else {
        reveal_strlit(": ");
        lemma_decimal_is_digits(number);
        let label = decimal(number) + ": "@;
        if label.contains('\n') {
            let at = choose|at: int| 0 <= at < label.len() && label[at] == '\n';
            if at < decimal(number).len() {
                assert(is_digit(decimal(number)[at]));
            }
        }
    }
}

/// Without decoration, the text of an entry that has meanings ends with
/// one end of a line and no second one before it, where none of the texts
/// of the last meaning holds the end of a line.
pub proof fn lemma_no_empty_line_trails(w: WordView)
    requires
        w.meanings.len() > 0,
        is_on_single_lines(w.meanings.last()),
    ensures
        plain_text(word_layout(w)).len() >= 2,
        plain_text(word_layout(w)).last() == '\n',
        plain_text(word_layout(w)).drop_last().last() != '\n',
{
    let line = last_line(w.meanings.len(), w.meanings.last());
    lemma_plain_text_ends_one_line(w);
    if plain_text(line).last() == '\n' {
        assert(plain_text(line).contains('\n'));
        lemma_plain_text_member(line, '\n');
        let k = choose|k: int| 0 <= k < line.len() && (#[trigger] line[k]).text.contains('\n');
        lemma_last_line_is_one_line(w.meanings.len(), w.meanings.last(), k);
    }
}

/// Every rendering of an entry that has meanings ends with a rendering of
/// the last line of the last meaning and one end of a line. The result is
/// the rendering of the line.
pub proof fn lemma_last_meaning_shown_last(w: WordView, out: Seq<char>) -> (line: Seq<char>)
    requires
        w.meanings.len() > 0,
        is_rendering(out, word_layout(w)),
    ensures
        is_rendering(line, last_line(w.meanings.len(), w.meanings.last())),
        (line + "\n"@).is_suffix_of(out),
{
    let last = last_line(w.meanings.len(), w.meanings.last());
    lemma_entry_ends_one_line(w);
    assert(last + seq![line_end()] =~= last.push(line_end()));
    let shown = lemma_rendering_of_ending(out, word_layout(w), last.push(line_end()));
    let (line, end) = lemma_rendering_of_push(shown, last, line_end());
    line
}

/// The line of synonyms stands in the layout of a meaning that has
/// synonyms; the layout of a meaning without synonyms holds no such label.
pub proof fn lemma_synonyms_line_iff(m: MeaningView)
    ensures
        m.synonyms.len() > 0 ==> occurs_in(
            meaning_layout(m),
            related_words("Synonyms"@, m.synonyms),
        ),
        meaning_layout(m).contains(styled("Synonyms"@, Style::Red)) <==> m.synonyms.len() > 0,
{
    let layout = meaning_layout(m);
    let label = styled("Synonyms"@, Style::Red);
    if m.synonyms.len() > 0 {
        let before = seq![styled(m.part_of_speech, Style::Blue), line_end()] + definition_lines(
            m.definitions,
        ) + related_gap(m);
        assert(layout =~= before + synonym_line(m) + antonym_line(m));
        lemma_occurs_between(before, synonym_line(m), antonym_line(m));
        assert(layout[before.len() as int + 1] == label);
    } else if layout.contains(label) {
        lemma_meaning_styles(m, label);
        lemma_labels_differ();
    }
}

/// The line of antonyms is the last thing in the layout of a meaning that
/// has antonyms. With synonyms it stands right under their line; without
/// synonyms it stands where their line would stand, one empty line after
/// the senses, and nothing stands in for them. The layout of a meaning
/// without antonyms holds no such label.
pub proof fn lemma_antonyms_line_iff(m: MeaningView)
    ensures
        m.antonyms.len() > 0 ==> related_words("Antonyms"@, m.antonyms).is_suffix_of(
            meaning_layout(m),
        ),
        m.antonyms.len() > 0 && m.synonyms.len() > 0 ==> (related_words("Synonyms"@, m.synonyms)
            + seq![line_end()] + related_words("Antonyms"@, m.antonyms)).is_suffix_of(
            meaning_layout(m),
        ),
        m.antonyms.len() > 0 && m.synonyms.len() == 0 ==> meaning_layout(m) == seq![
            styled(m.part_of_speech, Style::Blue),
            line_end(),
        ] + definition_lines(m.definitions) + seq![line_end()] + related_words(
            "Antonyms"@,
            m.antonyms,
        ),
        meaning_layout(m).contains(styled("Antonyms"@, Style::Red)) <==> m.antonyms.len() > 0,
{
    let layout = meaning_layout(m);
    let label = styled("Antonyms"@, Style::Red);
    let head = seq![styled(m.part_of_speech, Style::Blue), line_end()] + definition_lines(
        m.definitions,
    );
    let antonyms = related_words("Antonyms"@, m.antonyms);
    if m.antonyms.len() > 0 {
        if m.synonyms.len() > 0 {
            let both = related_words("Synonyms"@, m.synonyms) + seq![line_end()] + antonyms;
            assert(layout =~= (head + seq![line_end()]) + both);
            lemma_end_occurs(head + seq![line_end()], both);
            assert(layout =~= (head + seq![line_end()] + related_words("Synonyms"@, m.synonyms)
                + seq![line_end()]) + antonyms);
            lemma_end_occurs(
                head + seq![line_end()] + related_words("Synonyms"@, m.synonyms) + seq![
                    line_end(),
                ],
                antonyms,
            );
        } else {
            assert(layout =~= head + seq![line_end()] + antonyms);
            lemma_end_occurs(head + seq![line_end()], antonyms);
        }
        assert(layout[layout.len() - 2] == label);
    } else if layout.contains(label) {
        lemma_meaning_styles(m, label);
        lemma_labels_differ();
    }
}

/// Every rendering of a line of related words is a tab, the painted label,
/// a colon and a space, and the words in their order with a comma and a
/// space between each two neighbours. The result is the painted label.
pub proof fn lemma_related_words_rendering(
    shown: Seq<char>,
    label: Seq<char>,
    words: Seq<Seq<char>>,
) -> (painted: Seq<char>)
    requires
        is_rendering(shown, related_words(label, words)),
    ensures
        is_painting(painted, styled(label, Style::Red)),
        shown == "\t"@ + painted + (": "@ + joined(words, ", "@)),
{
    let tab = plain("\t"@);
    let red = styled(label, Style::Red);
    let list = plain(": "@ + joined(words, ", "@));
    let two = seq![tab, red];
    assert(related_words(label, words) =~= two.push(list));
    let (x2, last) = lemma_rendering_of_push(shown, two, list);
    assert(two =~= seq![tab].push(red));
    let (x1, painted) = lemma_rendering_of_push(x2, seq![tab], red);
    lemma_rendering_of_span(x1, tab);
    painted
}

/// Every rendering of a meaning is the painted part of speech, the end of
/// the line, a rendering of the senses, one empty line before the related
/// words, a rendering of the line of synonyms and a rendering of the line
/// of antonyms. Where the meaning has no synonyms, nothing stands for them,
/// and the line of antonyms stands right after the empty line; where it has
/// no antonyms, nothing stands for them; where it has neither, nothing
/// stands after the senses. The result is the painted part of speech and
/// the renderings of the senses, the synonyms and the antonyms.
pub proof fn lemma_meaning_rendering(m: MeaningView, out: Seq<char>) -> (parts: (
    Seq<char>,
    Seq<char>,
    Seq<char>,
    Seq<char>,
))
    requires
        is_rendering(out, meaning_layout(m)),
    ensures
        is_painting(parts.0, styled(m.part_of_speech, Style::Blue)),
        is_rendering(parts.1, definition_lines(m.definitions)),
        is_rendering(parts.2, synonym_line(m)),
        is_rendering(parts.3, antonym_line(m)),
        m.synonyms.len() == 0 ==> parts.2 == Seq::<char>::empty(),
        m.antonyms.len() == 0 ==> parts.3 == Seq::<char>::empty(),
        m.synonyms.len() == 0 && m.antonyms.len() > 0 ==> is_rendering(
            parts.3,
            related_words("Antonyms"@, m.antonyms),
        ),
        has_related_words(m) ==> out == parts.0 + "\n"@ + parts.1 + "\n"@ + parts.2 + parts.3,
        !has_related_words(m) ==> out == parts.0 + "\n"@ + parts.1,
{
    let part = styled(m.part_of_speech, Style::Blue);
    let first = seq![part].push(line_end());
    let lines = definition_lines(m.definitions);
    let gap = related_gap(m);
    assert(meaning_layout(m) =~= first + lines + gap + synonym_line(m) + antonym_line(m));
    let (x4, ant) = lemma_rendering_splits(
        out,
        first + lines + gap + synonym_line(m),
        antonym_line(m),
    );
    let (x3, syn) = lemma_rendering_splits(x4, first + lines + gap, synonym_line(m));
    let (x2, between) = lemma_rendering_splits(x3, first + lines, gap);
    let (x1, senses) = lemma_rendering_splits(x2, first, lines);
    let (painted, end) = lemma_rendering_of_push(x1, seq![part], line_end());
    lemma_rendering_of_span(painted, part);
    lemma_rendering_of_nothing(syn);
    lemma_rendering_of_nothing(ant);
    if has_related_words(m) {
        lemma_rendering_of_span(between, line_end());
    } else {
        lemma_rendering_of_nothing(between);
        assert(out =~= painted + "\n"@ + senses);
    }
    if m.synonyms.len() == 0 && m.antonyms.len() > 0 {
        assert(antonym_line(m) =~= related_words("Antonyms"@, m.antonyms));
    }
    (painted, senses, syn, ant)
}

/// The related words of a single sense are kept and never shown: senses
/// that agree in definition and example have the same layout.
pub proof fn lemma_sense_hides_related_words(a: DefinitionView, b: DefinitionView)
    requires
        a.definition == b.definition,
        a.example == b.example,
    ensures
        definition_layout(a) == definition_layout(b),
{
}

/// The source and the license of a recording are kept and never shown:
/// pronunciations that agree in transcription and recording have the same
/// layout.
pub proof fn lemma_phonetic_hides_source_and_license(a: PhoneticView, b: PhoneticView)
    requires
        a.text == b.text,
        a.audio == b.audio,
    ensures
        phonetic_layout(a) == phonetic_layout(b),
{
}

/// In the layout of an answer each entry stands as one block, in the order
/// of the answer: the first at the start, each next one right after the one
/// before it, the last at the end.
pub proof fn lemma_entries_in_order(ws: Seq<WordView>, i: int)
    requires
        0 <= i < ws.len(),
    ensures
        occurs_in(entries_layout(ws), word_layout(ws[i])),
        i == 0 ==> word_layout(ws[0]).is_prefix_of(entries_layout(ws)),
        i + 1 < ws.len() ==> occurs_in(
            entries_layout(ws),
            word_layout(ws[i]) + word_layout(ws[i + 1]),
        ),
        i + 1 == ws.len() ==> word_layout(ws[i]).is_suffix_of(entries_layout(ws)),
{
    let parts = entry_blocks(ws);
    lemma_part_occurs(parts, i);
    if i == 0 {
        lemma_first_part_leads(parts);
    }
    if i + 1 < ws.len() {
        lemma_neighbours_occur(parts, i);
    }
    if i + 1 == ws.len() {
        lemma_last_part_ends(parts);
    }
}

/// Every rendering of an answer holds a rendering of each of its entries.
/// The result is that rendering.
pub proof fn lemma_entry_shown(ws: Seq<WordView>, i: int, out: Seq<char>) -> (shown: Seq<char>)
    requires
        0 <= i < ws.len(),
        is_rendering(out, entries_layout(ws)),
    ensures
        is_rendering(shown, word_layout(ws[i])),
        occurs_in(out, shown),
{
    lemma_entries_in_order(ws, i);
    lemma_rendering_of_run(out, entries_layout(ws), word_layout(ws[i]))
}

/// The layout of an answer whose last entry has meanings ends with the
/// last line of the last meaning and one end of a line: no empty line
/// trails what is written for a lookup.
pub proof fn lemma_answer_ends_one_line(ws: Seq<WordView>)
    requires
        ws.len() > 0,
        ws.last().meanings.len() > 0,
    ensures
        (last_line(ws.last().meanings.len(), ws.last().meanings.last()) + seq![
            line_end(),
        ]).is_suffix_of(entries_layout(ws)),
{
    let w = ws.last();
    let ending = last_line(w.meanings.len(), w.meanings.last()) + seq![line_end()];
    lemma_entries_in_order(ws, ws.len() - 1);
    lemma_entry_ends_one_line(w);
    let whole = entries_layout(ws);
    let front = whole.take(whole.len() - word_layout(w).len());
    assert(whole =~= front + word_layout(w));
    lemma_ending_extends(front, word_layout(w), ending);
}

} // verus!
