//! What a dictionary says about a word.
//!
//! Every record is a plain value. Each has a view, its mathematical value, in
//! which strings are sequences of characters and lists are sequences.

use vstd::prelude::*;
use crate::text::texts;

verus! {

/// The terms under which a recording may be used.
#[derive(Clone, Debug, PartialEq, Eq)]
pub struct License {
    pub name: String,
    pub url: String,
}

/// One way to pronounce a word.
#[derive(Clone, Debug, PartialEq, Eq)]
pub struct Phonetic {
    /// The transcription, where the dictionary has one.
    pub text: Option<String>,
    /// Where a recording can be heard; empty where there is none.
    pub audio: String,
    /// Where the recording was taken from.
    pub source_url: Option<String>,
    /// The license of the recording.
    pub license: Option<License>,
}

/// One sense of a word.
#[derive(Clone, Debug, PartialEq, Eq)]
pub struct Definition {
    /// What the word means in this sense.
    pub definition: String,
    /// A sentence that uses the word in this sense.
    pub example: Option<String>,
    /// Words of the same meaning in this sense. Kept, never shown.
    pub synonyms: Vec<String>,
    /// Words of the opposite meaning in this sense. Kept, never shown.
    pub antonyms: Vec<String>,
}

/// The senses of a word as one part of speech.
#[derive(Clone, Debug, PartialEq, Eq)]
pub struct Meaning {
    /// The part of speech, such as "noun".
    pub part_of_speech: String,
    pub definitions: Vec<Definition>,
    pub synonyms: Vec<String>,
    pub antonyms: Vec<String>,
}

/// One dictionary entry: a headword with its pronunciations and meanings.
#[derive(Clone, Debug, PartialEq, Eq)]
pub struct Word {
    pub word: String,
    pub phonetics: Vec<Phonetic>,
    pub meanings: Vec<Meaning>,
}

/// The mathematical value of a [`License`].
pub struct LicenseView {
    pub name: Seq<char>,
    pub url: Seq<char>,
}

/// The mathematical value of a [`Phonetic`].
pub struct PhoneticView {
    pub text: Option<Seq<char>>,
    pub audio: Seq<char>,
    pub source_url: Option<Seq<char>>,
    pub license: Option<LicenseView>,
}

/// The mathematical value of a [`Definition`].
pub struct DefinitionView {
    pub definition: Seq<char>,
    pub example: Option<Seq<char>>,
    pub synonyms: Seq<Seq<char>>,
    pub antonyms: Seq<Seq<char>>,
}

/// The mathematical value of a [`Meaning`].
pub struct MeaningView {
    pub part_of_speech: Seq<char>,
    pub definitions: Seq<DefinitionView>,
    pub synonyms: Seq<Seq<char>>,
    pub antonyms: Seq<Seq<char>>,
}

/// The mathematical value of a [`Word`].
pub struct WordView {
    pub word: Seq<char>,
    pub phonetics: Seq<PhoneticView>,
    pub meanings: Seq<MeaningView>,
}

/// The view of a string that may be absent.
pub open spec fn optional_text(text: Option<String>) -> Option<Seq<char>> {
    match text {
        Some(s) => Some(s@),
        None => None,
    }
}

impl View for License {
    type V = LicenseView;

    open spec fn view(&self) -> LicenseView {
        LicenseView { name: self.name@, url: self.url@ }
    }
}

impl View for Phonetic {
    type V = PhoneticView;

    open spec fn view(&self) -> PhoneticView {
        PhoneticView {
            text: optional_text(self.text),
            audio: self.audio@,
            source_url: optional_text(self.source_url),
            license: match self.license {
                Some(license) => Some(license@),
                None => None,
            },
        }
    }
}

impl View for Definition {
    type V = DefinitionView;

    open spec fn view(&self) -> DefinitionView {
        DefinitionView {
            definition: self.definition@,
            example: optional_text(self.example),
            synonyms: texts(self.synonyms@),
            antonyms: texts(self.antonyms@),
        }
    }
}

impl View for Meaning {
    type V = MeaningView;

    open spec fn view(&self) -> MeaningView {
        MeaningView {
            part_of_speech: self.part_of_speech@,
            definitions: self.definitions@.map_values(|d: Definition| d@),
            synonyms: texts(self.synonyms@),
            antonyms: texts(self.antonyms@),
        }
    }
}

impl View for Word {
    type V = WordView;

    open spec fn view(&self) -> WordView {
        WordView {
            word: self.word@,
            phonetics: self.phonetics@.map_values(|p: Phonetic| p@),
            meanings: self.meanings@.map_values(|m: Meaning| m@),
        }
    }
}

/// The views of a sequence of entries, in order.
pub open spec fn entries(words: Seq<Word>) -> Seq<WordView> {
    words.map_values(|w: Word| w@)
}

} // verus!
