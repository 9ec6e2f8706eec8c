use wordbook::model::{Definition, License, Meaning, Phonetic, Word};
use wordbook::style::{Span, Style};

fn span(text: &str, style: Style) -> Span {
    Span { text: text.to_string(), style }
}

fn plain(text: &str) -> Span {
    span(text, Style::Plain)
}

fn strings(items: &[&str]) -> Vec<String> {
    items.iter().map(|s| s.to_string()).collect()
}

fn sense(definition: &str, example: Option<&str>) -> Definition {
    Definition {
        definition: definition.to_string(),
        example: example.map(|e| e.to_string()),
        synonyms: Vec::new(),
        antonyms: Vec::new(),
    }
}

fn hello() -> Word {
    Word {
        word: "hello".to_string(),
        phonetics: vec![
            Phonetic {
                text: Some("/həˈloʊ/".to_string()),
                audio: "a.mp3".to_string(),
                source_url: None,
                license: None,
            },
            Phonetic { text: None, audio: String::new(), source_url: None, license: None },
        ],
        meanings: vec![Meaning {
            part_of_speech: "exclamation".to_string(),
            definitions: vec![sense("used as a greeting", None)],
            synonyms: Vec::new(),
            antonyms: Vec::new(),
        }],
    }
}

#[test]
fn hello_is_laid_out_span_by_span() {
    let expected = vec![
        span("hello", Style::BoldUnderline),
        plain("\n"),
        span("Phonetics\n", Style::Underline),
        plain("\t- "),
        plain("/həˈloʊ/ "),
        plain("("),
        span("a.mp3", Style::Dimmed),
        plain(")"),
        plain("\n"),
        plain("\t- "),
        span("[unavailable] ", Style::Dimmed),
        plain("\n"),
        span("Meanings\n", Style::Underline),
        plain("1: "),
        span("exclamation", Style::Blue),
        plain("\n"),
        plain("\t- "),
        plain("used as a greeting"),
        plain("\n"),
    ];
    assert_eq!(hello().layout(), expected);
}

#[test]
fn phonetic_with_transcription_and_recording() {
    let p = Phonetic {
        text: Some("/wɜːd/".to_string()),
        audio: "https://example.org/word.mp3".to_string(),
        source_url: Some("https://example.org".to_string()),
        license: Some(License { name: "BY-SA 4.0".to_string(), url: "https://cc.org".to_string() }),
    };
    assert_eq!(
        p.layout(),
        vec![
            plain("/wɜːd/ "),
            plain("("),
            span("https://example.org/word.mp3", Style::Dimmed),
            plain(")"),
        ]
    );
}

#[test]
fn phonetic_with_transcription_only() {
    let p = Phonetic {
        text: Some("/wɜːd/".to_string()),
        audio: String::new(),
        source_url: None,
        license: None,
    };
    assert_eq!(p.layout(), vec![plain("/wɜːd/ ")]);
}

#[test]
fn phonetic_with_recording_only() {
    let p =
        Phonetic { text: None, audio: "w.mp3".to_string(), source_url: None, license: None };
    assert_eq!(
        p.layout(),
        vec![
            span("[unavailable] ", Style::Dimmed),
            plain("("),
            span("w.mp3", Style::Dimmed),
            plain(")"),
        ]
    );
}

#[test]
fn phonetic_with_nothing() {
    let p = Phonetic { text: None, audio: String::new(), source_url: None, license: None };
    assert_eq!(p.layout(), vec![span("[unavailable] ", Style::Dimmed)]);
}

#[test]
fn definition_without_example() {
    assert_eq!(sense("a unit of language", None).layout(), vec![plain("a unit of language")]);
}

#[test]
fn definition_with_example() {
    assert_eq!(
        sense("a promise", Some("I give you my word")).layout(),
        vec![
            plain("a promise"),
            plain(" ("),
            span("I give you my word", Style::Purple),
            plain(")"),
        ]
    );
}

#[test]
fn definition_keeps_its_own_related_words_out() {
    let d = Definition {
        definition: "quick".to_string(),
        example: None,
        synonyms: strings(&["fast"]),
        antonyms: strings(&["slow"]),
    };
    assert_eq!(d.layout(), vec![plain("quick")]);
}

#[test]
fn meaning_without_related_words() {
    let m = Meaning {
        part_of_speech: "noun".to_string(),
        definitions: vec![sense("first", None), sense("second", Some("as in this"))],
        synonyms: Vec::new(),
        antonyms: Vec::new(),
    };
    assert_eq!(
        m.layout(),
        vec![
            span("noun", Style::Blue),
            plain("\n"),
            plain("\t- "),
            plain("first"),
            plain("\n"),
            plain("\t- "),
            plain("second"),
            plain(" ("),
            span("as in this", Style::Purple),
            plain(")"),
            plain("\n"),
        ]
    );
}

#[test]
fn meaning_with_synonyms_and_antonyms() {
    let m = Meaning {
        part_of_speech: "adjective".to_string(),
        definitions: vec![sense("moving fast", None)],
        synonyms: strings(&["fast", "rapid", "swift"]),
        antonyms: strings(&["slow"]),
    };
    assert_eq!(
        m.layout(),
        vec![
            span("adjective", Style::Blue),
            plain("\n"),
            plain("\t- "),
            plain("moving fast"),
            plain("\n"),
            plain("\n"),
            plain("\t"),
            span("Synonyms", Style::Red),
            plain(": fast, rapid, swift"),
            plain("\n"),
            plain("\t"),
            span("Antonyms", Style::Red),
            plain(": slow"),
        ]
    );
}

#[test]
fn meaning_with_synonyms_only() {
    let m = Meaning {
        part_of_speech: "verb".to_string(),
        definitions: Vec::new(),
        synonyms: strings(&["run"]),
        antonyms: Vec::new(),
    };
    assert_eq!(
        m.layout(),
        vec![
            span("verb", Style::Blue),
            plain("\n"),
            plain("\n"),
            plain("\t"),
            span("Synonyms", Style::Red),
            plain(": run"),
        ]
    );
}

#[test]
fn meaning_with_antonyms_only() {
    let m = Meaning {
        part_of_speech: "verb".to_string(),
        definitions: Vec::new(),
        synonyms: Vec::new(),
        antonyms: strings(&["stop", "halt"]),
    };
    assert_eq!(
        m.layout(),
        vec![
            span("verb", Style::Blue),
            plain("\n"),
            plain("\n"),
            plain("\t"),
            span("Antonyms", Style::Red),
            plain(": stop, halt"),
        ]
    );
}

#[test]
fn word_without_phonetics_has_no_phonetics_header() {
    let mut w = hello();
    w.phonetics.clear();
    let layout = w.layout();
    assert!(!layout.contains(&span("Phonetics\n", Style::Underline)));
    assert!(layout.contains(&span("Meanings\n", Style::Underline)));
    assert_eq!(layout[2], span("Meanings\n", Style::Underline));
}

#[test]
fn word_without_meanings_has_no_meanings_header() {
    let mut w = hello();
    w.meanings.clear();
    let layout = w.layout();
    assert!(layout.contains(&span("Phonetics\n", Style::Underline)));
    assert!(!layout.contains(&span("Meanings\n", Style::Underline)));
    assert_eq!(layout.last(), Some(&plain("\n")));
    assert_eq!(layout.len(), 12);
}

#[test]
fn word_named_like_a_header_is_still_a_headword() {
    let w = Word { word: "Phonetics\n".to_string(), phonetics: Vec::new(), meanings: Vec::new() };
    assert_eq!(w.layout(), vec![span("Phonetics\n", Style::BoldUnderline), plain("\n")]);
}

#[test]
fn bare_word_is_one_line() {
    let w = Word { word: "x".to_string(), phonetics: Vec::new(), meanings: Vec::new() };
    assert_eq!(w.layout(), vec![span("x", Style::BoldUnderline), plain("\n")]);
}

#[test]
fn meanings_are_numbered_from_one_with_an_empty_line_between() {
    let meaning = |pos: &str| Meaning {
        part_of_speech: pos.to_string(),
        definitions: Vec::new(),
        synonyms: Vec::new(),
        antonyms: Vec::new(),
    };
    let w = Word {
        word: "run".to_string(),
        phonetics: Vec::new(),
        meanings: vec![meaning("noun"), meaning("verb"), meaning("adjective")],
    };
    assert_eq!(
        w.layout(),
        vec![
            span("run", Style::BoldUnderline),
            plain("\n"),
            span("Meanings\n", Style::Underline),
            plain("1: "),
            span("noun", Style::Blue),
            plain("\n"),
            plain("\n"),
            plain("2: "),
            span("verb", Style::Blue),
            plain("\n"),
            plain("\n"),
            plain("3: "),
            span("adjective", Style::Blue),
            plain("\n"),
        ]
    );
}

#[test]
fn tenth_meaning_has_a_two_digit_number() {
    let meaning = Meaning {
        part_of_speech: "noun".to_string(),
        definitions: Vec::new(),
        synonyms: Vec::new(),
        antonyms: Vec::new(),
    };
    let w = Word { word: "set".to_string(), phonetics: Vec::new(), meanings: vec![meaning; 12] };
    let layout = w.layout();
    let numbers: Vec<&str> = layout
        .iter()
        .filter(|s| s.style == Style::Plain && s.text.ends_with(": "))
        .map(|s| s.text.as_str())
        .collect();
    assert_eq!(
        numbers,
        vec!["1: ", "2: ", "3: ", "4: ", "5: ", "6: ", "7: ", "8: ", "9: ", "10: ", "11: ", "12: "]
    );
}

#[test]
fn span_new_keeps_text_and_style() {
    assert_eq!(Span::new("abc", Style::Red), span("abc", Style::Red));
    assert_ne!(Span::new("abc", Style::Red), span("abc", Style::Blue));
}

#[test]
fn antonyms_without_synonyms_follow_one_empty_line() {
    let m = Meaning {
        part_of_speech: "noun".to_string(),
        definitions: vec![sense("d", None)],
        synonyms: Vec::new(),
        antonyms: strings(&["c"]),
    };
    assert_eq!(
        m.layout(),
        vec![
            span("noun", Style::Blue),
            plain("\n"),
            plain("\t- "),
            plain("d"),
            plain("\n"),
            plain("\n"),
            plain("\t"),
            span("Antonyms", Style::Red),
            plain(": c"),
        ]
    );
}

#[test]
fn numbered_meaning_with_related_words_has_its_last_line_ended() {
    let w = Word {
        word: "w".to_string(),
        phonetics: Vec::new(),
        meanings: vec![
            Meaning {
                part_of_speech: "noun".to_string(),
                definitions: Vec::new(),
                synonyms: strings(&["s"]),
                antonyms: Vec::new(),
            },
            Meaning {
                part_of_speech: "verb".to_string(),
                definitions: vec![sense("d", None)],
                synonyms: Vec::new(),
                antonyms: Vec::new(),
            },
        ],
    };
    assert_eq!(
        w.layout(),
        vec![
            span("w", Style::BoldUnderline),
            plain("\n"),
            span("Meanings\n", Style::Underline),
            plain("1: "),
            span("noun", Style::Blue),
            plain("\n"),
            plain("\n"),
            plain("\t"),
            span("Synonyms", Style::Red),
            plain(": s"),
            plain("\n"),
            plain("\n"),
            plain("2: "),
            span("verb", Style::Blue),
            plain("\n"),
            plain("\t- "),
            plain("d"),
            plain("\n"),
        ]
    );
}
