use wordbook::model::{Definition, Meaning, Phonetic, Word};
use wordbook::paint::{assemble, paint, paint_all, render_spans};
use wordbook::render::{layout_entries, render_entries};
use wordbook::style::{Span, Style};

fn colours_off() {
    colored::control::set_override(false);
}

fn strings(items: &[&str]) -> Vec<String> {
    items.iter().map(|s| s.to_string()).collect()
}

fn sense(definition: &str, example: Option<&str>) -> Definition {
    Definition {
        definition: definition.to_string(),
        example: example.map(|e| e.to_string()),
        synonyms: Vec::new(),
        antonyms: Vec::new(),
    }
}

fn hello() -> Word {
    Word {
        word: "hello".to_string(),
        phonetics: vec![
            Phonetic {
                text: Some("/həˈloʊ/".to_string()),
                audio: "a.mp3".to_string(),
                source_url: None,
                license: None,
            },
            Phonetic { text: None, audio: String::new(), source_url: None, license: None },
        ],
        meanings: vec![Meaning {
            part_of_speech: "exclamation".to_string(),
            definitions: vec![sense("used as a greeting", None)],
            synonyms: Vec::new(),
            antonyms: Vec::new(),
        }],
    }
}

fn quick() -> Word {
    Word {
        word: "quick".to_string(),
        phonetics: Vec::new(),
        meanings: vec![
            Meaning {
                part_of_speech: "adjective".to_string(),
                definitions: vec![sense("moving fast", Some("a quick runner"))],
                synonyms: strings(&["fast", "rapid"]),
                antonyms: strings(&["slow"]),
            },
            Meaning {
                part_of_speech: "noun".to_string(),
                definitions: vec![sense("the living", None)],
                synonyms: Vec::new(),
                antonyms: Vec::new(),
            },
        ],
    }
}

#[test]
fn hello_round_trip() {
    colours_off();
    let out = hello().render();
    assert_eq!(
        out,
        "hello\n\
         Phonetics\n\
         \t- /həˈloʊ/ (a.mp3)\n\
         \t- [unavailable] \n\
         Meanings\n\
         1: exclamation\n\
         \t- used as a greeting\n"
    );
    assert!(!out.contains("Synonyms"));
    assert!(!out.contains("Antonyms"));
}

#[test]
fn transcription_is_followed_by_the_recording_in_parentheses() {
    colours_off();
    assert!(hello().render().contains("/həˈloʊ/ (a.mp3)"));
}

#[test]
fn meanings_show_numbered_and_apart() {
    colours_off();
    assert_eq!(
        quick().render(),
        "quick\n\
         Meanings\n\
         1: adjective\n\
         \t- moving fast (a quick runner)\n\
         \n\
         \tSynonyms: fast, rapid\n\
         \tAntonyms: slow\n\
         \n\
         2: noun\n\
         \t- the living\n"
    );
}

#[test]
fn parts_of_an_entry_show_on_their_own() {
    colours_off();
    let w = quick();
    assert_eq!(
        w.meanings[0].render(),
        "adjective\n\t- moving fast (a quick runner)\n\n\tSynonyms: fast, rapid\n\tAntonyms: slow"
    );
    assert_eq!(w.meanings[0].definitions[0].render(), "moving fast (a quick runner)");
    assert_eq!(w.meanings[1].definitions[0].render(), "the living");
    let h = hello();
    assert_eq!(h.phonetics[0].render(), "/həˈloʊ/ (a.mp3)");
    assert_eq!(h.phonetics[1].render(), "[unavailable] ");
}

#[test]
fn word_without_sections_shows_as_its_headword() {
    colours_off();
    let w = Word { word: "zyzzyva".to_string(), phonetics: Vec::new(), meanings: Vec::new() };
    assert_eq!(w.render(), "zyzzyva\n");
}

#[test]
fn empty_answer_shows_as_nothing() {
    colours_off();
    assert_eq!(layout_entries(&Vec::new()), Vec::new());
    assert_eq!(render_entries(&Vec::new()), "");
}

#[test]
fn answer_shows_its_entries_one_right_after_the_other() {
    colours_off();
    let bare = |w: &str| Word { word: w.to_string(), phonetics: Vec::new(), meanings: Vec::new() };
    let words = vec![bare("lead"), hello(), bare("lead")];
    let expected = format!("lead\n{}lead\n", hello().render());
    assert_eq!(render_entries(&words), expected);
    let layout = layout_entries(&words);
    assert_eq!(layout.len(), 2 + hello().layout().len() + 2);
    assert_eq!(render_spans(&layout), expected);
}

#[test]
fn answer_of_one_entry_shows_as_that_entry() {
    colours_off();
    assert_eq!(render_entries(&vec![quick()]), quick().render());
    assert_eq!(layout_entries(&vec![hello()]), hello().layout());
    assert!(!render_entries(&vec![hello(), quick()]).ends_with("\n\n"));
}

#[test]
fn painting_without_colours_is_the_text() {
    colours_off();
    for style in [
        Style::Plain,
        Style::BoldUnderline,
        Style::Underline,
        Style::Blue,
        Style::Red,
        Style::Purple,
        Style::Dimmed,
    ] {
        assert_eq!(paint(&Span::new("text", style)), "text");
    }
}

#[test]
fn paint_all_keeps_the_order() {
    colours_off();
    let layout =
        vec![Span::new("a", Style::Red), Span::new("b", Style::Plain), Span::new("c", Style::Blue)];
    assert_eq!(paint_all(&layout), strings(&["a", "b", "c"]));
}

#[test]
fn assemble_writes_the_pieces_in_a_row() {
    assert_eq!(assemble(&strings(&["ab", "", "c", "def"])), "abcdef");
    assert_eq!(assemble(&Vec::new()), "");
}

#[test]
fn word_without_phonetics_shows_no_phonetics_header() {
    colours_off();
    let out = quick().render();
    assert!(!out.contains("Phonetics"));
    assert!(out.starts_with("quick\nMeanings\n1: "));
}

#[test]
fn word_without_meanings_shows_no_meanings_header() {
    colours_off();
    let mut w = hello();
    w.meanings.clear();
    let out = w.render();
    assert!(!out.contains("Meanings"));
    assert_eq!(out, "hello\nPhonetics\n\t- /həˈloʊ/ (a.mp3)\n\t- [unavailable] \n");
}

#[test]
fn last_meaning_is_not_followed_by_an_empty_line_of_its_own() {
    colours_off();
    let meaning = |pos: &str| Meaning {
        part_of_speech: pos.to_string(),
        definitions: Vec::new(),
        synonyms: strings(&["s"]),
        antonyms: Vec::new(),
    };
    let w = Word {
        word: "w".to_string(),
        phonetics: Vec::new(),
        meanings: vec![meaning("noun"), meaning("verb")],
    };
    assert_eq!(
        w.render(),
        "w\nMeanings\n1: noun\n\n\tSynonyms: s\n\n2: verb\n\n\tSynonyms: s\n"
    );
}

#[test]
fn related_words_show_on_one_line_each_in_their_order() {
    colours_off();
    let m = Meaning {
        part_of_speech: "adjective".to_string(),
        definitions: Vec::new(),
        synonyms: strings(&["zippy", "brisk", "fleet"]),
        antonyms: strings(&["sluggish", "slow"]),
    };
    assert_eq!(
        m.render(),
        "adjective\n\n\tSynonyms: zippy, brisk, fleet\n\tAntonyms: sluggish, slow"
    );
}

#[test]
fn antonyms_alone_stand_after_one_empty_line() {
    colours_off();
    let m = Meaning {
        part_of_speech: "noun".to_string(),
        definitions: vec![sense("d", None)],
        synonyms: Vec::new(),
        antonyms: strings(&["c"]),
    };
    assert_eq!(m.render(), "noun\n\t- d\n\n\tAntonyms: c");
    let bare = Meaning {
        part_of_speech: "adjective".to_string(),
        definitions: Vec::new(),
        synonyms: Vec::new(),
        antonyms: strings(&["slow"]),
    };
    assert_eq!(bare.render(), "adjective\n\n\tAntonyms: slow");
}

#[test]
fn no_empty_line_trails_the_last_meaning() {
    colours_off();
    for word in [hello(), quick()] {
        let out = word.render();
        assert!(out.ends_with('\n'));
        assert!(!out.ends_with("\n\n"));
    }
    let mut related_last = quick();
    related_last.meanings.reverse();
    let out = related_last.render();
    assert!(out.ends_with("\tAntonyms: slow\n"));
    assert!(!out.ends_with("\n\n"));
}

#[test]
fn one_empty_line_parts_meanings_without_related_words() {
    colours_off();
    let meaning = |pos: &str, definition: &str| Meaning {
        part_of_speech: pos.to_string(),
        definitions: vec![sense(definition, None)],
        synonyms: Vec::new(),
        antonyms: Vec::new(),
    };
    let w = Word {
        word: "w".to_string(),
        phonetics: Vec::new(),
        meanings: vec![meaning("noun", "a"), meaning("verb", "b"), meaning("adverb", "c")],
    };
    assert_eq!(
        w.render(),
        "w\nMeanings\n1: noun\n\t- a\n\n2: verb\n\t- b\n\n3: adverb\n\t- c\n"
    );
}
