use wordbook::model::{Definition, Meaning, Phonetic, Word};
use wordbook::paint::{paint, render_spans};
use wordbook::render::render_entries;
use wordbook::style::{Span, Style};

fn colours_on() {
    colored::control::set_override(true);
}

#[test]
fn plain_span_is_never_decorated() {
    colours_on();
    assert_eq!(paint(&Span::new("text", Style::Plain)), "text");
}

#[test]
fn bold_underline_opens_with_one_and_four() {
    colours_on();
    assert_eq!(paint(&Span::new("word", Style::BoldUnderline)), "\x1b[1;4mword\x1b[0m");
}

#[test]
fn underline_opens_with_four() {
    colours_on();
    assert_eq!(paint(&Span::new("Meanings\n", Style::Underline)), "\x1b[4mMeanings\n\x1b[0m");
}

#[test]
fn blue_opens_with_thirty_four() {
    colours_on();
    assert_eq!(paint(&Span::new("noun", Style::Blue)), "\x1b[34mnoun\x1b[0m");
}

#[test]
fn red_opens_with_thirty_one() {
    colours_on();
    assert_eq!(paint(&Span::new("Synonyms", Style::Red)), "\x1b[31mSynonyms\x1b[0m");
}

#[test]
fn purple_opens_with_thirty_five() {
    colours_on();
    assert_eq!(paint(&Span::new("for example", Style::Purple)), "\x1b[35mfor example\x1b[0m");
}

#[test]
fn dimmed_opens_with_two() {
    colours_on();
    assert_eq!(paint(&Span::new("a.mp3", Style::Dimmed)), "\x1b[2ma.mp3\x1b[0m");
}

#[test]
fn empty_text_is_still_enclosed() {
    colours_on();
    assert_eq!(paint(&Span::new("", Style::Blue)), "\x1b[34m\x1b[0m");
}

#[test]
fn decoration_is_switched_on_again_after_a_reset_inside() {
    colours_on();
    assert_eq!(
        paint(&Span::new("a\x1b[0mb", Style::Blue)),
        "\x1b[34ma\x1b[0m\x1b[34mb\x1b[0m"
    );
}

#[test]
fn spans_are_painted_one_by_one() {
    colours_on();
    let layout = vec![
        Span::new("\t", Style::Plain),
        Span::new("Antonyms", Style::Red),
        Span::new(": slow", Style::Plain),
    ];
    assert_eq!(render_spans(&layout), "\t\x1b[31mAntonyms\x1b[0m: slow");
}

#[test]
fn entry_in_colours() {
    colours_on();
    let w = Word {
        word: "hello".to_string(),
        phonetics: vec![
            Phonetic {
                text: Some("/həˈloʊ/".to_string()),
                audio: "a.mp3".to_string(),
                source_url: None,
                license: None,
            },
            Phonetic { text: None, audio: String::new(), source_url: None, license: None },
        ],
        meanings: vec![Meaning {
            part_of_speech: "exclamation".to_string(),
            definitions: vec![Definition {
                definition: "used as a greeting".to_string(),
                example: Some("hello there".to_string()),
                synonyms: Vec::new(),
                antonyms: Vec::new(),
            }],
            synonyms: vec!["hi".to_string(), "howdy".to_string()],
            antonyms: Vec::new(),
        }],
    };
    let expected = "\x1b[1;4mhello\x1b[0m\n\
         \x1b[4mPhonetics\n\x1b[0m\
         \t- /həˈloʊ/ (\x1b[2ma.mp3\x1b[0m)\n\
         \t- \x1b[2m[unavailable] \x1b[0m\n\
         \x1b[4mMeanings\n\x1b[0m\
         1: \x1b[34mexclamation\x1b[0m\n\
         \t- used as a greeting (\x1b[35mhello there\x1b[0m)\n\
         \n\
         \t\x1b[31mSynonyms\x1b[0m: hi, howdy\n";
    assert_eq!(w.render(), expected);
    assert_eq!(render_entries(&vec![w]), expected);
}

#[test]
fn text_without_a_reset_is_enclosed_as_it_is() {
    colours_on();
    let texts = [
        "",
        "a",
        "two\nlines",
        "tab\there",
        "\x1b[0",
        "[0m",
        "\x1b[1mbold",
        "日本語",
        "\x1b[0 m",
    ];
    for text in texts {
        assert_eq!(paint(&Span::new(text, Style::Red)), format!("\x1b[31m{}\x1b[0m", text));
        assert_eq!(
            paint(&Span::new(text, Style::BoldUnderline)),
            format!("\x1b[1;4m{}\x1b[0m", text)
        );
    }
}

#[test]
fn decoration_is_switched_on_again_after_each_reset_inside() {
    colours_on();
    assert_eq!(
        paint(&Span::new("x\x1b[0my\x1b[0m", Style::Dimmed)),
        "\x1b[2mx\x1b[0m\x1b[2my\x1b[0m\x1b[2m\x1b[0m"
    );
}
