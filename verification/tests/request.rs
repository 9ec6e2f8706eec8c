use wordbook::request::{request_url, trim};

#[test]
fn url_embeds_the_word() {
    assert_eq!(request_url("hello"), "https://api.dictionaryapi.dev/api/v2/entries/en/hello");
}

#[test]
fn url_drops_white_space_around_the_word() {
    assert_eq!(request_url("  hello \n"), "https://api.dictionaryapi.dev/api/v2/entries/en/hello");
}

#[test]
fn url_does_not_escape_the_word() {
    assert_eq!(
        request_url("ice cream?/é"),
        "https://api.dictionaryapi.dev/api/v2/entries/en/ice cream?/é"
    );
}

#[test]
fn url_of_an_empty_word_ends_with_the_slash() {
    assert_eq!(request_url(" \t "), "https://api.dictionaryapi.dev/api/v2/entries/en/");
}

#[test]
fn trim_keeps_white_space_inside() {
    assert_eq!(trim("\t ice cream \u{a0}"), "ice cream");
}

#[test]
fn trim_of_white_space_is_empty() {
    assert_eq!(trim(""), "");
    assert_eq!(trim(" \n\r\t\u{2003}"), "");
}

#[test]
fn trim_leaves_a_trimmed_word_alone() {
    assert_eq!(trim("naïve"), "naïve");
}

#[test]
fn trim_agrees_with_the_standard_library() {
    let samples =
        ["", " ", "a", " a", "a ", "  a b  ", "\u{3000}日本語\u{3000}", "\u{200b}x\u{200b}"];
    for s in samples {
        assert_eq!(trim(s), s.trim());
    }
}
