//! The request that looks a word up.

use vstd::prelude::*;

verus! {

/// Whether `c` is white space: what `char::is_whitespace` returns, the
/// Unicode property `White_Space`.
pub uninterp spec fn is_white_space(c: char) -> bool;

/// `char::is_whitespace` of std. Its result depends on the character alone;
/// `is_white_space` is the name of that result. The documentation of std
/// refers to the Unicode tables for the property and gives four values: the
/// space, the line feed and the no-break space are white space, the letter
/// U+8D8A is not. No more is stated here.
pub assume_specification[ char::is_whitespace ](c: char) -> (b: bool)
    ensures
        b == is_white_space(c),
        c == ' ' || c == '\n' || c == '\u{A0}' ==> b,
        c == '\u{8D8A}' ==> !b,
;

/// `s` without the white space it begins with.
pub open spec fn trim_start(s: Seq<char>) -> Seq<char>
    decreases s.len(),
{
    if s.len() > 0 && is_white_space(s.first()) {
        trim_start(s.drop_first())
    } else {
        s
    }
}

/// `s` without the white space it ends with.
pub open spec fn trim_end(s: Seq<char>) -> Seq<char>
    decreases s.len(),
{
    if s.len() > 0 && is_white_space(s.last()) {
        trim_end(s.drop_last())
    } else {
        s
    }
}

/// `s` without the white space around it.
pub open spec fn trimmed(s: Seq<char>) -> Seq<char> {
    trim_end(trim_start(s))
}

/// Trimming at the start cuts white space off the start and nothing else.
/// The result is where the cut is.
proof fn lemma_trim_start(s: Seq<char>) -> (cut: int)
    ensures
        0 <= cut <= s.len(),
        trim_start(s) == s.skip(cut),
        forall|k: int| 0 <= k < cut ==> is_white_space(#[trigger] s[k]),
        cut < s.len() ==> !is_white_space(s[cut]),
    decreases s.len(),
{
    if s.len() > 0 && is_white_space(s.first()) {
        let rest = s.drop_first();
        let inner = lemma_trim_start(rest);
        assert(rest.skip(inner) =~= s.skip(inner + 1));
        assert forall|k: int| 0 <= k < inner + 1 implies is_white_space(#[trigger] s[k]) by {
            if k > 0 {
                assert(s[k] == rest[k - 1]);
            }
        }
        assert(inner < rest.len() ==> rest[inner] == s[inner + 1]);
        inner + 1
    } else {
        assert(s.skip(0) =~= s);
        0
    }
}

/// Trimming at the end cuts white space off the end and nothing else. The
/// result is where the cut is.
proof fn lemma_trim_end(s: Seq<char>) -> (cut: int)
    ensures
        0 <= cut <= s.len(),
        trim_end(s) == s.take(cut),
        forall|k: int| cut <= k < s.len() ==> is_white_space(#[trigger] s[k]),
        0 < cut ==> !is_white_space(s[cut - 1]),
    decreases s.len(),
{
    if s.len() > 0 && is_white_space(s.last()) {
        let rest = s.drop_last();
        let inner = lemma_trim_end(rest);
        assert(rest.take(inner) =~= s.take(inner));
        assert forall|k: int| inner <= k < s.len() implies is_white_space(#[trigger] s[k]) by {
            if k < rest.len() {
                assert(s[k] == rest[k]);
            }
        }
        assert(0 < inner ==> rest[inner - 1] == s[inner - 1]);
        inner
    } else {
        assert(s.take(s.len() as int) =~= s);
        s.len() as int
    }
}

/// Trimming cuts white space off both ends and nothing else: what is left
/// is one run of the text, all that stands before and after it is white
/// space, and it neither begins nor ends with white space. The result is
/// where the run begins and ends.
pub proof fn lemma_trimmed_is_the_core(s: Seq<char>) -> (cut: (int, int))
    ensures
        0 <= cut.0 <= cut.1 <= s.len(),
        trimmed(s) == s.subrange(cut.0, cut.1),
        forall|k: int| 0 <= k < cut.0 ==> is_white_space(#[trigger] s[k]),
        forall|k: int| cut.1 <= k < s.len() ==> is_white_space(#[trigger] s[k]),
        cut.0 < cut.1 ==> !is_white_space(s[cut.0]) && !is_white_space(s[cut.1 - 1]),
{
    let from = lemma_trim_start(s);
    let rest = s.skip(from);
    let upto = lemma_trim_end(rest);
    assert(rest.take(upto) =~= s.subrange(from, from + upto));
    assert forall|k: int| from + upto <= k < s.len() implies is_white_space(#[trigger] s[k]) by {
        assert(s[k] == rest[k - from]);
    }
    if 0 < upto {
        assert(rest[upto - 1] == s[from + upto - 1]);
    }
    (from, from + upto)
}

/// A text that neither begins nor ends with white space is left as it is.
pub proof fn lemma_trimmed_keeps_core(s: Seq<char>)
    requires
        s.len() > 0 ==> !is_white_space(s.first()) && !is_white_space(s.last()),
    ensures
        trimmed(s) == s,
{
}

/// Trimming what is trimmed changes nothing.
pub proof fn lemma_trimmed_twice(s: Seq<char>)
    ensures
        trimmed(trimmed(s)) == trimmed(s),
{
    let t = trimmed(s);
    let cut = lemma_trimmed_is_the_core(s);
    if t.len() > 0 {
        assert(t.first() == s[cut.0]);
        assert(t.last() == s[cut.1 - 1]);
    }
    lemma_trimmed_keeps_core(t);
}

/// The address under which the dictionary answers for `word`, in the given
/// version of its interface and for the given language.
pub open spec fn lookup_url(version: Seq<char>, language: Seq<char>, word: Seq<char>) -> Seq<char> {
    "https://api.dictionaryapi.dev/api/"@ + version + "/entries/"@ + language + "/"@ + word
}

/// `s` without the white space around it.
pub fn trim<'a>(s: &'a str) -> (t: &'a str)
    ensures
        t@ == trimmed(s@),
{
    let n = s.unicode_len();
    let mut start: usize = 0;
    assert(s@.skip(0) =~= s@);
    while start < n && s.get_char(start).is_whitespace()
        invariant
            start <= n,
            n == s@.len(),
            trim_start(s@) == trim_start(s@.skip(start as int)),
        decreases n - start,
    {
        assert(s@.skip(start as int).drop_first() =~= s@.skip(start + 1));
        start += 1;
    }
    let mut end: usize = n;
    assert(s@.subrange(start as int, end as int) =~= s@.skip(start as int));
    while end > start && s.get_char(end - 1).is_whitespace()
        invariant
            start <= end <= n,
            n == s@.len(),
            trimmed(s@) == trim_end(s@.subrange(start as int, end as int)),
        decreases end,
    {
        assert(s@.subrange(start as int, end as int).drop_last() =~= s@.subrange(
            start as int,
            end - 1,
        ));
        end -= 1;
    }
    s.substring_char(start, end)
}

/// The address to ask for `word`: version 2 of the interface, English, and
/// the word without the white space around it. The word is not escaped.
pub fn request_url(word: &str) -> (url: String)
    ensures
        url@ == lookup_url("v2"@, "en"@, trimmed(word@)),
{
    let mut url = String::from_str("https://api.dictionaryapi.dev/api/");
    url.append("v2");
    url.append("/entries/");
    url.append("en");
    url.append("/");
    url.append(trim(word));
    url
}

} // verus!
