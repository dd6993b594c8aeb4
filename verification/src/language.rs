//! Languages of word lists: their ISO 639-1 codes, detection of the language of
//! a text (through `lingua`), and primary language subtags of BCP 47 tags
//! (through `oxilangtag` for the speech engine's tags, and `language_tags`).
use vstd::prelude::*;

verus! {

/// A language that a word list can be written in; these are the languages that
/// the detector is built from.
#[derive(Clone, Copy, Debug, PartialEq, Eq, Structural)]
pub enum Language {
    Chinese,
    English,
    Japanese,
}

/// The ISO 639-1 code of a language, in lower case.
pub open spec fn iso_code(language: Language) -> Seq<char> {
    match language {
        Language::Chinese => seq!['z', 'h'],
        Language::English => seq!['e', 'n'],
        Language::Japanese => seq!['j', 'a'],
    }
}

impl Language {
    /// The ISO 639-1 code of this language, in lower case ("zh", "en", "ja").
    pub fn iso_code_639_1(&self) -> (r: String)
        ensures
            r@ == iso_code(*self),
    {
        match self {
            Language::Chinese => {
                proof {
                    reveal_strlit("zh");
                }
                "zh".to_owned()
            },
            Language::English => {
                proof {
                    reveal_strlit("en");
                }
                "en".to_owned()
            },
            Language::Japanese => {
                proof {
                    reveal_strlit("ja");
                }
                "ja".to_owned()
            },
        }
    }
}

/// Whether `c` is an ASCII character that is not a letter: such characters
/// never form a word for `lingua`, whose words are runs of Unicode letters.
pub open spec fn is_ascii_non_letter(c: char) -> bool {
    let u = c as u32;
    u < 0x80 && !(0x41 <= u <= 0x5a) && !(0x61 <= u <= 0x7a)
}

/// Whether `c` is an ASCII letter (A-Z or a-z).
pub open spec fn is_ascii_letter(c: char) -> bool {
    let u = c as u32;
    (0x41 <= u <= 0x5a) || (0x61 <= u <= 0x7a)
}

/// Whether `text` is ASCII and has at least one letter.
pub open spec fn ascii_with_letter(text: Seq<char>) -> bool {
    &&& forall|i: int| 0 <= i < text.len() ==> (#[trigger] text[i] as u32) < 0x80
    &&& exists|i: int| 0 <= i < text.len() && is_ascii_letter(#[trigger] text[i])
}

/// Whether `c` is in U+3041..=U+3096, all letters of the Hiragana script.
pub open spec fn is_hiragana(c: char) -> bool {
    let u = c as u32;
    0x3041 <= u <= 0x3096
}

/// Whether `c` is in U+30A1..=U+30FA, all letters of the Katakana script.
pub open spec fn is_katakana(c: char) -> bool {
    let u = c as u32;
    0x30a1 <= u <= 0x30fa
}

/// Whether `c` is a kana letter (Hiragana or Katakana).
pub open spec fn is_kana(c: char) -> bool {
    is_hiragana(c) || is_katakana(c)
}

/// Whether `c` is in U+4E00..=U+9FA5, all letters of the Han script.
pub open spec fn is_han(c: char) -> bool {
    let u = c as u32;
    0x4e00 <= u <= 0x9fa5
}

/// Whether `c` is a character that is not a letter and belongs to no script
/// that the detector reads, so that it never forms or joins a word: an ASCII
/// character other than a letter (spaces and digits among them), the ideographic
/// comma and full stop (U+3001, U+3002), the corner brackets U+300C..=U+300F, or
/// the fullwidth `!` `,` `:` `;` `?` (U+FF01, U+FF0C, U+FF1A, U+FF1B, U+FF1F).
pub open spec fn is_word_separator(c: char) -> bool {
    let u = c as u32;
    ||| is_ascii_non_letter(c)
    ||| u == 0x3001
    ||| u == 0x3002
    ||| 0x300c <= u <= 0x300f
    ||| u == 0xff01
    ||| u == 0xff0c
    ||| u == 0xff1a
    ||| u == 0xff1b
    ||| u == 0xff1f
}

/// Whether `text` has at least one Han or kana letter and nothing but Han
/// letters, kana letters and word separators.
pub open spec fn cjk_only(text: Seq<char>) -> bool {
    &&& exists|i: int| 0 <= i < text.len() && (is_han(#[trigger] text[i]) || is_kana(text[i]))
    &&& forall|i: int|
        0 <= i < text.len() ==> is_han(#[trigger] text[i]) || is_kana(text[i])
            || is_word_separator(text[i])
}

/// Whether `text` has a kana letter.
pub open spec fn has_kana(text: Seq<char>) -> bool {
    exists|i: int| 0 <= i < text.len() && is_kana(#[trigger] text[i])
}

/// Asks `lingua` which of English, Japanese and Chinese `text` is written in.
///
/// Calls `LanguageDetectorBuilder::from_languages(..).build()` and then
/// `LanguageDetector::detect_language_of`. The detector sums floating-point
/// scores over hash maps whose order varies between processes, so in general
/// near-ties may be decided differently from run to run, and the answer is not
/// named. The contract claims the outcomes that the detector's source fixes
/// before any score is computed:
/// - a text without letters has no words, all three scores stay 0, and the
///   answer is `None`;
/// - in a text of Han letters, kana letters and separators (characters that are
///   no letters: the regular expression that splits words, `\p{Han}`,
///   `\p{Hiragana}`, `\p{Katakana}` by script and `\p{L}+`, matches none of them),
///   each letter is a word of its own and the separators are dropped; the words
///   are decided by the rules: a Han letter counts for Chinese, a kana letter
///   for Japanese (Hiragana and Katakana are alphabets of Japanese alone), and
///   when both languages are counted the rules answer Japanese. So such a text is
///   Japanese when it has kana and Chinese otherwise;
/// - in an ASCII text with a letter, every word is a run of Latin letters, and
///   with these three languages the Latin alphabet is English's alone, so the
///   rules count every word for English and the answer is English.
#[verifier::external_body]
pub(crate) fn detect_language(text: &str) -> (r: Option<Language>)
    ensures
        (forall|i: int| 0 <= i < text@.len() ==> is_ascii_non_letter(#[trigger] text@[i]))
            ==> r is None,
        cjk_only(text@) && has_kana(text@) ==> r == Some(Language::Japanese),
        cjk_only(text@) && !has_kana(text@) ==> r == Some(Language::Chinese),
        ascii_with_letter(text@) ==> r == Some(Language::English),
{
    let detector = lingua::LanguageDetectorBuilder::from_languages(
        &[lingua::Language::English, lingua::Language::Japanese, lingua::Language::Chinese],
    ).build();
    match detector.detect_language_of(text) {
        Some(lingua::Language::English) => Some(Language::English),
        Some(lingua::Language::Japanese) => Some(Language::Japanese),
        Some(lingua::Language::Chinese) => Some(Language::Chinese),
        None => None,
    }
}

/// The error that `oxilangtag::LanguageTag::parse` returns for a tag that is
/// not well-formed.
#[verifier::external_type_specification]
#[verifier::external_body]
pub struct ExVoiceTagParseError(oxilangtag::LanguageTagParseError);

/// The primary language subtag that `oxilangtag` finds in `tag` (the tag type
/// of the speech engine), or `None` where `LanguageTag::parse` refuses `tag`.
pub uninterp spec fn spec_voice_tag_primary_language(tag: Seq<char>) -> Option<Seq<char>>;

/// Parses `tag` with `oxilangtag::LanguageTag::parse`, the parser of the speech
/// engine's language tags, and returns its `primary_language()` as a `String`.
///
/// The contract claims only that the outcome is a function of `tag` alone
/// (named `spec_voice_tag_primary_language`): the parser is deterministic and
/// reads nothing but its argument. What the subtag is (the first subtag as
/// written, case kept, for ordinary tags) is left unstated.
#[verifier::external_body]
pub(crate) fn voice_tag_primary_language(tag: &str) -> (r: Result<
    String,
    oxilangtag::LanguageTagParseError,
>)
    ensures
        match r {
            Ok(p) => spec_voice_tag_primary_language(tag@) == Some(p@),
            Err(_) => spec_voice_tag_primary_language(tag@) is None,
        },
{
    oxilangtag::LanguageTag::parse(tag).map(|t| t.primary_language().to_string())
}

/// The error that `language_tags::LanguageTag::parse` returns for a tag that is
/// not well-formed.
#[verifier::external_type_specification]
#[verifier::external_body]
pub struct ExTagParseError(language_tags::ParseError);

/// The primary language subtag that `language_tags` finds in `tag`, or `None`
/// where `LanguageTag::parse` refuses `tag`.
pub uninterp spec fn spec_primary_language(tag: Seq<char>) -> Option<Seq<char>>;

/// Parses `tag` with `language_tags::LanguageTag::parse` and returns its
/// `primary_language()` as a `String`.
///
/// The contract claims only that the outcome is a function of `tag` alone
/// (named `spec_primary_language`): the parser is deterministic and reads nothing
/// but its argument. What the subtag is (the first subtag in lower case for
/// ordinary tags, the whole tag for grandfathered and private-use ones) is left
/// unstated.
#[verifier::external_body]
pub(crate) fn primary_language(tag: &str) -> (r: Result<String, language_tags::ParseError>)
    ensures
        match r {
            Ok(p) => spec_primary_language(tag@) == Some(p@),
            Err(_) => spec_primary_language(tag@) is None,
        },
{
    language_tags::LanguageTag::parse(tag).map(|t| t.primary_language().to_string())
}

/// Separators around a text of Chinese characters leave it a text of Chinese
/// characters without kana (so the detector still answers Chinese), and around
/// a text with kana leave it one with kana (Japanese).
pub proof fn lemma_separators_keep_the_language(t: Seq<char>, u: Seq<char>)
    requires
        cjk_only(t),
        forall|i: int| 0 <= i < u.len() ==> is_word_separator(#[trigger] u[i]),
    ensures
        cjk_only(t + u) && has_kana(t + u) == has_kana(t),
        cjk_only(u + t) && has_kana(u + t) == has_kana(t),
{
    let a = t + u;
    let b = u + t;
    let i0 = choose|i: int| 0 <= i < t.len() && (is_han(#[trigger] t[i]) || is_kana(t[i]));
    assert(a[i0] == t[i0]);
    assert(b[u.len() + i0] == t[i0]);
    assert forall|i: int| 0 <= i < a.len() implies is_han(#[trigger] a[i]) || is_kana(a[i])
        || is_word_separator(a[i]) by {
        if i < t.len() {
            assert(a[i] == t[i]);
        } else {
            assert(a[i] == u[i - t.len()]);
        }
    }
    assert forall|i: int| 0 <= i < b.len() implies is_han(#[trigger] b[i]) || is_kana(b[i])
        || is_word_separator(b[i]) by {
        if i < u.len() {
            assert(b[i] == u[i]);
        } else {
            assert(b[i] == t[i - u.len()]);
        }
    }
    if has_kana(t) {
        let k = choose|i: int| 0 <= i < t.len() && is_kana(#[trigger] t[i]);
        assert(a[k] == t[k]);
        assert(b[u.len() + k] == t[k]);
    }
    if has_kana(a) {
        let k = choose|i: int| 0 <= i < a.len() && is_kana(#[trigger] a[i]);
        if k < t.len() {
            assert(a[k] == t[k]);
        } else {
            assert(a[k] == u[k - t.len()]);
        }
    }
    if has_kana(b) {
        let k = choose|i: int| 0 <= i < b.len() && is_kana(#[trigger] b[i]);
        if k < u.len() {
            assert(b[k] == u[k]);
        } else {
            assert(b[k] == t[k - u.len()]);
        }
    }
}

} // verus!
