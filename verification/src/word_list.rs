//! Word lists (what a dictation reads from) and correction lists (what it
//! writes out), and the preparation of a word list for a session.
use vstd::prelude::*;
use rand::SeedableRng;
use rand::seq::SliceRandom;

use crate::dictation::Mode;
use crate::language::{
    Language,
    ascii_with_letter,
    cjk_only,
    detect_language,
    has_kana,
    is_ascii_non_letter,
};
use crate::text::{join_words, joined, trim, trimmed, views};

verus! {

/// A list of words to dictate, with the language it is written in where known.
pub struct WordList {
    pub language: Option<Language>,
    pub words: Vec<String>,
}

/// The wrong answers of a dictation: for each, the 1-based position of the word,
/// the answer given and the word itself.
pub struct CorrectionList {
    pub words_and_correction: Vec<(usize, String, String)>,
}

/// One entry of a correction list, with its strings taken by their characters.
pub open spec fn entry_view(e: (usize, String, String)) -> (usize, Seq<char>, Seq<char>) {
    (e.0, e.1@, e.2@)
}

impl View for CorrectionList {
    type V = Seq<(usize, Seq<char>, Seq<char>)>;

    open spec fn view(&self) -> Seq<(usize, Seq<char>, Seq<char>)> {
        self.words_and_correction@.map_values(|e: (usize, String, String)| entry_view(e))
    }
}

impl CorrectionList {
    /// Whether no answer was wrong.
    pub fn is_empty(&self) -> (r: bool)
        ensures
            r == (self@.len() == 0),
    {
        self.words_and_correction.len() == 0
    }
}

/// The word that a line typed while building a word list adds: the line
/// trimmed, or `None` for a blank line, which ends the list.
pub fn entered_word(line: &str) -> (r: Option<String>)
    ensures
        trimmed(line@).len() == 0 ==> r is None,
        trimmed(line@).len() > 0 ==> (r matches Some(w) && w@ == trimmed(line@)),
{
    let w = trim(line);
    if w.as_str().unicode_len() == 0 {
        None
    } else {
        Some(w)
    }
}

/// A seed drawn from `rand::random`, that is from the thread-local generator.
/// Nothing is stated of its value.
#[verifier::external_body]
fn random_seed() -> (r: u64) {
    rand::random()
}

/// The order in which `SliceRandom::shuffle`, driven by `StdRng::seed_from_u64(seed)`,
/// leaves a list of words.
pub uninterp spec fn spec_shuffled(words: Seq<Seq<char>>, seed: u64) -> Seq<Seq<char>>;

/// Shuffles `words` with `rand`'s `SliceRandom::shuffle`, driven by a `StdRng`
/// seeded with `seed`.
///
/// The shuffle is a Fisher-Yates pass of swaps, so the result is a permutation of
/// the input; which permutation is a function of the words and the seed
/// (`spec_shuffled`), left unstated.
#[verifier::external_body]
fn shuffle_with_seed(words: &mut Vec<String>, seed: u64)
    ensures
        final(words)@.to_multiset() == old(words)@.to_multiset(),
        views(final(words)@) == spec_shuffled(views(old(words)@), seed),
{
    let mut rng = rand::rngs::StdRng::seed_from_u64(seed);
    words.shuffle(&mut rng);
}

/// Whether a session in `mode` shuffles its words: only a dictation does, and
/// only when shuffling was not switched off.
pub open spec fn shuffles(mode: Mode, dont_shuffle: bool) -> bool {
    !dont_shuffle && mode == Mode::Dictation
}

/// Gets a word list ready for a session: the language is the one the list names,
/// or else the one detected in the words joined by spaces; the words are put in a
/// random order when the session shuffles, and kept in order otherwise.
///
/// Of a detected language the contract states what the detector's source fixes
/// for the joined text: `None` when it has no letter; for a text of Han letters,
/// kana and separators such as spaces and punctuation, Japanese when it has
/// kana and Chinese when it has none; for
/// an ASCII text with a letter, English. Of a shuffle it states that the order
/// is the one that `rand` gives for some seed.
pub fn prepare_word_list(list: WordList, mode: Mode, dont_shuffle: bool) -> (r: (
    Option<Language>,
    Vec<String>,
))
    ensures
        list.language is Some ==> r.0 == list.language,
        list.language is None && (forall|i: int|
            0 <= i < joined(views(list.words@), seq![' ']).len() ==> is_ascii_non_letter(
                #[trigger] joined(views(list.words@), seq![' '])[i],
            )) ==> r.0 is None,
        list.language is None && cjk_only(joined(views(list.words@), seq![' '])) && has_kana(
            joined(views(list.words@), seq![' ']),
        ) ==> r.0 == Some(Language::Japanese),
        list.language is None && cjk_only(joined(views(list.words@), seq![' '])) && !has_kana(
            joined(views(list.words@), seq![' ']),
        ) ==> r.0 == Some(Language::Chinese),
        list.language is None && ascii_with_letter(joined(views(list.words@), seq![' '])) ==> r.0
            == Some(Language::English),
        shuffles(mode, dont_shuffle) ==> r.1@.to_multiset() == list.words@.to_multiset(),
        shuffles(mode, dont_shuffle) ==> exists|seed: u64|
            views(r.1@) == spec_shuffled(views(list.words@), seed),
        !shuffles(mode, dont_shuffle) ==> r.1@ == list.words@,
{
    let WordList { language, words } = list;
    let language = match language {
        Some(l) => Some(l),
        None => {
            proof {
                reveal_strlit(" ");
            }
            assert(" "@ =~= seq![' ']);
            let text = join_words(&words, " ");
            assert(text@ == joined(views(words@), seq![' ']));
            detect_language(text.as_str())
        },
    };
    let mut words = words;
    if !dont_shuffle && mode == Mode::Dictation {
        let seed = random_seed();
        shuffle_with_seed(&mut words, seed);
    }
    (language, words)
}

} // verus!
