//! The simpler dictation flow: a voice chosen by gender and language, answers
//! judged as they are typed, and a plain-text list of the wrong ones.
use vstd::prelude::*;

use crate::language::{Language, iso_code, primary_language, spec_primary_language};
use crate::speaker::VoiceInfo;
use crate::text::{option_view, option_views, trim, trimmed};

verus! {

/// The gender of the voice asked for.
#[derive(Clone, Copy, Debug, PartialEq, Eq, Structural)]
pub enum Gender {
    Male,
    Female,
}

/// The gender of a voice that stands for an asked-for gender.
pub open spec fn voice_gender(g: Gender) -> crate::dictation::Gender {
    match g {
        Gender::Male => crate::dictation::Gender::Male,
        Gender::Female => crate::dictation::Gender::Female,
    }
}

impl From<Gender> for crate::dictation::Gender {
    fn from(val: Gender) -> (r: crate::dictation::Gender) {
        match val {
            Gender::Male => crate::dictation::Gender::Male,
            Gender::Female => crate::dictation::Gender::Female,
        }
    }
}

impl vstd::std_specs::convert::FromSpecImpl<Gender> for crate::dictation::Gender {
    open spec fn obeys_from_spec() -> bool {
        true
    }

    open spec fn from_spec(v: Gender) -> Self {
        voice_gender(v)
    }
}

/// What the program is asked to do with a word list.
#[derive(Clone, Copy, Debug, PartialEq, Eq, Structural)]
pub enum Mode {
    Dictate,
    Read,
}

/// How a voice fares in the search for one of a gender and a language.
#[derive(Clone, Copy, Debug, PartialEq, Eq, Structural)]
pub enum VoiceCheck {
    /// The voice has another gender, or speaks another language.
    Skip,
    /// The voice has the gender and speaks the language.
    Fits,
    /// A language tag compared for this voice is not well-formed.
    TagError,
    /// The voice has no gender, which the search cannot compare.
    NoGender,
}

/// How a voice with `voice_gender_of` and primary language subtag `primary`
/// fares in the search for a voice of `gender` whose language has the subtag
/// `code` (`None` where a tag is not well-formed): the gender is compared
/// first, and only then the subtags.
pub open spec fn entry_check(
    voice_gender_of: Option<crate::dictation::Gender>,
    primary: Option<Seq<char>>,
    gender: Gender,
    code: Option<Seq<char>>,
) -> VoiceCheck {
    match voice_gender_of {
        None => VoiceCheck::NoGender,
        Some(g) => if g != voice_gender(gender) {
            VoiceCheck::Skip
        } else {
            match (primary, code) {
                (Some(p), Some(c)) => if p == c {
                    VoiceCheck::Fits
                } else {
                    VoiceCheck::Skip
                },
                _ => VoiceCheck::TagError,
            }
        },
    }
}

/// How `v` fares in the search for a voice of `gender` speaking the language
/// with ISO 639-1 code `code`, the tags parsed by `language_tags`.
pub open spec fn check_voice(v: VoiceInfo, gender: Gender, code: Seq<char>) -> VoiceCheck {
    entry_check(v.gender, spec_primary_language(v.language@), gender, spec_primary_language(code))
}

/// Whether the search passes over all of the first `k` voices.
pub open spec fn all_skipped(voices: Seq<VoiceInfo>, gender: Gender, code: Seq<char>, k: int) -> bool {
    forall|i: int| 0 <= i < k ==> check_voice(#[trigger] voices[i], gender, code) == VoiceCheck::Skip
}

/// Whether the search passes over all of the first `k` voices, given by their
/// genders and primary language subtags.
pub open spec fn entries_skipped(
    genders: Seq<Option<crate::dictation::Gender>>,
    primaries: Seq<Option<Seq<char>>>,
    gender: Gender,
    code: Option<Seq<char>>,
    k: int,
) -> bool {
    forall|i: int|
        0 <= i < k ==> entry_check(#[trigger] genders[i], primaries[i], gender, code)
            == VoiceCheck::Skip
}

/// Where the search for a voice of a gender and a language stops.
#[derive(Clone, Copy, Debug, PartialEq, Eq, Structural)]
pub enum VoiceSearch {
    /// At this voice, which fits.
    Found(usize),
    /// Nowhere: no voice fits.
    NoneFits,
    /// At a voice of the gender whose language tag, or the language's code, is
    /// not well-formed.
    InvalidLanguageTag,
    /// At this voice, which has no gender to compare.
    MissingGender(usize),
}

/// The outcome of a search that stops at voice `k`, which fares as `check`.
pub open spec fn stop_at(k: usize, check: VoiceCheck) -> VoiceSearch {
    match check {
        VoiceCheck::Fits => VoiceSearch::Found(k),
        VoiceCheck::TagError => VoiceSearch::InvalidLanguageTag,
        _ => VoiceSearch::MissingGender(k),
    }
}

/// Given the gender and the primary language subtag (`None` for a tag that is
/// not well-formed) of each voice, and the subtag of the language, searches the
/// voices in order for the first one of `gender` that speaks it: it passes over
/// the voices of another gender or language and stops at the first voice that
/// fits, that has no gender, or whose subtags cannot be compared.
pub fn first_fitting_voice(
    genders: &Vec<Option<crate::dictation::Gender>>,
    primaries: &Vec<Option<String>>,
    gender: Gender,
    code: &Option<String>,
) -> (r: VoiceSearch)
    requires
        genders@.len() == primaries@.len(),
    ensures
        r == VoiceSearch::NoneFits <==> entries_skipped(
            genders@,
            option_views(primaries@),
            gender,
            option_view(*code),
            genders@.len() as int,
        ),
        r != VoiceSearch::NoneFits ==> exists|k: int|
            0 <= k < genders@.len() && entries_skipped(
                genders@,
                option_views(primaries@),
                gender,
                option_view(*code),
                k,
            ) && entry_check(
                #[trigger] genders@[k],
                option_views(primaries@)[k],
                gender,
                option_view(*code),
            ) != VoiceCheck::Skip && r == stop_at(
                k as usize,
                entry_check(genders@[k], option_views(primaries@)[k], gender, option_view(*code)),
            ),
{
    let ghost ps = option_views(primaries@);
    let ghost c = option_view(*code);
    let wanted: crate::dictation::Gender = crate::dictation::Gender::from(gender);
    let mut i: usize = 0;
    while i < genders.len()
        invariant
            i <= genders.len(),
            genders@.len() == primaries@.len(),
            ps == option_views(primaries@),
            c == option_view(*code),
            wanted == voice_gender(gender),
            entries_skipped(genders@, ps, gender, c, i as int),
        decreases genders.len() - i,
    {
        let g = match genders[i] {
            Some(g) => g,
            None => {
                assert(entry_check(genders@[i as int], ps[i as int], gender, c)
                    == VoiceCheck::NoGender);
                return VoiceSearch::MissingGender(i);
            },
        };
        if g == wanted {
            assert(ps[i as int] == option_view(primaries@[i as int]));
            match (&primaries[i], code) {
                (Some(p), Some(q)) => {
                    if *p == *q {
                        assert(entry_check(genders@[i as int], ps[i as int], gender, c)
                            == VoiceCheck::Fits);
                        return VoiceSearch::Found(i);
                    }
                },
                _ => {
                    assert(entry_check(genders@[i as int], ps[i as int], gender, c)
                        == VoiceCheck::TagError);
                    return VoiceSearch::InvalidLanguageTag;
                },
            }
        }
        assert(entry_check(genders@[i as int], ps[i as int], gender, c) == VoiceCheck::Skip);
        i = i + 1;
    }
    VoiceSearch::NoneFits
}

/// Searches the voices in order for the first one of `gender` that speaks
/// `language`: it passes over the voices of another gender or language and stops
/// at the first voice that fits, that has no gender, or whose language cannot be
/// compared because a tag is not well-formed.
pub fn find_voice(voices: &Vec<VoiceInfo>, gender: Gender, language: Language) -> (r: VoiceSearch)
    ensures
        r == VoiceSearch::NoneFits <==> all_skipped(
            voices@,
            gender,
            iso_code(language),
            voices@.len() as int,
        ),
        r != VoiceSearch::NoneFits ==> exists|k: int|
            0 <= k < voices@.len() && all_skipped(voices@, gender, iso_code(language), k)
                && check_voice(#[trigger] voices@[k], gender, iso_code(language)) != VoiceCheck::Skip
                && r == stop_at(k as usize, check_voice(voices@[k], gender, iso_code(language))),
{
    let code = language.iso_code_639_1();
    let code_primary = match primary_language(code.as_str()) {
        Ok(p) => Some(p),
        Err(_) => None,
    };
    let mut genders: Vec<Option<crate::dictation::Gender>> = Vec::new();
    let mut primaries: Vec<Option<String>> = Vec::new();
    let mut i: usize = 0;
    while i < voices.len()
        invariant
            i <= voices.len(),
            genders@.len() == i,
            primaries@.len() == i,
            forall|j: int| 0 <= j < i ==> #[trigger] genders@[j] == voices@[j].gender,
            forall|j: int|
                0 <= j < i ==> option_view(#[trigger] primaries@[j]) == spec_primary_language(
                    voices@[j].language@,
                ),
        decreases voices.len() - i,
    {
        let p = match primary_language(voices[i].language.as_str()) {
            Ok(p) => Some(p),
            Err(_) => None,
        };
        let g = voices[i].gender;
        assert(g == voices@[i as int].gender);
        genders.push(g);
        primaries.push(p);
        assert(genders@[i as int] == voices@[i as int].gender);
        i = i + 1;
    }
    let ghost ps = option_views(primaries@);
    let ghost c = option_view(code_primary);
    assert(c == spec_primary_language(iso_code(language)));
    assert forall|j: int| 0 <= j < voices@.len() implies entry_check(
        #[trigger] genders@[j],
        ps[j],
        gender,
        c,
    ) == check_voice(voices@[j], gender, iso_code(language)) by {
        assert(genders@[j] == voices@[j].gender);
        assert(ps[j] == option_view(primaries@[j]));
    }
    let r = first_fitting_voice(&genders, &primaries, gender, &code_primary);
    assert forall|k: int| 0 <= k <= voices@.len() implies entries_skipped(genders@, ps, gender, c, k)
        == all_skipped(voices@, gender, iso_code(language), k) by {
        if entries_skipped(genders@, ps, gender, c, k) {
            assert forall|i: int| 0 <= i < k implies check_voice(
                #[trigger] voices@[i],
                gender,
                iso_code(language),
            ) == VoiceCheck::Skip by {
                assert(entry_check(genders@[i], ps[i], gender, c) == VoiceCheck::Skip);
            }
        }
        if all_skipped(voices@, gender, iso_code(language), k) {
            assert forall|i: int| 0 <= i < k implies entry_check(
                #[trigger] genders@[i],
                ps[i],
                gender,
                c,
            ) == VoiceCheck::Skip by {
                assert(check_voice(voices@[i], gender, iso_code(language)) == VoiceCheck::Skip);
            }
        }
    }
    if r != VoiceSearch::NoneFits {
        let ghost k = choose|k: int|
            0 <= k < genders@.len() && entries_skipped(genders@, ps, gender, c, k) && entry_check(
                #[trigger] genders@[k],
                ps[k],
                gender,
                c,
            ) != VoiceCheck::Skip && r == stop_at(
                k as usize,
                entry_check(genders@[k], ps[k], gender, c),
            );
        assert(check_voice(voices@[k], gender, iso_code(language)) != VoiceCheck::Skip);
    }
    r
}

/// The line that records a wrong answer: the answer, ` -> `, and the word.
pub open spec fn wrong_line(answer: Seq<char>, word: Seq<char>) -> Seq<char> {
    answer + seq![' ', '-', '>', ' '] + word
}

/// The wrong-answer line for `line` typed for `word`, both trimmed, or `None`
/// when the trimmed answer is the trimmed word.
pub open spec fn judged(word: Seq<char>, line: Seq<char>) -> Option<Seq<char>> {
    if trimmed(line) == trimmed(word) {
        None
    } else {
        Some(wrong_line(trimmed(line), trimmed(word)))
    }
}

/// Judges the line typed for `word`: `None` when, trimmed, it is the trimmed
/// word, and otherwise the line that records the mistake.
pub fn judge_answer(word: &str, line: &str) -> (r: Option<String>)
    ensures
        match judged(word@, line@) {
            Some(l) => r matches Some(s) && s@ == l,
            None => r is None,
        },
{
    let s = trim(word);
    let input = trim(line);
    if input == s {
        None
    } else {
        let mut out = input;
        proof {
            reveal_strlit(" -> ");
        }
        out.append(" -> ");
        out.append(s.as_str());
        Some(out)
    }
}

/// The answers judged so far in a dictation: the lines recording the wrong ones,
/// in order, and how many were judged.
pub struct WrongList {
    lines: Vec<String>,
    judged: usize,
}

impl WrongList {
    /// The lines recording the wrong answers.
    pub closed spec fn lines(self) -> Seq<Seq<char>> {
        crate::text::views(self.lines@)
    }

    /// How many answers were judged.
    pub closed spec fn judged_count(self) -> nat {
        self.judged as nat
    }

    /// No more answers were wrong than were judged.
    pub closed spec fn wf(self) -> bool {
        self.lines@.len() <= self.judged
    }

    /// An empty record.
    pub fn new() -> (r: Self)
        ensures
            r.wf(),
            r.lines().len() == 0,
            r.judged_count() == 0,
    {
        WrongList { lines: Vec::new(), judged: 0 }
    }

    /// Judges the line typed for `word` and records it; `true` when it was wrong.
    pub fn record(&mut self, word: &str, line: &str) -> (wrong: bool)
        requires
            old(self).wf(),
            old(self).judged_count() < usize::MAX,
        ensures
            final(self).wf(),
            final(self).judged_count() == old(self).judged_count() + 1,
            wrong == judged(word@, line@) is Some,
            final(self).lines() == match judged(word@, line@) {
                Some(l) => old(self).lines().push(l),
                None => old(self).lines(),
            },
    {
        let r = judge_answer(word, line);
        self.judged = self.judged + 1;
        match r {
            Some(l) => {
                self.lines.push(l);
                proof {
                    assert(crate::text::views(self.lines@) =~= crate::text::views(
                        old(self).lines@,
                    ).push(judged(word@, line@).unwrap()));
                }
                true
            },
            None => false,
        }
    }

    /// How many answers were judged.
    pub fn count_judged(&self) -> (r: usize)
        ensures
            r == self.judged_count(),
    {
        self.judged
    }

    /// How many judged answers were right.
    pub fn correct_count(&self) -> (r: usize)
        requires
            self.wf(),
        ensures
            r + self.lines().len() == self.judged_count(),
    {
        self.judged - self.lines.len()
    }

    /// The lines recording the wrong answers.
    pub fn into_lines(self) -> (r: Vec<String>)
        ensures
            crate::text::views(r@) == self.lines(),
    {
        self.lines
    }
}

/// The text of a wrong-answer file: each line followed by a newline.
pub open spec fn rendered(lines: Seq<Seq<char>>) -> Seq<char>
    decreases lines.len(),
{
    if lines.len() == 0 {
        Seq::empty()
    } else {
        rendered(lines.drop_last()) + lines.last() + seq!['\n']
    }
}

/// Writes the wrong-answer lines one per line, each ended by a newline.
pub fn render_wrong_list(lines: &Vec<String>) -> (r: String)
    ensures
        r@ == rendered(crate::text::views(lines@)),
{
    let mut out = String::new();
    let ghost ls = crate::text::views(lines@);
    let mut i: usize = 0;
    while i < lines.len()
        invariant
            i <= lines.len(),
            ls == crate::text::views(lines@),
            out@ == rendered(ls.subrange(0, i as int)),
        decreases lines.len() - i,
    {
        out.append(lines[i].as_str());
        proof {
            reveal_strlit("\n");
        }
        out.append("\n");
        proof {
            let after = ls.subrange(0, i + 1);
            assert(after.drop_last() =~= ls.subrange(0, i as int));
        }
        i = i + 1;
    }
    assert(ls.subrange(0, lines.len() as int) =~= ls);
    out
}

/// A voice of the asked gender fits exactly when its primary language subtag is
/// the language's, compared as whole strings, and is passed over otherwise; a
/// voice of another gender is always passed over.
pub proof fn lemma_fit_is_equal_subtags(
    voice_gender_of: crate::dictation::Gender,
    primary: Seq<char>,
    gender: Gender,
    code: Seq<char>,
)
    ensures
        voice_gender_of == voice_gender(gender) ==> (entry_check(
            Some(voice_gender_of),
            Some(primary),
            gender,
            Some(code),
        ) == VoiceCheck::Fits <==> primary == code),
        voice_gender_of == voice_gender(gender) && primary != code ==> entry_check(
            Some(voice_gender_of),
            Some(primary),
            gender,
            Some(code),
        ) == VoiceCheck::Skip,
        voice_gender_of != voice_gender(gender) ==> entry_check(
            Some(voice_gender_of),
            Some(primary),
            gender,
            Some(code),
        ) == VoiceCheck::Skip,
{
}

/// The voice that the search finds has the asked gender and a well-formed tag
/// whose primary language subtag is exactly that of the language's code.
pub proof fn lemma_found_voice_speaks_the_language(v: VoiceInfo, gender: Gender, code: Seq<char>)
    requires
        check_voice(v, gender, code) == VoiceCheck::Fits,
    ensures
        v.gender == Some(voice_gender(gender)),
        spec_primary_language(v.language@) is Some,
        spec_primary_language(v.language@) == spec_primary_language(code),
{
}

/// An answer is judged right exactly when, trimmed, it is the trimmed word;
/// a wrong answer is recorded as the trimmed answer, ` -> `, and the trimmed word.
pub proof fn lemma_judgement(word: Seq<char>, line: Seq<char>)
    ensures
        judged(word, line) is None <==> trimmed(line) == trimmed(word),
        judged(word, line) matches Some(l) ==> l == trimmed(line) + seq![' ', '-', '>', ' ']
            + trimmed(word),
{
}

} // verus!
