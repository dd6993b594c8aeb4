//! Choosing a voice for a word list: the voices whose language matches the
//! list's, and the number typed to pick one of them.
use vstd::prelude::*;

use crate::dictation::Gender;
use crate::language::{
    Language,
    iso_code,
    voice_tag_primary_language,
    spec_voice_tag_primary_language,
};
use crate::text::{
    decimal_digits,
    lemma_decimal_digits_parse,
    option_view,
    option_views,
    parse_usize,
    parsed_usize,
    trim,
    trimmed,
};

verus! {

/// What the logic reads of a voice of the speech engine.
pub struct VoiceInfo {
    pub name: String,
    pub gender: Option<Gender>,
    /// The voice's BCP 47 language tag.
    pub language: String,
}

/// Why no voice could be set up.
#[derive(Clone, Copy, Debug, PartialEq, Eq, Structural)]
pub enum SpeakerError {
    /// A voice's language tag, or the word list's language code, is not a
    /// well-formed language tag.
    InvalidLanguageTag,
    /// No voice speaks the word list's language.
    NoProperVoice,
}

/// The primary language subtag of each voice's tag, `None` where the tag is
/// not well-formed.
pub open spec fn voice_primaries(voices: Seq<VoiceInfo>) -> Seq<Option<Seq<char>>> {
    voices.map_values(|v: VoiceInfo| spec_voice_tag_primary_language(v.language@))
}

/// Whether every subtag that the search needs was found: with no voices none
/// is needed; otherwise the language's and every voice's are.
pub open spec fn primaries_well_formed(
    primaries: Seq<Option<Seq<char>>>,
    code: Option<Seq<char>>,
) -> bool {
    primaries.len() == 0 || (code is Some && forall|i: int|
        0 <= i < primaries.len() ==> (#[trigger] primaries[i]) is Some)
}

/// The positions among the first `k` voices whose primary language subtag is
/// `code`, in order.
pub open spec fn matching_positions(
    primaries: Seq<Option<Seq<char>>>,
    code: Option<Seq<char>>,
    k: nat,
) -> Seq<usize>
    decreases k,
{
    if k == 0 {
        Seq::empty()
    } else {
        let i = (k - 1) as int;
        matching_positions(primaries, code, (k - 1) as nat) + if primaries[i] == code {
            seq![i as usize]
        } else {
            Seq::empty()
        }
    }
}

/// Whether every tag that the search parses is well-formed: with no voices
/// nothing is parsed; otherwise the language code and every voice's tag are.
pub open spec fn tags_well_formed(voices: Seq<VoiceInfo>, code: Seq<char>) -> bool {
    primaries_well_formed(voice_primaries(voices), spec_voice_tag_primary_language(code))
}

/// The positions among the first `k` voices whose primary language is that of
/// `code`, in order.
pub open spec fn matching_voices(voices: Seq<VoiceInfo>, code: Seq<char>, k: nat) -> Seq<usize> {
    matching_positions(voice_primaries(voices), spec_voice_tag_primary_language(code), k)
}

/// Given the primary language subtag of each voice (`None` for a tag that is not
/// well-formed) and that of the word list's language, the positions of the
/// voices that speak it, in order. Fails when a needed subtag is missing, and
/// when no voice fits.
pub fn select_proper_voices(primaries: &Vec<Option<String>>, code: &Option<String>) -> (r: Result<
    Vec<usize>,
    SpeakerError,
>)
    ensures
        !primaries_well_formed(option_views(primaries@), option_view(*code)) ==> r == Err::<
            Vec<usize>,
            SpeakerError,
        >(SpeakerError::InvalidLanguageTag),
        primaries_well_formed(option_views(primaries@), option_view(*code)) ==> match r {
            Ok(v) => v@ == matching_positions(
                option_views(primaries@),
                option_view(*code),
                primaries@.len(),
            ) && v@.len() > 0,
            Err(e) => e == SpeakerError::NoProperVoice && matching_positions(
                option_views(primaries@),
                option_view(*code),
                primaries@.len(),
            ).len() == 0,
        },
{
    let ghost ps = option_views(primaries@);
    let ghost c = option_view(*code);
    if primaries.len() == 0 {
        return Err(SpeakerError::NoProperVoice);
    }
    let code_primary = match code {
        Some(p) => p,
        None => {
            return Err(SpeakerError::InvalidLanguageTag);
        },
    };
    let mut found: Vec<usize> = Vec::new();
    let mut i: usize = 0;
    while i < primaries.len()
        invariant
            i <= primaries.len(),
            ps == option_views(primaries@),
            c == option_view(*code),
            *code == Some(*code_primary),
            forall|j: int| 0 <= j < i ==> (#[trigger] ps[j]) is Some,
            found@ == matching_positions(ps, c, i as nat),
        decreases primaries.len() - i,
    {
        let voice_primary = match &primaries[i] {
            Some(p) => p,
            None => {
                assert(ps[i as int] is None);
                return Err(SpeakerError::InvalidLanguageTag);
            },
        };
        assert(ps[i as int] == Some(voice_primary@));
        if *voice_primary == *code_primary {
            found.push(i);
        }
        proof {
            assert(found@ =~= matching_positions(ps, c, (i + 1) as nat));
        }
        i = i + 1;
    }
    if found.len() == 0 {
        Err(SpeakerError::NoProperVoice)
    } else {
        Ok(found)
    }
}

/// The voices that can read a word list in `language`: the positions of the
/// voices whose primary language subtag is that of the language's ISO 639-1
/// code, in order. Fails when a tag is not well-formed, and when no voice fits.
pub fn proper_voices(voices: &Vec<VoiceInfo>, language: Language) -> (r: Result<
    Vec<usize>,
    SpeakerError,
>)
    ensures
        !tags_well_formed(voices@, iso_code(language)) ==> r == Err::<Vec<usize>, SpeakerError>(
            SpeakerError::InvalidLanguageTag,
        ),
        tags_well_formed(voices@, iso_code(language)) ==> match r {
            Ok(v) => v@ == matching_voices(voices@, iso_code(language), voices@.len())
                && v@.len() > 0,
            Err(e) => e == SpeakerError::NoProperVoice && matching_voices(
                voices@,
                iso_code(language),
                voices@.len(),
            ).len() == 0,
        },
{
    let code = language.iso_code_639_1();
    let code_primary = match voice_tag_primary_language(code.as_str()) {
        Ok(p) => Some(p),
        Err(_) => None,
    };
    let mut primaries: Vec<Option<String>> = Vec::new();
    let mut i: usize = 0;
    while i < voices.len()
        invariant
            i <= voices.len(),
            primaries@.len() == i,
            forall|j: int|
                0 <= j < i ==> option_view(#[trigger] primaries@[j])
                    == spec_voice_tag_primary_language(voices@[j].language@),
        decreases voices.len() - i,
    {
        let p = match voice_tag_primary_language(voices[i].language.as_str()) {
            Ok(p) => Some(p),
            Err(_) => None,
        };
        primaries.push(p);
        i = i + 1;
    }
    assert(option_views(primaries@) =~= voice_primaries(voices@)) by {
        assert forall|j: int| 0 <= j < voices@.len() implies option_views(primaries@)[j]
            == voice_primaries(voices@)[j] by {
            assert(option_view(primaries@[j]) == spec_voice_tag_primary_language(
                voices@[j].language@,
            ));
        }
    }
    select_proper_voices(&primaries, &code_primary)
}

/// The voice that `line` picks among `count` voices: after trimming, a blank
/// line picks the first one and a number from 1 to `count` picks that one;
/// anything else picks none.
pub open spec fn voice_choice_of(line: Seq<char>, count: nat) -> Option<usize> {
    let t = trimmed(line);
    let n = if t.len() == 0 {
        Some(1nat)
    } else {
        parsed_usize(t)
    };
    match n {
        Some(n) => if 1 <= n <= count {
            Some((n - 1) as usize)
        } else {
            None
        },
        None => None,
    }
}

/// The position of the voice that `line` picks among `count` voices.
pub fn voice_choice(line: &str, count: usize) -> (r: Option<usize>)
    ensures
        r == voice_choice_of(line@, count as nat),
{
    let t = trim(line);
    let n = if t.as_str().unicode_len() == 0 {
        Some(1)
    } else {
        parse_usize(t.as_str())
    };
    match n {
        Some(n) => if 1 <= n && n <= count {
            Some(n - 1)
        } else {
            None
        },
        None => None,
    }
}

/// The prompt for picking one of a number of voices: it repeats until a line
/// picks a voice, and after a refused line it says that the number was invalid.
pub struct VoicePicker {
    count: usize,
    invalid_input: bool,
}

impl VoicePicker {
    /// The number of voices to pick from.
    pub closed spec fn count(self) -> nat {
        self.count as nat
    }

    /// Whether the prompt has to say that the last line was invalid.
    pub closed spec fn invalid_input(self) -> bool {
        self.invalid_input
    }

    /// A prompt over `count` voices.
    pub fn new(count: usize) -> (r: Self)
        ensures
            r.count() == count,
            !r.invalid_input(),
    {
        VoicePicker { count, invalid_input: false }
    }

    /// The number of voices to pick from.
    pub fn voice_count(&self) -> (r: usize)
        ensures
            r == self.count(),
    {
        self.count
    }

    /// Whether the prompt has to say that the last line was invalid.
    pub fn last_input_invalid(&self) -> (r: bool)
        ensures
            r == self.invalid_input(),
    {
        self.invalid_input
    }

    /// Reads a line typed at the prompt: the voice it picks, or `None`, after
    /// which the prompt says that the number was invalid.
    pub fn pick(&mut self, line: &str) -> (r: Option<usize>)
        ensures
            r == voice_choice_of(line@, old(self).count()),
            final(self).count() == old(self).count(),
            final(self).invalid_input() == (r is None || old(self).invalid_input()),
    {
        let r = voice_choice(line, self.count);
        if r.is_none() {
            self.invalid_input = true;
        }
        r
    }
}

/// The positions found are exactly those whose subtag is the language's, each
/// once, in increasing order.
pub proof fn lemma_matching_positions_exact(
    primaries: Seq<Option<Seq<char>>>,
    code: Option<Seq<char>>,
    k: nat,
)
    requires
        k <= primaries.len(),
        k <= usize::MAX,
    ensures
        forall|i: usize|
            #[trigger] matching_positions(primaries, code, k).contains(i) <==> (i < k
                && primaries[i as int] == code),
        forall|j1: int, j2: int|
            0 <= j1 < j2 < matching_positions(primaries, code, k).len() ==> #[trigger] matching_positions(
                primaries,
                code,
                k,
            )[j1] < #[trigger] matching_positions(primaries, code, k)[j2],
    decreases k,
{
    if k > 0 {
        let k1 = (k - 1) as nat;
        lemma_matching_positions_exact(primaries, code, k1);
        let prev = matching_positions(primaries, code, k1);
        let cur = matching_positions(primaries, code, k);
        let last = k1 as int;
        let tail = if primaries[last] == code {
            seq![last as usize]
        } else {
            Seq::<usize>::empty()
        };
        assert(cur =~= prev + tail);
        assert forall|i: usize| #[trigger]
            cur.contains(i) <==> (i < k && primaries[i as int] == code) by {
            if cur.contains(i) {
                let j = choose|j: int| 0 <= j < cur.len() && cur[j] == i;
                if j < prev.len() {
                    assert(prev[j] == cur[j]);
                    assert(prev.contains(i));
                } else {
                    assert(tail[j - prev.len()] == i);
                }
            }
            if i < k && primaries[i as int] == code {
                if i < k1 {
                    assert(prev.contains(i));
                    let j = choose|j: int| 0 <= j < prev.len() && prev[j] == i;
                    assert(cur[j] == i);
                } else {
                    assert(cur[cur.len() - 1] == i);
                }
            }
        }
        assert forall|j1: int, j2: int| 0 <= j1 < j2 < cur.len() implies #[trigger] cur[j1]
            < #[trigger] cur[j2] by {
            assert(cur[j1] == prev[j1]);
            if j2 < prev.len() {
                assert(cur[j2] == prev[j2]);
            } else {
                assert(cur[j2] == tail[j2 - prev.len()]);
                assert(prev.contains(prev[j1]));
            }
        }
    }
}

/// The voices found for a language are exactly those whose primary language is
/// the language's, each once, in the order of the engine's list.
pub proof fn lemma_matching_voices_exact(voices: Seq<VoiceInfo>, code: Seq<char>, k: nat)
    requires
        k <= voices.len(),
        k <= usize::MAX,
    ensures
        forall|i: usize|
            #[trigger] matching_voices(voices, code, k).contains(i) <==> (i < k
                && spec_voice_tag_primary_language(voices[i as int].language@)
                == spec_voice_tag_primary_language(code)),
        forall|j1: int, j2: int|
            0 <= j1 < j2 < matching_voices(voices, code, k).len() ==> #[trigger] matching_voices(
                voices,
                code,
                k,
            )[j1] < #[trigger] matching_voices(voices, code, k)[j2],
{
    let ps = voice_primaries(voices);
    lemma_matching_positions_exact(ps, spec_voice_tag_primary_language(code), k);
    assert forall|i: usize| #[trigger]
        matching_voices(voices, code, k).contains(i) <==> (i < k
            && spec_voice_tag_primary_language(voices[i as int].language@)
            == spec_voice_tag_primary_language(code)) by {
        if i < k {
            assert(ps[i as int] == spec_voice_tag_primary_language(voices[i as int].language@));
        }
    }
}

/// A line picks a voice from the list it was typed for, and a blank line picks
/// the first voice whenever there is one.
pub proof fn lemma_voice_choice_in_range(line: Seq<char>, count: nat)
    ensures
        voice_choice_of(line, count) matches Some(i) ==> i < count,
        trimmed(line).len() == 0 && count >= 1 ==> voice_choice_of(line, count) == Some(0usize),
{
}

/// Every listed voice can be picked by its number: a line that reads, once
/// trimmed, as the decimal number `n` of a voice from 1 to `count` picks the
/// voice at position `n - 1`.
pub proof fn lemma_every_voice_can_be_picked(line: Seq<char>, n: nat, count: nat)
    requires
        1 <= n <= count,
        count <= usize::MAX,
        trimmed(line) == decimal_digits(n),
    ensures
        voice_choice_of(line, count) == Some((n - 1) as usize),
{
    lemma_decimal_digits_parse(n);
}

} // verus!
