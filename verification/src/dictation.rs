//! A dictation session: the answers typed for each word, the edits made to them
//! afterwards, and the correction list that comes out.
use vstd::prelude::*;

use crate::text::{
    decimal_digits,
    is_digit,
    lemma_decimal_digits_parse,
    parse_usize,
    parsed_usize,
    trim,
    trimmed,
    views,
};
use crate::word_list::CorrectionList;

verus! {

/// The gender of a voice.
#[derive(Clone, Copy, Debug, PartialEq, Eq, Structural)]
pub enum Gender {
    Male,
    Female,
}

/// What the program is asked to do with a word list.
#[derive(Clone, Copy, Debug, PartialEq, Eq, Structural)]
pub enum Mode {
    /// Self-guided dictation
    Dictation,
    Speak,
    /// Build a word list
    BuildList,
}

/// What a line typed at the "any changes?" prompt asks for.
#[derive(Clone, Copy, Debug, PartialEq, Eq, Structural)]
pub enum EditCommand {
    /// Stop editing (a blank line or `q`).
    Finish,
    /// Change the answer at this 0-based position.
    Change(usize),
    /// Anything else: ask again.
    Invalid,
}

/// The command that `line` gives at the edit prompt of a dictation of
/// `word_num` words: after trimming, an empty line or `q` finishes, a number from
/// 1 to `word_num` changes that answer, and anything else is invalid.
pub open spec fn edit_command_of(line: Seq<char>, word_num: nat) -> EditCommand {
    let t = trimmed(line);
    if t.len() == 0 || t == seq!['q'] {
        EditCommand::Finish
    } else {
        match parsed_usize(t) {
            Some(n) => if 1 <= n <= word_num {
                EditCommand::Change((n - 1) as usize)
            } else {
                EditCommand::Invalid
            },
            None => EditCommand::Invalid,
        }
    }
}

/// Reads what a line typed at the edit prompt asks for.
pub fn parse_edit_command(line: &str, word_num: usize) -> (r: EditCommand)
    ensures
        r == edit_command_of(line@, word_num as nat),
{
    let t = trim(line);
    let s = t.as_str();
    let len = s.unicode_len();
    if len == 0 {
        return EditCommand::Finish;
    }
    if len == 1 && s.get_char(0) == 'q' {
        assert(t@ =~= seq!['q']);
        return EditCommand::Finish;
    }
    assert(t@ != seq!['q']) by {
        if t@ == seq!['q'] {
            assert(t@[0] == 'q');
        }
    }
    match parse_usize(s) {
        Some(n) => if 1 <= n && n <= word_num {
            EditCommand::Change(n - 1)
        } else {
            EditCommand::Invalid
        },
        None => EditCommand::Invalid,
    }
}

/// The correction entries for the first `k` words: one for each position whose
/// answer differs from its word, in order, numbered from 1.
pub open spec fn correction_entries(words: Seq<Seq<char>>, answers: Seq<Seq<char>>, k: nat) -> Seq<
    (usize, Seq<char>, Seq<char>),
>
    decreases k,
{
    if k == 0 {
        Seq::empty()
    } else {
        let i = (k - 1) as int;
        correction_entries(words, answers, (k - 1) as nat) + if answers[i] != words[i] {
            seq![(k as usize, answers[i], words[i])]
        } else {
            Seq::empty()
        }
    }
}

/// The number of positions among the first `k` whose answer equals its word.
pub open spec fn match_count(words: Seq<Seq<char>>, answers: Seq<Seq<char>>, k: nat) -> nat
    decreases k,
{
    if k == 0 {
        0
    } else {
        let i = (k - 1) as int;
        match_count(words, answers, (k - 1) as nat) + if answers[i] == words[i] {
            1nat
        } else {
            0nat
        }
    }
}

/// A dictation of a list of words: the words as given, the answer typed for each
/// (trimmed), and whether the last line typed at the edit prompt was refused.
pub struct DictationSession {
    words: Vec<String>,
    answers: Vec<String>,
    invalid_input: bool,
}

impl DictationSession {
    /// Every word has exactly one answer.
    pub closed spec fn wf(self) -> bool {
        self.words@.len() == self.answers@.len()
    }

    /// A well-formed session has one answer per word.
    pub proof fn lemma_wf_lengths(self)
        requires
            self.wf(),
        ensures
            self.answers().len() == self.words().len(),
            self.words().len() <= usize::MAX,
    {
        assert(self.words@.len() == self.words.len());
    }

    /// The words being dictated.
    pub closed spec fn words(self) -> Seq<Seq<char>> {
        views(self.words@)
    }

    /// The answers recorded so far, one per word.
    pub closed spec fn answers(self) -> Seq<Seq<char>> {
        views(self.answers@)
    }

    /// Whether the edit prompt has to say that the last line was invalid.
    pub closed spec fn invalid_input(self) -> bool {
        self.invalid_input
    }

    /// The corrections that the session's answers call for.
    pub open spec fn spec_corrections(self) -> Seq<(usize, Seq<char>, Seq<char>)> {
        correction_entries(self.words(), self.answers(), self.words().len())
    }

    /// A session over `words`, with an empty answer for each.
    pub fn new(words: Vec<String>) -> (r: Self)
        ensures
            r.words() == views(words@),
            r.answers().len() == words@.len(),
            forall|i: int| 0 <= i < words@.len() ==> (#[trigger] r.answers()[i]).len() == 0,
            !r.invalid_input(),
            r.wf(),
    {
        let mut answers: Vec<String> = Vec::new();
        let mut i: usize = 0;
        while i < words.len()
            invariant
                i <= words.len(),
                answers@.len() == i,
                forall|j: int| 0 <= j < i ==> (#[trigger] answers@[j])@.len() == 0,
            decreases words.len() - i,
        {
            answers.push(String::new());
            i = i + 1;
        }
        DictationSession { words, answers, invalid_input: false }
    }

    /// The number of words.
    pub fn word_count(&self) -> (r: usize)
        ensures
            r == self.words().len(),
    {
        self.words.len()
    }

    /// The word at position `i`, trimmed, as it is spoken.
    pub fn spoken_word(&self, i: usize) -> (r: String)
        requires
            self.wf(),
            i < self.words().len(),
        ensures
            r@ == trimmed(self.words()[i as int]),
    {
        trim(self.words[i].as_str())
    }

    /// The answer recorded at position `i`.
    pub fn answer(&self, i: usize) -> (r: String)
        requires
            self.wf(),
            i < self.words().len(),
        ensures
            r@ == self.answers()[i as int],
    {
        self.answers[i].clone()
    }

    /// Whether the answer at position `i` is the word itself.
    pub fn is_correct(&self, i: usize) -> (r: bool)
        requires
            self.wf(),
            i < self.words().len(),
        ensures
            r == (self.answers()[i as int] == self.words()[i as int]),
    {
        self.answers[i] == self.words[i]
    }

    /// Whether the edit prompt has to say that the last line was invalid.
    pub fn last_input_invalid(&self) -> (r: bool)
        ensures
            r == self.invalid_input(),
    {
        self.invalid_input
    }

    /// Records the line typed for the word at position `i`, trimmed.
    pub fn record_answer(&mut self, i: usize, line: &str)
        requires
            old(self).wf(),
            i < old(self).words().len(),
        ensures
            final(self).wf(),
            final(self).words() == old(self).words(),
            final(self).answers() == old(self).answers().update(i as int, trimmed(line@)),
            final(self).invalid_input() == old(self).invalid_input(),
    {
        let t = trim(line);
        self.answers.set(i, t);
        proof {
            assert(views(self.answers@) =~= views(old(self).answers@).update(i as int, trimmed(line@)));
        }
    }

    /// Reads a line typed at the edit prompt; a line that asks for nothing valid
    /// makes the next prompt say so.
    pub fn edit(&mut self, line: &str) -> (r: EditCommand)
        requires
            old(self).wf(),
        ensures
            final(self).wf(),
            r == edit_command_of(line@, old(self).words().len()),
            final(self).words() == old(self).words(),
            final(self).answers() == old(self).answers(),
            final(self).invalid_input() == (r == EditCommand::Invalid || old(self).invalid_input()),
    {
        let r = parse_edit_command(line, self.words.len());
        if r == EditCommand::Invalid {
            self.invalid_input = true;
        }
        r
    }

    /// Replaces the answer at position `i` with the line typed for it, trimmed;
    /// the next prompt is an ordinary one again.
    pub fn apply_change(&mut self, i: usize, line: &str)
        requires
            old(self).wf(),
            i < old(self).words().len(),
        ensures
            final(self).wf(),
            final(self).words() == old(self).words(),
            final(self).answers() == old(self).answers().update(i as int, trimmed(line@)),
            !final(self).invalid_input(),
    {
        self.record_answer(i, line);
        self.invalid_input = false;
    }

    /// The correction list: for each position whose answer differs from its
    /// word, in order, the 1-based position, the answer and the word.
    pub fn corrections(&self) -> (r: CorrectionList)
        requires
            self.wf(),
        ensures
            r@ == self.spec_corrections(),
    {
        let mut list: Vec<(usize, String, String)> = Vec::new();
        let n = self.words.len();
        let mut i: usize = 0;
        while i < n
            invariant
                n == self.words@.len() == self.answers@.len(),
                i <= n,
                list@.map_values(|e: (usize, String, String)| crate::word_list::entry_view(e))
                    == correction_entries(self.words(), self.answers(), i as nat),
            decreases n - i,
        {
            let ghost before = list@;
            if self.answers[i] != self.words[i] {
                list.push((i + 1, self.answers[i].clone(), self.words[i].clone()));
                proof {
                    assert(list@.map_values(
                        |e: (usize, String, String)| crate::word_list::entry_view(e),
                    ) =~= before.map_values(
                        |e: (usize, String, String)| crate::word_list::entry_view(e),
                    ) + seq![((i + 1) as usize, self.answers()[i as int], self.words()[i as int])]);
                }
            } else {
                proof {
                    assert(correction_entries(self.words(), self.answers(), (i + 1) as nat)
                        =~= correction_entries(self.words(), self.answers(), i as nat));
                }
            }
            i = i + 1;
        }
        CorrectionList { words_and_correction: list }
    }

    /// The number of answers that equal their word.
    pub fn correct_count(&self) -> (r: usize)
        requires
            self.wf(),
        ensures
            r == match_count(self.words(), self.answers(), self.words().len()),
    {
        let n = self.words.len();
        let mut count: usize = 0;
        let mut i: usize = 0;
        while i < n
            invariant
                n == self.words@.len() == self.answers@.len(),
                i <= n,
                count == match_count(self.words(), self.answers(), i as nat),
                count <= i,
            decreases n - i,
        {
            if self.answers[i] == self.words[i] {
                count = count + 1;
            }
            i = i + 1;
        }
        count
    }
}

/// Whether `e` is the correction entry for a wrong answer among the first `k`
/// positions: its number `n` is from 1 to `k`, it holds the answer and the word at
/// position `n - 1`, and they differ.
pub open spec fn is_correction_for(
    words: Seq<Seq<char>>,
    answers: Seq<Seq<char>>,
    k: nat,
    e: (usize, Seq<char>, Seq<char>),
) -> bool {
    &&& 1 <= e.0 <= k
    &&& e.1 == answers[e.0 - 1]
    &&& e.2 == words[e.0 - 1]
    &&& e.1 != e.2
}

/// The correction list of a dictation holds exactly one entry per wrong answer:
/// an entry is in it if and only if it numbers a position from 1, holds that
/// position's answer and word, and they differ; and the entries come in
/// increasing order of position.
pub proof fn lemma_corrections_exact(words: Seq<Seq<char>>, answers: Seq<Seq<char>>, k: nat)
    requires
        k <= usize::MAX,
        k <= words.len(),
        k <= answers.len(),
    ensures
        forall|e: (usize, Seq<char>, Seq<char>)|
            #[trigger] correction_entries(words, answers, k).contains(e) <==> is_correction_for(
                words,
                answers,
                k,
                e,
            ),
        forall|j1: int, j2: int|
            0 <= j1 < j2 < correction_entries(words, answers, k).len() ==> (#[trigger] correction_entries(
                words,
                answers,
                k,
            )[j1]).0 < (#[trigger] correction_entries(words, answers, k)[j2]).0,
    decreases k,
{
    if k > 0 {
        let k1 = (k - 1) as nat;
        lemma_corrections_exact(words, answers, k1);
        let prev = correction_entries(words, answers, k1);
        let cur = correction_entries(words, answers, k);
        let i = k1 as int;
        let tail = if answers[i] != words[i] {
            seq![(k as usize, answers[i], words[i])]
        } else {
            Seq::<(usize, Seq<char>, Seq<char>)>::empty()
        };
        assert(cur =~= prev + tail);
        assert forall|e: (usize, Seq<char>, Seq<char>)| #[trigger]
            cur.contains(e) <==> is_correction_for(words, answers, k, e) by {
            if cur.contains(e) {
                let j = choose|j: int| 0 <= j < cur.len() && cur[j] == e;
                if j < prev.len() {
                    assert(prev[j] == cur[j]);
                    assert(prev.contains(e));
                } else {
                    assert(tail[j - prev.len()] == e);
                }
            }
            if is_correction_for(words, answers, k, e) {
                if e.0 < k {
                    assert(is_correction_for(words, answers, k1, e));
                    assert(prev.contains(e));
                    let j = choose|j: int| 0 <= j < prev.len() && prev[j] == e;
                    assert(cur[j] == e);
                } else {
                    assert(e == (k as usize, answers[i], words[i]));
                    assert(cur[cur.len() - 1] == e);
                }
            }
        }
        assert forall|j1: int, j2: int| 0 <= j1 < j2 < cur.len() implies (#[trigger] cur[j1]).0 < (
        #[trigger] cur[j2]).0 by {
            assert(cur[j1] == prev[j1]);
            if j2 < prev.len() {
                assert(cur[j2] == prev[j2]);
            } else {
                assert(cur[j2] == tail[j2 - prev.len()]);
                assert(prev.contains(prev[j1]));
            }
        }
    }
}

/// Every answer is either right or has its entry in the correction list: the
/// number of right answers and the number of corrections add up to the number of
/// words.
pub proof fn lemma_corrections_and_matches(words: Seq<Seq<char>>, answers: Seq<Seq<char>>, k: nat)
    ensures
        correction_entries(words, answers, k).len() + match_count(words, answers, k) == k,
    decreases k,
{
    if k > 0 {
        lemma_corrections_and_matches(words, answers, (k - 1) as nat);
    }
}

/// The correction list is empty exactly when every answer equals its word.
pub proof fn lemma_no_corrections_iff_all_right(
    words: Seq<Seq<char>>,
    answers: Seq<Seq<char>>,
    k: nat,
)
    ensures
        correction_entries(words, answers, k).len() == 0 <==> forall|i: int|
            0 <= i < k ==> #[trigger] answers[i] == words[i],
    decreases k,
{
    if k > 0 {
        lemma_no_corrections_iff_all_right(words, answers, (k - 1) as nat);
        let i = (k - 1) as int;
        if correction_entries(words, answers, k).len() == 0 {
            assert(answers[i] == words[i]);
        }
    }
}

/// Changing the answer at position `i` leaves the corrections of every other
/// position as they were; and when the new answer is the word, position `i` has
/// no correction any more.
pub proof fn lemma_change_is_local(
    words: Seq<Seq<char>>,
    answers: Seq<Seq<char>>,
    i: int,
    new_answer: Seq<char>,
)
    requires
        words.len() == answers.len(),
        words.len() <= usize::MAX,
        0 <= i < words.len(),
    ensures
        forall|e: (usize, Seq<char>, Seq<char>)|
            e.0 != i + 1 ==> (#[trigger] correction_entries(
                words,
                answers.update(i, new_answer),
                words.len(),
            ).contains(e) <==> correction_entries(words, answers, words.len()).contains(e)),
        new_answer == words[i] ==> forall|e: (usize, Seq<char>, Seq<char>)|
            #[trigger] correction_entries(words, answers.update(i, new_answer), words.len()).contains(
                e,
            ) ==> e.0 != i + 1,
{
    let changed = answers.update(i, new_answer);
    lemma_corrections_exact(words, answers, words.len());
    lemma_corrections_exact(words, changed, words.len());
    assert forall|e: (usize, Seq<char>, Seq<char>)| e.0 != i + 1 implies (#[trigger] correction_entries(
        words,
        changed,
        words.len(),
    ).contains(e) <==> correction_entries(words, answers, words.len()).contains(e)) by {
        if 1 <= e.0 <= words.len() {
            assert(changed[e.0 - 1] == answers[e.0 - 1]);
        }
    }
}

impl DictationSession {
    /// In every session the right answers and the corrections add up to the
    /// number of words.
    pub proof fn lemma_accuracy(self)
        ensures
            self.spec_corrections().len() + match_count(self.words(), self.answers(), self.words().len())
                == self.words().len(),
    {
        lemma_corrections_and_matches(self.words(), self.answers(), self.words().len());
    }
}

/// An edit command only ever names a position of the dictation, and a blank line
/// or `q` always finishes the editing.
pub proof fn lemma_edit_command_in_range(line: Seq<char>, word_num: nat)
    ensures
        edit_command_of(line, word_num) matches EditCommand::Change(i) ==> i < word_num,
        trimmed(line).len() == 0 || trimmed(line) == seq!['q'] ==> edit_command_of(line, word_num)
            == EditCommand::Finish,
{
}

/// Every answer of a dictation can be named at the edit prompt: a line that
/// reads, once trimmed, as the decimal number `n` of a position from 1 to the
/// number of words asks to change the answer at position `n - 1`.
pub proof fn lemma_every_position_can_be_named(line: Seq<char>, n: nat, word_num: nat)
    requires
        1 <= n <= word_num,
        word_num <= usize::MAX,
        trimmed(line) == decimal_digits(n),
    ensures
        edit_command_of(line, word_num) == EditCommand::Change((n - 1) as usize),
{
    lemma_decimal_digits_parse(n);
    let t = trimmed(line);
    if t == seq!['q'] {
        assert(is_digit(t[0]));
    }
}

} // verus!
