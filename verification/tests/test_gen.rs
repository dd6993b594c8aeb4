use ouou_dictation::word_list::entered_word;
use ouou_dictation::dictation::Mode;
use ouou_dictation::gen::{judge_answer, render_wrong_list, WrongList};
use ouou_dictation::word_list::{prepare_word_list, CorrectionList, WordList};

#[test]
fn judging_answers() {
    assert_eq!(judge_answer(" apple ", "apple\n"), None);
    assert_eq!(judge_answer("apple", "aple\n"), Some("aple -> apple".to_string()));
    assert_eq!(judge_answer(" 学生", ""), Some(" -> 学生".to_string()));
}

#[test]
fn wrong_list_counts() {
    let mut w = WrongList::new();
    assert!(!w.record("one", "one\n"));
    assert!(w.record("two", "tow\n"));
    assert!(!w.record("three", " three"));
    assert_eq!(w.count_judged(), 3);
    assert_eq!(w.correct_count(), 2);
    assert_eq!(w.into_lines(), vec!["tow -> two".to_string()]);
}

#[test]
fn rendering_the_wrong_list() {
    let lines = vec!["a -> b".to_string(), "c -> d".to_string()];
    assert_eq!(render_wrong_list(&lines), "a -> b\nc -> d\n");
    assert_eq!(render_wrong_list(&Vec::new()), "");
}

#[test]
fn correction_list_emptiness() {
    let empty = CorrectionList { words_and_correction: Vec::new() };
    assert!(empty.is_empty());
    let one = CorrectionList {
        words_and_correction: vec![(1, "a".to_string(), "b".to_string())],
    };
    assert!(!one.is_empty());
}

#[test]
fn shuffling_keeps_the_words() {
    let words: Vec<String> = (0..30).map(|i| format!("w{i}")).collect();
    let list = WordList {
        language: Some(ouou_dictation::language::Language::English),
        words: words.clone(),
    };
    let (_, shuffled) = prepare_word_list(list, Mode::Dictation, false);
    assert_ne!(shuffled, words);
    let mut sorted = shuffled.clone();
    sorted.sort();
    let mut expected = words.clone();
    expected.sort();
    assert_eq!(sorted, expected);
}

#[test]
fn no_shuffle_outside_dictation_or_when_switched_off() {
    let words: Vec<String> = (0..30).map(|i| format!("w{i}")).collect();
    for (mode, dont) in [(Mode::Speak, false), (Mode::BuildList, false), (Mode::Dictation, true)] {
        let list = WordList {
            language: Some(ouou_dictation::language::Language::English),
            words: words.clone(),
        };
        let (_, kept) = prepare_word_list(list, mode, dont);
        assert_eq!(kept, words);
    }
}

#[test]
fn entering_words() {
    assert_eq!(entered_word("  apple \n"), Some("apple".to_string()));
    assert_eq!(entered_word("\n"), None);
    assert_eq!(entered_word(""), None);
}
