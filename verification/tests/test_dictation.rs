use ouou_dictation::dictation::{parse_edit_command, DictationSession, EditCommand};

fn words(ws: &[&str]) -> Vec<String> {
    ws.iter().map(|w| w.to_string()).collect()
}

#[test]
fn edit_commands() {
    assert_eq!(parse_edit_command("\n", 3), EditCommand::Finish);
    assert_eq!(parse_edit_command("  q \n", 3), EditCommand::Finish);
    assert_eq!(parse_edit_command("1\n", 3), EditCommand::Change(0));
    assert_eq!(parse_edit_command(" 3 ", 3), EditCommand::Change(2));
    assert_eq!(parse_edit_command("4", 3), EditCommand::Invalid);
    assert_eq!(parse_edit_command("0", 3), EditCommand::Invalid);
    assert_eq!(parse_edit_command("Q", 3), EditCommand::Invalid);
    assert_eq!(parse_edit_command("two", 3), EditCommand::Invalid);
    assert_eq!(parse_edit_command("1", 0), EditCommand::Invalid);
}

#[test]
fn new_session_has_empty_answers() {
    let s = DictationSession::new(words(&["a", "b"]));
    assert_eq!(s.word_count(), 2);
    assert_eq!(s.answer(0), "");
    assert_eq!(s.answer(1), "");
    assert!(!s.last_input_invalid());
}

#[test]
fn answers_are_trimmed_and_compared_with_the_words() {
    let mut s = DictationSession::new(words(&["apple", "banana", " cherry"]));
    s.record_answer(0, " apple\n");
    s.record_answer(1, "banan\n");
    s.record_answer(2, "cherry\n");
    assert_eq!(s.answer(0), "apple");
    assert!(s.is_correct(0));
    assert!(!s.is_correct(1));
    // the word keeps its spaces, the answer does not
    assert!(!s.is_correct(2));
    let list = s.corrections();
    assert_eq!(
        list.words_and_correction,
        vec![
            (2, "banan".to_string(), "banana".to_string()),
            (3, "cherry".to_string(), " cherry".to_string()),
        ]
    );
    assert_eq!(s.correct_count(), 1);
    assert!(!list.is_empty());
}

#[test]
fn spoken_word_is_trimmed() {
    let s = DictationSession::new(words(&[" 学生 "]));
    assert_eq!(s.spoken_word(0), "学生");
}

#[test]
fn editing_fixes_an_answer() {
    let mut s = DictationSession::new(words(&["one", "two"]));
    s.record_answer(0, "one");
    s.record_answer(1, "too");
    assert_eq!(s.edit("x"), EditCommand::Invalid);
    assert!(s.last_input_invalid());
    let cmd = s.edit("2\n");
    assert_eq!(cmd, EditCommand::Change(1));
    assert!(s.last_input_invalid());
    s.apply_change(1, " two \n");
    assert!(!s.last_input_invalid());
    assert!(s.corrections().is_empty());
    assert_eq!(s.correct_count(), 2);
    assert_eq!(s.edit("q"), EditCommand::Finish);
}

#[test]
fn change_leaves_other_corrections() {
    let mut s = DictationSession::new(words(&["a", "b", "c"]));
    s.record_answer(0, "x");
    s.record_answer(1, "y");
    s.record_answer(2, "c");
    s.apply_change(0, "a");
    assert_eq!(
        s.corrections().words_and_correction,
        vec![(2, "y".to_string(), "b".to_string())]
    );
    assert_eq!(s.correct_count() + s.corrections().words_and_correction.len(), 3);
}

#[test]
fn unanswered_words_are_wrong() {
    let s = DictationSession::new(words(&["a", ""]));
    let list = s.corrections();
    assert_eq!(list.words_and_correction, vec![(1, String::new(), "a".to_string())]);
    assert_eq!(s.correct_count(), 1);
}
