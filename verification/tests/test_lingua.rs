use ouou_dictation::dictation::Mode;
use ouou_dictation::language::Language;
use ouou_dictation::language::Language::{Chinese, English, Japanese};
use ouou_dictation::word_list::{prepare_word_list, WordList};

/// The language that preparing a one-word list without a language detects.
fn detect(text: &str) -> Option<Language> {
    let list = WordList {
        language: None,
        words: vec![text.to_string()],
    };
    let (language, words) = prepare_word_list(list, Mode::Speak, true);
    assert_eq!(words, vec![text.to_string()]);
    language
}

#[test]
fn test_chinese() {
    let chinese_text = ["你好", "我是XXX", "学生"];
    chinese_text.into_iter().for_each(|x| {
        let chinese_lang = detect(x);
        assert_eq!(chinese_lang, Some(Chinese));
    });
}

#[test]
fn test_japanese() {
    let japanese_text = ["こんにちは", "学生です", "ソフトウェア"];
    japanese_text.into_iter().for_each(|x| {
        let japanese_lang = detect(x);
        assert_eq!(japanese_lang, Some(Japanese));
    });
}

#[test]
fn known_misidentification_test() {
    // Both Chinese characters and kanji (Japanese characters based on Chinese
    // symbols, some of them not used in Chinese at all) are identified as Chinese.
    let japanese_text_misidentified_as_chinese = [
        "経済",
        "和製漢字",
        "雫",
        "労働",
        "峠",
        "勉強中",
        "自動販売機",
    ];
    japanese_text_misidentified_as_chinese
        .into_iter()
        .for_each(|x| {
            let japanese_lang = detect(x);
            println!("{x}:{japanese_lang:?}");
            assert_ne!(japanese_lang, Some(Japanese));
            assert_eq!(japanese_lang, Some(Chinese));
        });
}

#[test]
fn test_english() {
    let english_text = ["hello", "I am a student.", "Is Lingua good enough?"];
    english_text.into_iter().for_each(|x| {
        let english_lang = detect(x);
        assert_eq!(english_lang, Some(English));
    });
}

#[test]
fn detection_of_a_list_joins_its_words() {
    let list = WordList {
        language: None,
        words: vec!["I am".to_string(), "a student.".to_string()],
    };
    let (language, _) = prepare_word_list(list, Mode::Speak, true);
    assert_eq!(language, Some(English));
}

#[test]
fn given_language_is_kept() {
    let list = WordList {
        language: Some(Japanese),
        words: vec!["hello".to_string()],
    };
    let (language, words) = prepare_word_list(list, Mode::Dictation, true);
    assert_eq!(language, Some(Japanese));
    assert_eq!(words, vec!["hello".to_string()]);
}

#[test]
fn lists_without_letters_have_no_language() {
    let list = WordList {
        language: None,
        words: vec!["123".to_string(), "!?".to_string()],
    };
    let (language, _) = prepare_word_list(list, Mode::Speak, true);
    assert_eq!(language, None);
    let (language, _) = prepare_word_list(
        WordList {
            language: None,
            words: Vec::new(),
        },
        Mode::Speak,
        true,
    );
    assert_eq!(language, None);
}

#[test]
fn hiragana_lists_are_japanese() {
    let list = WordList {
        language: None,
        words: vec!["ありがとう".to_string(), "さようなら".to_string()],
    };
    let (language, _) = prepare_word_list(list, Mode::Speak, true);
    assert_eq!(language, Some(Japanese));
}

#[test]
fn han_lists_are_chinese() {
    let list = WordList {
        language: None,
        words: vec!["経済".to_string(), "学生".to_string(), "自動販売機".to_string()],
    };
    let (language, _) = prepare_word_list(list, Mode::Speak, true);
    assert_eq!(language, Some(Chinese));
}

#[test]
fn kana_lists_are_japanese() {
    for words in [vec!["ソフトウェア", "テスト"], vec!["学生です", "勉強"]] {
        let list = WordList {
            language: None,
            words: words.iter().map(|w| w.to_string()).collect(),
        };
        let (language, _) = prepare_word_list(list, Mode::Speak, true);
        assert_eq!(language, Some(Japanese), "words {words:?}");
    }
}

#[test]
fn ascii_lists_with_letters_are_english() {
    let list = WordList {
        language: None,
        words: vec!["apple".to_string(), "42".to_string()],
    };
    let (language, _) = prepare_word_list(list, Mode::Speak, true);
    assert_eq!(language, Some(English));
}
