use ouou_dictation::gen::first_fitting_voice;
use ouou_dictation::speaker::select_proper_voices;
use ouou_dictation::dictation::Gender as VoiceGender;
use ouou_dictation::gen::{find_voice, Gender, VoiceSearch};
use ouou_dictation::language::Language;
use ouou_dictation::speaker::{proper_voices, voice_choice, SpeakerError, VoiceInfo, VoicePicker};

fn voice(name: &str, gender: Option<VoiceGender>, tag: &str) -> VoiceInfo {
    VoiceInfo {
        name: name.to_string(),
        gender,
        language: tag.to_string(),
    }
}

fn sample() -> Vec<VoiceInfo> {
    vec![
        voice("Zira", Some(VoiceGender::Female), "en-US"),
        voice("Huihui", Some(VoiceGender::Female), "zh-CN"),
        voice("David", Some(VoiceGender::Male), "en-GB"),
        voice("Haruka", Some(VoiceGender::Female), "ja-JP"),
    ]
}

#[test]
fn proper_voices_by_primary_language() {
    assert_eq!(proper_voices(&sample(), Language::English), Ok(vec![0, 2]));
    assert_eq!(proper_voices(&sample(), Language::Chinese), Ok(vec![1]));
    assert_eq!(proper_voices(&sample(), Language::Japanese), Ok(vec![3]));
}

#[test]
fn proper_voices_errors() {
    let only_en = vec![voice("Zira", None, "en-US")];
    assert_eq!(
        proper_voices(&only_en, Language::Japanese),
        Err(SpeakerError::NoProperVoice)
    );
    assert_eq!(
        proper_voices(&Vec::new(), Language::English),
        Err(SpeakerError::NoProperVoice)
    );
    let bad = vec![voice("A", None, "en"), voice("B", None, "12-!!")];
    assert_eq!(
        proper_voices(&bad, Language::English),
        Err(SpeakerError::InvalidLanguageTag)
    );
}

#[test]
fn choosing_a_voice() {
    assert_eq!(voice_choice("\n", 2), Some(0));
    assert_eq!(voice_choice(" 2\n", 2), Some(1));
    assert_eq!(voice_choice("3", 2), None);
    assert_eq!(voice_choice("0", 2), None);
    assert_eq!(voice_choice("x", 2), None);
    assert_eq!(voice_choice("", 0), None);
}

#[test]
fn picker_remembers_a_refused_line() {
    let mut p = VoicePicker::new(3);
    assert_eq!(p.voice_count(), 3);
    assert!(!p.last_input_invalid());
    assert_eq!(p.pick("7"), None);
    assert!(p.last_input_invalid());
    assert_eq!(p.pick("2"), Some(1));
}

#[test]
fn find_voice_by_gender_and_language() {
    let v = sample();
    assert_eq!(find_voice(&v, Gender::Male, Language::English), VoiceSearch::Found(2));
    assert_eq!(find_voice(&v, Gender::Female, Language::English), VoiceSearch::Found(0));
    assert_eq!(find_voice(&v, Gender::Female, Language::Japanese), VoiceSearch::Found(3));
    assert_eq!(find_voice(&v, Gender::Male, Language::Chinese), VoiceSearch::NoneFits);
}

#[test]
fn find_voice_stops_at_problems() {
    let v = vec![
        voice("A", Some(VoiceGender::Male), "??"),
        voice("B", None, "en"),
        voice("C", Some(VoiceGender::Female), "en"),
    ];
    // the male voice's tag is never parsed when a female voice is sought,
    // but the search reaches the voice without a gender
    assert_eq!(find_voice(&v, Gender::Female, Language::English), VoiceSearch::MissingGender(1));
    assert_eq!(find_voice(&v, Gender::Male, Language::English), VoiceSearch::InvalidLanguageTag);
}

#[test]
fn gender_conversion() {
    assert_eq!(VoiceGender::from(Gender::Male), VoiceGender::Male);
    assert_eq!(VoiceGender::from(Gender::Female), VoiceGender::Female);
}

#[test]
fn iso_codes() {
    assert_eq!(Language::English.iso_code_639_1(), "en");
    assert_eq!(Language::Japanese.iso_code_639_1(), "ja");
    assert_eq!(Language::Chinese.iso_code_639_1(), "zh");
}

#[test]
fn voice_tags_keep_their_case() {
    let upper = vec![voice("Upper", None, "EN-US"), voice("Lower", None, "en-us")];
    assert_eq!(proper_voices(&upper, Language::English), Ok(vec![1]));
    let only_upper = vec![voice("Upper", None, "EN-US")];
    assert_eq!(
        proper_voices(&only_upper, Language::English),
        Err(SpeakerError::NoProperVoice)
    );
}

#[test]
fn selecting_from_given_subtags() {
    let ps = vec![Some("zh".to_string()), Some("en".to_string()), Some("zh".to_string())];
    assert_eq!(select_proper_voices(&ps, &Some("zh".to_string())), Ok(vec![0, 2]));
    assert_eq!(
        select_proper_voices(&ps, &Some("ja".to_string())),
        Err(SpeakerError::NoProperVoice)
    );
    assert_eq!(
        select_proper_voices(&ps, &None),
        Err(SpeakerError::InvalidLanguageTag)
    );
    let with_bad = vec![Some("zh".to_string()), None];
    assert_eq!(
        select_proper_voices(&with_bad, &Some("zh".to_string())),
        Err(SpeakerError::InvalidLanguageTag)
    );
    assert_eq!(select_proper_voices(&Vec::new(), &None), Err(SpeakerError::NoProperVoice));
}

#[test]
fn chinese_region_tag_fits_chinese() {
    let v = vec![voice("Huihui", Some(VoiceGender::Female), "zh-CN")];
    assert_eq!(proper_voices(&v, Language::Chinese), Ok(vec![0]));
}

#[test]
fn first_fitting_voice_from_given_subtags() {
    let genders = vec![Some(VoiceGender::Male), Some(VoiceGender::Female), None];
    let ps = vec![Some("en".to_string()), Some("en".to_string()), Some("en".to_string())];
    let en = Some("en".to_string());
    assert_eq!(first_fitting_voice(&genders, &ps, Gender::Female, &en), VoiceSearch::Found(1));
    assert_eq!(first_fitting_voice(&genders, &ps, Gender::Male, &en), VoiceSearch::Found(0));
    assert_eq!(
        first_fitting_voice(&genders, &ps, Gender::Female, &Some("ja".to_string())),
        VoiceSearch::MissingGender(2)
    );
    assert_eq!(first_fitting_voice(&genders, &ps, Gender::Male, &None), VoiceSearch::InvalidLanguageTag);
    assert_eq!(
        first_fitting_voice(&genders[..2].to_vec(), &ps[..2].to_vec(), Gender::Male, &Some("ja".to_string())),
        VoiceSearch::NoneFits
    );
}
