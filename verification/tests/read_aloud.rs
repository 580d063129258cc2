use robin_lib::settings::Settings;
use robin_lib::tts::{
    check_tts_hotkey, cloud_voices, find_voice, has_text_to_read, local_voices, plan_speech,
    toggle_speak_step, SpeakToggle, SpeechPlan, TtsEngine,
};

#[test]
fn engine_follows_settings() {
    let mut s = Settings::default();
    assert!(matches!(TtsEngine::from_settings(&s), TtsEngine::Local));
    s.tts_engine = "cloud".to_string();
    assert!(matches!(TtsEngine::from_settings(&s), TtsEngine::Cloud));
    s.tts_engine = "other".to_string();
    assert!(matches!(TtsEngine::from_settings(&s), TtsEngine::Local));
}

#[test]
fn cloud_voices_are_the_orpheus_ones() {
    let voices = cloud_voices();
    let ids: Vec<&str> = voices.iter().map(|v| v.id.as_str()).collect();
    assert_eq!(ids, vec!["autumn", "diana", "hannah", "austin", "daniel", "troy"]);
    assert_eq!(voices[1].name, "Diana");
    assert!(voices.iter().all(|v| v.engine == "cloud"));
}

#[test]
fn local_plan_speaks_whole_text() {
    let mut s = Settings::default();
    s.tts_voice_local = "David".to_string();
    s.tts_rate = 200;
    match plan_speech(&s, "Hello there.".to_string()) {
        SpeechPlan::Local { text, voice, rate } => {
            assert_eq!(text, "Hello there.");
            assert_eq!(voice, "David");
            assert_eq!(rate, 200);
        }
        SpeechPlan::Cloud { .. } => panic!("expected local plan"),
    }
}

#[test]
fn cloud_plan_chunks_for_orpheus() {
    let mut s = Settings::default();
    s.tts_engine = "cloud".to_string();
    s.tts_voice_cloud = "troy".to_string();
    s.groq_api_key = "key".to_string();
    let text = "word ".repeat(100);
    match plan_speech(&s, text) {
        SpeechPlan::Cloud { chunks, api_key, voice, rate } => {
            assert!(chunks.len() > 1);
            assert!(chunks.iter().all(|c| c.chars().count() <= 200));
            assert_eq!(api_key, "key");
            assert_eq!(voice, "troy");
            assert_eq!(rate, 175);
        }
        SpeechPlan::Local { .. } => panic!("expected cloud plan"),
    }
}

#[test]
fn speak_toggle_decisions() {
    assert_eq!(toggle_speak_step(true, false), SpeakToggle::Stop);
    assert_eq!(toggle_speak_step(true, true), SpeakToggle::Stop);
    assert_eq!(toggle_speak_step(false, false), SpeakToggle::Ignore);
    assert_eq!(toggle_speak_step(false, true), SpeakToggle::ReadSelection);
    assert!(!has_text_to_read(" \n\t "));
    assert!(has_text_to_read(" x "));
}

#[test]
fn tts_hotkey_must_differ_from_dictation_hotkey() {
    assert_eq!(
        check_tts_hotkey("A", "A"),
        Err("TTS hotkey must be different from the dictation hotkey".to_string())
    );
    assert_eq!(check_tts_hotkey("B", "A"), Ok(()));
}

#[test]
fn requested_voice_is_found_by_id() {
    let ids = vec!["en-a".to_string(), "en-b".to_string(), "en-b".to_string()];
    assert_eq!(find_voice(&ids, "en-b"), Some(1));
    assert_eq!(find_voice(&ids, "en-a"), Some(0));
    assert_eq!(find_voice(&ids, "fr"), None);
    assert_eq!(find_voice(&ids, ""), None);
    assert_eq!(find_voice(&Vec::new(), "en-a"), None);
}

#[test]
fn local_voices_are_listed_in_order() {
    let pairs = vec![
        ("id1".to_string(), "One".to_string()),
        ("id2".to_string(), "Two".to_string()),
    ];
    let v = local_voices(&pairs);
    assert_eq!(v.len(), 2);
    assert_eq!((v[0].id.as_str(), v[0].name.as_str(), v[0].engine.as_str()), ("id1", "One", "local"));
    assert_eq!((v[1].id.as_str(), v[1].name.as_str(), v[1].engine.as_str()), ("id2", "Two", "local"));
    assert!(local_voices(&Vec::new()).is_empty());
}
