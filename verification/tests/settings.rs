use robin_lib::settings::{default_tts_engine, default_tts_hotkey, default_tts_rate, Settings};

#[test]
fn test_default_settings() {
    let settings = Settings::default();
    assert_eq!(settings.microphone, "default");
    assert_eq!(settings.engine, "local");
    assert_eq!(settings.whisper_model, "small");
    assert_eq!(settings.groq_api_key, "");
    assert_eq!(settings.recording_mode, "toggle");
    assert_eq!(settings.hotkey, "CmdOrCtrl+Shift+Space");
    assert!(!settings.tts_enabled);
    assert_eq!(settings.tts_engine, "local");
    assert_eq!(settings.tts_hotkey, "CmdOrCtrl+Shift+R");
    assert_eq!(settings.tts_voice_local, "");
    assert_eq!(settings.tts_voice_cloud, "");
    assert_eq!(settings.tts_rate, 175);
}

#[test]
fn tts_voice_for_engine_picks_per_engine_field() {
    let mut settings = Settings::default();
    settings.tts_voice_local = "Microsoft David".to_string();
    settings.tts_voice_cloud = "diana".to_string();

    settings.tts_engine = "local".to_string();
    assert_eq!(settings.tts_voice_for_engine(), "Microsoft David");

    settings.tts_engine = "cloud".to_string();
    assert_eq!(settings.tts_voice_for_engine(), "diana");
}

#[test]
fn unknown_tts_engine_uses_local_voice() {
    let mut settings = Settings::default();
    settings.tts_voice_local = "local voice".to_string();
    settings.tts_voice_cloud = "troy".to_string();
    settings.tts_engine = "something else".to_string();
    assert_eq!(settings.tts_voice_for_engine(), "local voice");
}

#[test]
fn default_helpers_match_defaults() {
    assert_eq!(default_tts_engine(), "local");
    assert_eq!(default_tts_hotkey(), "CmdOrCtrl+Shift+R");
    assert_eq!(default_tts_rate(), 175);
    assert!(!Settings::default().onboarding_done);
}

#[test]
fn config_path_is_under_app_dir() {
    let p = Settings::config_path("/tmp/robin");
    assert_eq!(
        std::path::PathBuf::from(p),
        std::path::Path::new("/tmp/robin").join("config.json")
    );
}

#[test]
fn question_marks_inside_the_directory_are_joined_plainly() {
    let p = Settings::config_path("/tmp/what?now");
    assert_eq!(
        std::path::PathBuf::from(p),
        std::path::Path::new("/tmp/what?now").join("config.json")
    );
}
