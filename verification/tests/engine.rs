use std::path::PathBuf;

use robin_lib::engine::Engine;
use robin_lib::settings::Settings;

fn make_settings(engine: &str) -> Settings {
    Settings {
        engine: engine.to_string(),
        whisper_model: "small".to_string(),
        groq_api_key: "key".to_string(),
        ..Settings::default()
    }
}

#[test]
fn local_engine_selected_for_local_setting() {
    let e = Engine::from_settings(&make_settings("local"), "/tmp");
    assert!(matches!(e, Engine::Local { .. }));
}

#[test]
fn cloud_engine_selected_for_cloud_setting() {
    let e = Engine::from_settings(&make_settings("cloud"), "/tmp");
    assert!(matches!(e, Engine::Cloud { .. }));
}

#[test]
fn unknown_engine_falls_back_to_local() {
    let e = Engine::from_settings(&make_settings("unknown"), "/tmp");
    assert!(matches!(e, Engine::Local { .. }));
}

#[test]
fn local_engine_uses_correct_model_path() {
    let settings = make_settings("local");
    let app_dir = "/tmp/typr";
    let e = Engine::from_settings(&settings, app_dir);
    if let Engine::Local { model_path } = e {
        assert_eq!(PathBuf::from(model_path), PathBuf::from("/tmp/typr/ggml-small.bin"));
    } else {
        panic!("expected Local engine");
    }
}

#[test]
fn cloud_engine_carries_the_api_key() {
    let e = Engine::from_settings(&make_settings("cloud"), "/tmp");
    match e {
        Engine::Cloud { api_key } => assert_eq!(api_key, "key"),
        Engine::Local { .. } => panic!("expected Cloud engine"),
    }
}

#[test]
fn engine_name_is_matched_exactly() {
    let e = Engine::from_settings(&make_settings("Cloud"), "/tmp");
    assert!(matches!(e, Engine::Local { .. }));
}
