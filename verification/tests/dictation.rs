use robin_lib::hotkey::{check_dictation_hotkey, hotkey_action, toggle_step, HotkeyAction, ToggleStep};
use robin_lib::recording::notifier::{mic_class, overlay_script, tray_tooltip};
use robin_lib::recording::state::RecordingState;

#[test]
fn start_only_from_ready() {
    assert_eq!(RecordingState::Ready.start(), Ok(RecordingState::Recording));
    assert_eq!(
        RecordingState::Recording.start(),
        Err("Already recording or transcribing".to_string())
    );
    assert_eq!(
        RecordingState::Transcribing.start(),
        Err("Already recording or transcribing".to_string())
    );
}

#[test]
fn stop_only_while_recording() {
    assert_eq!(
        RecordingState::Recording.begin_transcription(),
        Ok(RecordingState::Transcribing)
    );
    assert_eq!(
        RecordingState::Ready.begin_transcription(),
        Err("Not currently recording".to_string())
    );
    assert_eq!(
        RecordingState::Transcribing.begin_transcription(),
        Err("Not currently recording".to_string())
    );
}

#[test]
fn a_full_round_returns_to_ready() {
    let s = RecordingState::Ready.start().unwrap();
    let s = s.begin_transcription().unwrap();
    assert_eq!(s.finish_transcription(), RecordingState::Ready);
}

#[test]
fn toggle_steps_follow_the_state() {
    assert_eq!(toggle_step(RecordingState::Ready), Ok(ToggleStep::StartRecording));
    assert_eq!(toggle_step(RecordingState::Recording), Ok(ToggleStep::StopAndTranscribe));
    assert_eq!(
        toggle_step(RecordingState::Transcribing),
        Err("Currently transcribing, please wait".to_string())
    );
}

#[test]
fn hotkey_actions_by_mode() {
    assert_eq!(hotkey_action("toggle", true, RecordingState::Recording), HotkeyAction::Toggle);
    assert_eq!(hotkey_action("toggle", false, RecordingState::Recording), HotkeyAction::Ignore);
    assert_eq!(
        hotkey_action("push-to-talk", true, RecordingState::Ready),
        HotkeyAction::StartRecording
    );
    assert_eq!(
        hotkey_action("push-to-talk", true, RecordingState::Recording),
        HotkeyAction::Ignore
    );
    assert_eq!(
        hotkey_action("push-to-talk", false, RecordingState::Recording),
        HotkeyAction::StopAndTranscribe
    );
    assert_eq!(
        hotkey_action("push-to-talk", false, RecordingState::Transcribing),
        HotkeyAction::Ignore
    );
    assert_eq!(hotkey_action("other", true, RecordingState::Ready), HotkeyAction::Ignore);
}

#[test]
fn dictation_hotkey_must_differ_from_tts_hotkey() {
    assert_eq!(
        check_dictation_hotkey("Ctrl+R", "Ctrl+R"),
        Err("Dictation hotkey must be different from the TTS hotkey".to_string())
    );
    assert_eq!(check_dictation_hotkey("Ctrl+D", "Ctrl+R"), Ok(()));
}

#[test]
fn observers_see_the_state() {
    assert_eq!(mic_class(RecordingState::Ready), "mic");
    assert_eq!(mic_class(RecordingState::Recording), "mic recording");
    assert_eq!(mic_class(RecordingState::Transcribing), "mic transcribing");
    assert_eq!(
        overlay_script(RecordingState::Recording),
        "document.getElementById('mic').className = 'mic recording';"
    );
    assert_eq!(tray_tooltip(RecordingState::Ready), "Typr");
    assert_eq!(tray_tooltip(RecordingState::Recording), "Typr — Recording...");
    assert_eq!(tray_tooltip(RecordingState::Transcribing), "Typr — Transcribing...");
}
