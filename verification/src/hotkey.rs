//! What the dictation hotkey and the toggle command do in each state.
use vstd::prelude::*;

use crate::recording::state::RecordingState;
use crate::text::same_text;

verus! {

/// The next step of a recording toggle.
#[derive(Debug, Clone, Copy, PartialEq, Eq, Structural)]
pub enum ToggleStep {
    /// Start recording from the configured microphone.
    StartRecording,
    /// Stop recording, transcribe, and record the result in the history.
    StopAndTranscribe,
}

/// What a press or release of the dictation hotkey asks for.
#[derive(Debug, Clone, Copy, PartialEq, Eq, Structural)]
pub enum HotkeyAction {
    /// Run a recording toggle.
    Toggle,
    /// Start recording (push-to-talk press).
    StartRecording,
    /// Stop recording and transcribe (push-to-talk release).
    StopAndTranscribe,
    /// Nothing to do.
    Ignore,
}

/// The message for a toggle while a transcription is under way.
pub open spec fn busy_transcribing_message() -> Seq<char> {
    "Currently transcribing, please wait"@
}

/// Core recording toggle decision shared by the command and the hotkey
/// handler: start when ready, stop and transcribe when recording, refuse while
/// transcribing.
pub fn toggle_step(state: RecordingState) -> (r: Result<ToggleStep, String>)
    ensures
        state == RecordingState::Ready ==> r == Ok::<ToggleStep, String>(ToggleStep::StartRecording),
        state == RecordingState::Recording ==> r == Ok::<ToggleStep, String>(
            ToggleStep::StopAndTranscribe,
        ),
        state == RecordingState::Transcribing ==> r is Err && r->Err_0@
            == busy_transcribing_message(),
{
    match state {
        RecordingState::Ready => Ok(ToggleStep::StartRecording),
        RecordingState::Recording => Ok(ToggleStep::StopAndTranscribe),
        RecordingState::Transcribing => Err(
            String::from_str("Currently transcribing, please wait"),
        ),
    }
}

/// What the dictation hotkey does, given the recording mode, whether the key
/// went down (`pressed`) or up, and the current state.
pub open spec fn hotkey_action_for(mode: Seq<char>, pressed: bool, state: RecordingState) -> HotkeyAction {
    if pressed && mode == "toggle"@ {
        HotkeyAction::Toggle
    } else if pressed && mode == "push-to-talk"@ && state == RecordingState::Ready {
        HotkeyAction::StartRecording
    } else if !pressed && mode == "push-to-talk"@ && state == RecordingState::Recording {
        HotkeyAction::StopAndTranscribe
    } else {
        HotkeyAction::Ignore
    }
}

/// In toggle mode a press toggles and a release does nothing; in
/// push-to-talk mode a press starts recording when ready and a release stops
/// it when recording; any other mode ignores the key.
pub fn hotkey_action(mode: &str, pressed: bool, state: RecordingState) -> (r: HotkeyAction)
    ensures
        r == hotkey_action_for(mode@, pressed, state),
        mode@ == "toggle"@ && pressed ==> r == HotkeyAction::Toggle,
        mode@ == "toggle"@ && !pressed ==> r == HotkeyAction::Ignore,
        mode@ == "push-to-talk"@ && pressed ==> r == (if state == RecordingState::Ready {
            HotkeyAction::StartRecording
        } else {
            HotkeyAction::Ignore
        }),
        mode@ == "push-to-talk"@ && !pressed ==> r == (if state == RecordingState::Recording {
            HotkeyAction::StopAndTranscribe
        } else {
            HotkeyAction::Ignore
        }),
{
    proof {
        lemma_hotkey_modes(state);
    }
    let toggle = same_text(mode, "toggle");
    let ptt = same_text(mode, "push-to-talk");
    if pressed && toggle {
        HotkeyAction::Toggle
    } else if pressed && ptt && state == RecordingState::Ready {
        HotkeyAction::StartRecording
    } else if !pressed && ptt && state == RecordingState::Recording {
        HotkeyAction::StopAndTranscribe
    } else {
        HotkeyAction::Ignore
    }
}

/// In toggle mode every press toggles, whatever the recording state, and a
/// release does nothing; in push-to-talk mode a press starts recording only
/// from Ready and a release stops it only while recording.
pub proof fn lemma_hotkey_modes(state: RecordingState)
    ensures
        hotkey_action_for("toggle"@, true, state) == HotkeyAction::Toggle,
        hotkey_action_for("toggle"@, false, state) == HotkeyAction::Ignore,
        hotkey_action_for("push-to-talk"@, true, state) == (if state == RecordingState::Ready {
            HotkeyAction::StartRecording
        } else {
            HotkeyAction::Ignore
        }),
        hotkey_action_for("push-to-talk"@, false, state) == (if state
            == RecordingState::Recording {
            HotkeyAction::StopAndTranscribe
        } else {
            HotkeyAction::Ignore
        }),
{
    reveal_strlit("toggle");
    reveal_strlit("push-to-talk");
    assert("toggle"@ != "push-to-talk"@) by {
        assert("toggle"@.len() != "push-to-talk"@.len());
    }
}

/// Accepts `hotkey` as the new dictation hotkey only when it differs from the
/// read-aloud hotkey `tts_hotkey`.
pub fn check_dictation_hotkey(hotkey: &str, tts_hotkey: &str) -> (r: Result<(), String>)
    ensures
        r is Ok <==> hotkey@ != tts_hotkey@,
        r matches Err(e) ==> e@ == "Dictation hotkey must be different from the TTS hotkey"@,
{
    if same_text(hotkey, tts_hotkey) {
        Err(String::from_str("Dictation hotkey must be different from the TTS hotkey"))
    } else {
        Ok(())
    }
}

} // verus!
