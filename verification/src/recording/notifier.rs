//! What observers are told of a change of dictation state.
use vstd::prelude::*;

use super::state::RecordingState;

verus! {

/// Something told of each change of dictation state.
pub trait StateNotifier: Send + Sync {
    fn notify(&self, state: &RecordingState);
}

/// The CSS class of the overlay's microphone for `state`.
pub open spec fn mic_class_text(state: RecordingState) -> Seq<char> {
    match state {
        RecordingState::Ready => "mic"@,
        RecordingState::Recording => "mic recording"@,
        RecordingState::Transcribing => "mic transcribing"@,
    }
}

/// The tray tooltip for `state`.
pub open spec fn tooltip_text(state: RecordingState) -> Seq<char> {
    match state {
        RecordingState::Ready => "Typr"@,
        RecordingState::Recording => "Typr — Recording..."@,
        RecordingState::Transcribing => "Typr — Transcribing..."@,
    }
}

/// The CSS class of the overlay's microphone for `state`.
pub fn mic_class(state: RecordingState) -> (r: &'static str)
    ensures
        r@ == mic_class_text(state),
{
    match state {
        RecordingState::Ready => "mic",
        RecordingState::Recording => "mic recording",
        RecordingState::Transcribing => "mic transcribing",
    }
}

/// The script that shows `state` on the overlay's microphone.
pub fn overlay_script(state: RecordingState) -> (r: String)
    ensures
        r@ == "document.getElementById('mic').className = '"@ + mic_class_text(state) + "';"@,
{
    let mut js = String::from_str("document.getElementById('mic').className = '");
    js.append(mic_class(state));
    js.append("';");
    js
}

/// The tray tooltip for `state`.
pub fn tray_tooltip(state: RecordingState) -> (r: &'static str)
    ensures
        r@ == tooltip_text(state),
{
    match state {
        RecordingState::Ready => "Typr",
        RecordingState::Recording => "Typr — Recording...",
        RecordingState::Transcribing => "Typr — Transcribing...",
    }
}

} // verus!
