//! The dictation state machine: ready, recording, transcribing.
use vstd::prelude::*;

verus! {

/// Where dictation stands.
#[derive(Debug, Clone, Copy, PartialEq, Eq, Structural)]
pub enum RecordingState {
    Ready,
    Recording,
    Transcribing,
}

/// The message for a start refused because dictation is not ready.
pub open spec fn already_busy_message() -> Seq<char> {
    "Already recording or transcribing"@
}

/// The message for a stop refused because nothing is being recorded.
pub open spec fn not_recording_message() -> Seq<char> {
    "Not currently recording"@
}

/// The state after a start request: recording from ready, refused otherwise.
pub open spec fn after_start(s: RecordingState) -> Option<RecordingState> {
    if s == RecordingState::Ready {
        Some(RecordingState::Recording)
    } else {
        None
    }
}

/// The state after a stop request: transcribing from recording, refused
/// otherwise.
pub open spec fn after_stop(s: RecordingState) -> Option<RecordingState> {
    if s == RecordingState::Recording {
        Some(RecordingState::Transcribing)
    } else {
        None
    }
}

impl RecordingState {
    /// Starts recording: allowed only when ready.
    pub fn start(self) -> (r: Result<RecordingState, String>)
        ensures
            after_start(self) matches Some(next) ==> r == Ok::<RecordingState, String>(next),
            after_start(self) is None ==> r is Err && r->Err_0@ == already_busy_message(),
    {
        match self {
            RecordingState::Ready => Ok(RecordingState::Recording),
            _ => Err(String::from_str("Already recording or transcribing")),
        }
    }

    /// Stops recording and enters transcription: allowed only while recording.
    pub fn begin_transcription(self) -> (r: Result<RecordingState, String>)
        ensures
            after_stop(self) matches Some(next) ==> r == Ok::<RecordingState, String>(next),
            after_stop(self) is None ==> r is Err && r->Err_0@ == not_recording_message(),
    {
        match self {
            RecordingState::Recording => Ok(RecordingState::Transcribing),
            _ => Err(String::from_str("Not currently recording")),
        }
    }

    /// The state once transcription ends, however it ends: ready again.
    pub fn finish_transcription(self) -> (r: RecordingState)
        ensures
            r == RecordingState::Ready,
    {
        RecordingState::Ready
    }
}

/// A dictation round returns to ready: start from ready records, stop from
/// recording transcribes, and the end of transcription is ready again; no
/// state both admits a start and a stop, and a transcribing state admits
/// neither.
pub proof fn lemma_dictation_cycle(s: RecordingState)
    ensures
        after_start(RecordingState::Ready) == Some(RecordingState::Recording),
        after_stop(RecordingState::Recording) == Some(RecordingState::Transcribing),
        !(after_start(s) is Some && after_stop(s) is Some),
        after_start(RecordingState::Transcribing) is None,
        after_stop(RecordingState::Transcribing) is None,
        after_start(s) matches Some(t) ==> after_stop(t) is Some,
{
}

} // verus!
