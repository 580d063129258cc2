//! Cloud speech synthesis with Groq's Orpheus model: request shaping, text
//! chunking and repair of the streamed WAV header.
pub mod chunking;
pub mod request;
pub mod wav;
pub mod packing_laws;
pub mod word_laws;

pub use chunking::chunk_text;
pub use request::{
    prepare_speech_request, speech_error_message, speech_request_body, SpeechRequest,
    ORPHEUS_MAX_CHARS,
};
pub use wav::fix_streamed_wav_header;
