//! Verified core of the Robin dictation and read-aloud desktop app.
pub mod audio;
pub mod engine;
pub mod history;
pub mod markitdown;
pub mod hotkey;
pub mod paths;
pub mod recording;
pub mod settings;
pub mod single_instance;
pub mod text;
pub mod transcribe_local;
pub mod tts;
pub mod tts_groq;
