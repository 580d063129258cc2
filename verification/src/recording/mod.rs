//! Dictation: its state machine and what its observers are shown.
pub mod notifier;
pub mod state;
