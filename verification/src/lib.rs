//! Core logic of a push-to-talk dictation tool: application state and the
//! hotkey rules, the recording pipeline as a state machine, the model
//! catalogue and model cache, transcript clean-up, audio window planning,
//! and download progress bookkeeping.
pub mod audio;
pub mod commands;
pub mod state;
pub mod text;
pub mod transcriber;
