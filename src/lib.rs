//! Verified core of a voice-message transcription assistant: the line codec and
//! in-memory model of the language-preference store, the decisions of the media
//! pipeline, the interpretation of transcoder and recognition-service results,
//! and the routing of inbound conversation events.

pub mod decimal;
pub mod dispatch;
pub mod media;
pub mod recognizer;
pub mod session;
pub mod settings;
pub mod storage;
pub mod text;
