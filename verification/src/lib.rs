//! Core of the Kuroso music player: the playback queue, the in-memory
//! library database with its queries, and the decision logic of the audio
//! engine, the hardware negotiation and the library watcher.

pub mod types;
pub mod state;
pub mod queue;
pub mod index;
pub mod text;
pub mod paths;
pub mod database;
pub mod queries;
pub mod scanner;
pub mod hardware;
pub mod watcher;
pub mod decoder;
pub mod player;
