//! Organizing backups of multitrack tape recordings into songs.

pub mod audio;
pub mod editor;
pub mod export;
pub mod flac;
pub mod formats;
pub mod laws;
pub mod message;
pub mod mix;
pub mod natural;
pub mod path;
pub mod player;
pub mod project;
pub mod session_laws;
pub mod single;
pub mod song_laws;
pub mod songs;
pub mod state;
pub mod text;
pub mod time;
pub mod view;
pub mod wav;
pub mod waveform;
