//! BitChord: a Chord ring over an 8-bit identifier space that tracks
//! torrent metadata, with the decisions of every protocol step verified.

pub mod ring;
pub mod store;
pub mod node;
pub mod message;
pub mod chord;
pub mod digest;
pub mod discovery;
pub mod torrent;
