//! Core of a small desktop audio-file browser and player: a lazily built
//! directory-tree cache with a deterministic flattened walk, a delimited
//! per-track metadata store, and the playback-session state machine with its
//! end-of-track policies. All I/O, decoding and rendering live outside this
//! crate; the functions here compute over plain values and carry contracts.

pub mod assoc;
pub mod filetree;
pub mod metadata;
pub mod numtext;
pub mod search;
pub mod session;
pub mod strings;
