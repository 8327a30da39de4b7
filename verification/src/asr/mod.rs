//! Speech recognition: cutting audio into utterances and queueing them for decoding.
pub mod audio;
pub mod decoder;
pub mod directory;
pub mod frontend;
pub mod models;
pub mod pipeline;
pub mod streams;
pub mod tick;
pub mod unknown;
