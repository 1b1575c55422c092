//! A leech-only BitTorrent client library: wire messages, handshakes, piece
//! bookkeeping, tracker URLs and torrent metadata, with their contracts.
mod bitfield_lemmas;

pub mod bitfield;
pub mod codec;
pub mod text;
pub mod outside_types;
pub mod message;
pub mod handshake;
mod digest;
pub mod piece_proggress;
pub mod peer;
pub mod torrent;
pub mod tracker;
pub mod peer_connection;
pub mod downloader;
