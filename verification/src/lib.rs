//! Decoding of BitTorrent metadata files and tracker announce messages, with
//! a canonical encoder for the info dictionary and the info-hash built on it.

pub mod bencode;
pub mod decoding;
pub mod encoding;
pub mod encoding_laws;
pub mod error;
pub mod hash;
pub mod peer;
pub mod schema;
pub mod text;
pub mod torrent;
pub mod tracker;
pub mod skip_empty;
