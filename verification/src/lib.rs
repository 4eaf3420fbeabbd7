//! A BitTorrent client core: the bencode codec, the metadata model, the tracker
//! contract, the peer wire format, the piece engine and the download coordinator.

pub mod bencode;
pub mod codec;
pub mod decimal;
pub mod engine;
pub mod error;
pub mod hash;
pub mod laws;
pub mod lex;
pub mod metadata_laws;
pub mod packing;
pub mod peer;
pub mod session;
pub mod text;
pub mod torrent;
pub mod tracker;
pub mod worker;

pub use codec::decode_bencoded_value;
