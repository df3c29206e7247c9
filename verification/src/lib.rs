//! Verified core of a BitTorrent downloader: the metafile reader, the UDP
//! tracker messages, the peer wire codec and the state machines that drive a
//! download. All input and output is left to the caller, who hands in the
//! bytes that arrived and sends the bytes that the library gives.
//!
//! - `codec`: big-endian integers.
//! - `bencode`, `metainfo`, `torrent`: the metafile and what it says of a
//!   torrent; `bencode_laws` and `metainfo_laws` hold what is proved of them.
//! - `tracker_url`, `tracker`: finding UDP trackers and asking them for peers.
//! - `handshake`, `message`, `frame`: the peer wire protocol.
//! - `peer`, `piece`, `driver`: a session with a peer, the download of a
//!   piece and the download as a whole.
//! - `files`: where the content goes on disk.
//! - `error`, `text`, `report`, `hash`, `endpoint`: errors, their texts, the
//!   log lines of a torrent, SHA-1 and addresses.

pub mod bencode;
pub mod bencode_laws;
pub mod codec;
pub mod driver;
pub mod endpoint;
pub mod error;
pub mod files;
pub mod frame;
pub mod handshake;
pub mod hash;
pub mod message;
pub mod metainfo;
pub mod metainfo_laws;
pub mod peer;
pub mod piece;
pub mod report;
pub mod text;
pub mod torrent;
pub mod tracker;
pub mod tracker_url;
