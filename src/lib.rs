pub mod bencode;
pub mod error;
pub mod metainfo;
pub mod listing;
pub mod access;
pub mod intake;
pub mod magnet;
pub mod torrent;
