//! Playlist track-metadata library.
//!
//! Decomposes track filenames into structured metadata (track type, sequence
//! index, descriptive title, extension), builds track records from paths and
//! playlist URIs, and aggregates an ordered playlist with duration tallying
//! and index-width computation for bulk file naming.

pub mod chars;
pub mod decode;
pub mod duration;
pub mod extension;
pub mod name_info;
pub mod playlist;
pub mod track;
pub mod track_type;
