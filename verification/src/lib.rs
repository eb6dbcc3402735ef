//! Compiled closed captions: the binary container that stores localized
//! caption text in fixed-size blocks, indexed by a checksum of each key.
//!
//! A container is a 24-byte header, a directory of 12-byte entries padded
//! with zeros to a 512-byte boundary, and a payload of equally sized blocks.
//! Each caption is stored as null-terminated UTF-16LE text inside one block,
//! so that one read of at most a block fetches it.
//!
//! - [`wire`], [`header`] and [`entry`] define the two fixed-size records
//!   and how they are stored, byte by byte.
//! - [`text`] and [`keys`] define how a caption's text is stored and how
//!   its key becomes a checksum.
//! - [`packer`] places captions in blocks; [`container`] lays out the
//!   container around them.
//! - [`source`] finds the captions in a key/value document; [`compile`]
//!   goes from source bytes to a container.
//! - [`reader`] reads a container back.
//! - [`round_trip`] proves that what is read back is what was compiled.

pub mod error;
pub mod wire;
pub mod header;
pub mod entry;
pub mod text;
pub mod keys;
pub mod packer;
pub mod container;
pub mod source;
pub mod compile;
pub mod reader;
pub mod round_trip;
