//! A read-mostly, single-file directory image: a bundle format that packs a
//! directory tree (regular files, directories, symlinks) into one seekable
//! byte stream, optionally encrypted with a stream cipher, and exposes a
//! filesystem-like read API over that stream without unpacking it.
//!
//! The crate holds the on-disk engine: the layout codec, the single-pass
//! writer, the lazy reader, byte-string path resolution with bounded
//! symlink expansion, and the transparent per-offset stream-cipher layer.
//! Host I/O (files, directory enumeration, command lines) stays outside;
//! callers hand the library byte stores and source trees as plain values.

pub mod codec;
pub mod crypt;
pub mod error;
pub mod extract;
pub mod fs;
pub mod image;
pub mod store;
pub mod write;

pub use codec::{CompressionType, EncryptionType, InodeType};
pub use error::Error;
pub use extract::extract_tree;
pub use fs::FS;
pub use image::open_file;
pub use store::ReadAt;
pub use write::{write_image, SourceNode};
