//! A content-addressable object store: files and directory trees are framed
//! into a canonical binary form, hashed, compressed, and later located by
//! hash prefix and decoded again.

pub mod errors;
pub mod fs_utils;
pub mod git_object;
pub mod hexcode;
pub mod hasher;
pub mod compressor;
pub mod scan;
pub mod text;

