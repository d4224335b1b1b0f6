//! Bits of a manifest file entry's `flags` field.

use vstd::prelude::*;

verus! {

pub const USER_CONFIG: u32 = 1;
pub const VERSIONED_USER_CONFIG: u32 = 2;
pub const ENCRYPTED: u32 = 4;
pub const READ_ONLY: u32 = 8;
pub const HIDDEN: u32 = 16;
pub const EXECUTABLE: u32 = 32;
pub const DIRECTORY: u32 = 64;
pub const CUSTOM_EXECUTABLE: u32 = 128;
pub const INSTALL_SCRIPT: u32 = 256;
pub const SYMLINK: u32 = 512;

} // verus!
