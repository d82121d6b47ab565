pub mod chain;
pub mod errno;
pub mod extra;
pub mod fs;
pub mod hammer2;
pub mod icrc;
pub mod inode;
pub mod ioctl;
pub mod keys;
pub mod lz4;
pub mod ondisk;
pub mod option;
pub mod plan;
pub mod report;
pub mod sha;
pub mod subs;
pub mod text;
pub mod util;
pub mod volume;
pub mod xxhash;
pub mod xop;
pub mod zlib;

use vstd::prelude::*;

verus! {

/// Library version: major, minor, patch.
pub const VERSION: [i32; 3] = [0, 4, 0];

} // verus!
