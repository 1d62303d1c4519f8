//! A block-oriented file system kept on a simulated block device.
//!
//! The device is a linear array of fixed-size blocks. On top of it sit the
//! master block, the bitmap of allocated blocks, the inode table, a block
//! cache and the indirect-pointer tree that maps a file's logical block
//! offsets to device blocks.

pub mod args;
pub mod bits;
pub mod block_map;
pub mod block_number;
pub mod cache;
pub mod device;
pub mod display;
pub mod error;
pub mod expr;
pub mod fs;
pub mod inode;
pub mod master_block;
pub mod session;
pub mod text;
pub mod tree;
pub mod tree_laws;

pub use block_number::{BlockNumber, BlockOffset, Sequence, Step, MASTER_BLOCK_NUMBER};
pub use error::{Error, ErrorView, Failure, Result};
