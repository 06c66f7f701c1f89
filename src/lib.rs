//! Describe the layout of flash memory devices.
//!
//! A flash device is made of erase blocks, grouped into regions. Every region holds a number of
//! erase blocks of one size; regions of one device may differ in that size. A [`FlashLayout`]
//! checks an ordered table of [`Region`]s once, and then maps addresses and global erase block
//! numbers to [`EraseBlock`]s, and walks a [`Range`] of erase blocks across region boundaries.
//!
//! Some manufacturers call erase blocks `sectors`.
pub mod laws;
pub mod layout;
pub mod region;
pub mod table;

pub use layout::{EraseBlock, FlashLayout, InvalidLayout, Range};
pub use region::Region;
