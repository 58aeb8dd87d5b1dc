//! The file-operation layer of a graphical file manager: which names it
//! accepts, what it asks before it writes, what it records so that the work
//! can be taken back, and when it refuses instead of guessing.
//!
//! Nothing in this crate touches a disk. Every operation is written as the
//! decisions between two system calls: a caller performs what a step asks for
//! and hands back what it saw.

pub mod fs;
pub mod fsops;
pub mod index;
pub mod order;
pub mod path;
pub mod shown;
pub mod text;
