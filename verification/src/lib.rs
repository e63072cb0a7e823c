//! The logic of an encrypted Git remote helper: what is stored, how it is
//! encrypted, who can unlock it, and how the helper answers Git.

#![allow(unused_imports)]

pub mod cli;
pub mod keys;
pub mod outside;
pub mod paths;
pub mod storage;
pub mod text;
pub mod types;
pub mod url;
pub mod workers;
