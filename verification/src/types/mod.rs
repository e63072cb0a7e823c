//! What a repository is made of.

pub mod githash;
pub mod gitref;
pub mod manifest;
pub mod packfilerecord;
