//! A read-only virtual filesystem over a remote release catalog: one
//! directory per release tag, one placeholder file per asset.

pub mod attr;
pub mod fs;
pub mod github;
pub mod laws;
pub mod tree;
