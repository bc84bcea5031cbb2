//! A local note vault: notes as files in a folder tree, per-note attachment
//! folders, and a flat trash. This crate holds the vault's decisions (path
//! mapping, naming, filtering, ordering and the steps each command takes);
//! the caller performs the filesystem work.

pub mod assets;
pub mod error;
pub mod layout;
pub mod model;
pub mod plan;
pub mod resolver;
pub mod text;
pub mod trash;
pub mod tree;
