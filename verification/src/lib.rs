//! Extraction of kernel images and kernel modules from RPM packages.

pub mod config;
pub mod decode;
pub mod extract;
pub mod failure;
pub mod layout;
pub mod manifest;
pub mod modules;
pub mod notices;
pub mod outcomes;
pub mod path;
pub mod process;
pub mod protocol;
pub mod report;
pub mod runs;
pub mod state;
pub mod text;
pub mod tree;
pub mod worklist;
