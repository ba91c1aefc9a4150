//! modeman: the verified core of a Linux-first game mod manager.

pub mod conflict;
pub mod deploy;
pub mod error;
pub mod fomod;
pub mod fomod_xml;
pub mod game;
pub mod json;
pub mod nexus;
pub mod nxm;
pub mod launchers;
pub mod loadorder;
pub mod manager;
pub mod paths;
pub mod platform;
pub mod plugins;
pub mod profile;
pub mod protocol;
pub mod redmod;
pub mod store;
pub mod text;
pub mod vfs;
pub mod xml;
pub mod vdf;

pub use error::Error;
