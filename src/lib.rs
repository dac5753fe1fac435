//! Converts a TWRP data backup into the layout that Neo Backup restores:
//! which split volumes belong together, which archive entries are apps,
//! users and package data, how a package's data archive is relocated, and
//! where each package's files and properties record go.
pub mod assemble;
pub mod classify;
pub mod codec;
pub mod extract;
pub mod sorted;
pub mod text;
pub mod volume;
