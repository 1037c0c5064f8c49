//! The relay's own logic: one family's sealed log, what it tells an
//! operator about the families on disk, and how it serves the static app.
//! Sockets, files and clocks stay with the process that runs it.

pub mod admin;
pub mod assets;
pub mod connection;
pub mod log;
