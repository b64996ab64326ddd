//! Verified core of a small YouTube downloader front end: URL handling,
//! file-name sanitising, quality selection, download planning, progress
//! messages and the state of the desktop window.

pub mod text;
pub mod url;
pub mod naming;
pub mod quality;
pub mod plan;
pub mod messages;
pub mod window;
pub mod cli;
