//! The terminal interface's state: the file browser and the key handling
//! around it.

pub mod app;
pub mod file_browser;
