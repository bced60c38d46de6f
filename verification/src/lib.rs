//! Verified core of the DSH desktop shell.
pub mod text;
pub mod logscan;
pub mod process;
pub mod downloader;
pub mod quarantine;
pub mod fspath;
pub mod installer;
pub mod updater;
pub mod file_preview;
pub mod aumid;
pub mod window;
pub mod commands;
pub mod json;
pub mod documents;
