//! An encrypted-at-rest journal: a mapping from calendar dates to free-text
//! entries, protected by a single password and persisted as one document.

pub mod date;
pub mod db;
pub mod cli;
pub mod codec;
pub mod config;
pub mod encryptor;
pub mod entries;
pub mod text;
pub mod ui;
