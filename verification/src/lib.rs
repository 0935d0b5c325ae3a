//! Verified core of the Sarvam speech-to-text desktop app.

pub mod commands;
pub mod db;
pub mod docx;
pub mod error;
pub mod hashing;
pub mod naming;
pub mod runner;
pub mod sarvam;
pub mod state;
pub mod text;
