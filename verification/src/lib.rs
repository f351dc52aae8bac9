//! Local progress-mail service: request validation, mail composition,
//! progress throttling and command-line option handling.

pub mod cli;
pub mod config;
pub mod mail;
pub mod protocol;
pub mod service;
pub mod text;
