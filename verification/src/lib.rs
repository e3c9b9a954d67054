//! Formatting, caching and request logic of a command-line client for the
//! twitterapi.io service.
pub mod text;
pub mod timestamp;
pub mod model;
pub mod output;
pub mod cache;
pub mod error;
pub mod api;
pub mod cli;
pub mod config;
pub mod commands;
