//! Keyboard layout switching for people who type in Russian and English.

pub mod classifier;
pub mod config;
pub mod context;
pub mod dictionaries;
pub mod mapper;
pub mod platform;
pub mod text;
pub mod unicode;
