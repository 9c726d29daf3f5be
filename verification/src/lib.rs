//! Verified core of a patcher that points an Android game package at a private
//! server: manifest string-pool patching, settings rewriting, endpoint formatting,
//! archive rewrite planning and tool selection.

pub mod text;
pub mod manifest;
pub mod config;
pub mod settings;
pub mod order;
pub mod archive;
pub mod android;
pub mod args;
pub mod signing;
