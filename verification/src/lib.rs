//! A small library for rendering colorized `name: value` terminal lines.
//!
//! The crate has three parts: a terminal color model ([`color::Color`])
//! that parses, serializes and renders colors to ANSI escape sequences;
//! a layered configuration-resolution engine ([`config::Config`]) that
//! merges a default styling record, group assignments and per-property
//! overrides into fully resolved styling records; and a property renderer
//! ([`properties::Property`]) that binds a `name`/`value` pair to its
//! resolved styling and renders one line.

pub mod color;
pub mod config;
pub mod properties;
