//! Rendering of Markdown documents for display: diagram and chart fences are
//! lifted out into placeholders, code is highlighted with class-annotated
//! markup, and image references are resolved to locations that a host can
//! load.

pub mod commands;
pub mod markdown;
pub mod text;
