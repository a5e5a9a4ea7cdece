//! Executable specifications written as Markdown documents.
//!
//! A document holds `Background` and `Example` sections whose fenced code
//! blocks carry input and output fixtures. The library turns such a document
//! into tokens, extracts the sections, checks or rewrites the recorded
//! outputs, and writes the tokens back into Markdown text.

pub mod event;
pub mod md;
pub mod md_writer;
pub mod reader;
pub mod runner;
pub mod section;
pub mod text;

pub use runner::{process, rewrite, Error, Handler};
pub use section::{Background, Example};
