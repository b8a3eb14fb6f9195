//! A command shell core: a line parser that builds process pipelines, the
//! security policy that gates them, and the planning half of the executor.

pub mod error;
pub mod text;
pub mod parser;
pub mod config;
pub mod security;
pub mod validation;
pub mod executor;
pub mod screening;
pub mod builtins;
pub mod ui;
pub mod environment;
