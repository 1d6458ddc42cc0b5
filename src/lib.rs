//! Core of a small interactive shell: line tokenizing, builtin dispatch,
//! pipeline wiring decisions, directory navigation and bounded history.
pub mod text;
pub mod tokenize;
pub mod history;
pub mod builtins;
pub mod navigate;
pub mod executor;
pub mod expand;
pub mod prompt;
