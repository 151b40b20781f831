//! A shell prompt generator's library: the format rules of its modules,
//! the parsing of the tools' outputs, and the decisions that drive them.
pub mod bench;
pub mod cli;
pub mod detector;
pub mod error;
pub mod modules;
pub mod numbers;
pub mod placeholders;
pub mod registry;
pub mod shell;
pub mod style;
pub mod text;
