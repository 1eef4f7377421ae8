//! A shell-independent alias catalog and its dialect translation layer:
//! detecting the active shell, parsing alias declarations out of existing
//! shell configuration, and generating safely escaped declaration files for
//! Bash, Zsh and Fish. Rendering and parsing share one escaping core, proved
//! inverse, so a generated file always parses back to the records it came
//! from.

pub mod alias;
pub mod command;
pub mod config;
pub mod detector;
pub mod error;
pub mod escape;
pub mod fish;
pub mod lines;
pub mod manager;
pub mod posix;
pub mod shell;
pub mod store;
pub mod text;
pub mod validator;
