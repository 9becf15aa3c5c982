//! Shell completion for the `gws` command line.
//!
//! The command surface is driven by Discovery documents, so the generated shell
//! functions ask `gws __complete` for candidates at completion time instead of
//! embedding every Google API resource and method in a static script.
//!
//! - `shell`: the supported shells, their scripts, and `gws completion <shell>`.
//! - `request`: the arguments of `gws __complete` (words, current word, shell,
//!   and bash's splitting of words at `:` and `=`).
//! - `words`: the program name and current word taken off the words.
//! - `flags`: the global options, and how they are skipped before the command.
//! - `services`: the known services and how a service word resolves.
//! - `candidates`: the candidates of the built-in commands, and their filtering.
//! - `command`: a service's command tree, and the candidates along it.
//! - `complete`: the answer to a completion request, in one or two steps.
//! - `order`, `text`, `error`: ordering of texts, text helpers, the error type.
pub mod candidates;
pub mod command;
pub mod complete;
pub mod error;
pub mod flags;
pub mod order;
pub mod request;
pub mod services;
pub mod shell;
pub mod text;
pub mod words;
