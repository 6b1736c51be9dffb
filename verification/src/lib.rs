//! The core of a small C/C++ build driver: configuration and dependency
//! manifest parsing, the incremental build oracle, compiler and linker
//! command lines, and the bookkeeping of the parallel compile scheduler.

pub mod builder;
pub mod cli;
pub mod config;
pub mod depfile;
pub mod discovery;
pub mod error;
pub mod oracle;
pub mod paths;
pub mod pipeline;
pub mod platform;
pub mod text;
pub mod tokenizer;
pub mod worker;
