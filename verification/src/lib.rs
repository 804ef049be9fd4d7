//! A POSIX-style input-line compiler: it turns one line of interactive text
//! into an ordered sequence of executable command descriptors.
//!
//! The pipeline runs strictly left to right: the tokenizer splits the raw
//! line while tracking quote state, the pipe splitter partitions the token
//! stream at unquoted `|` tokens, the quote handler classifies each token
//! and strips its delimiters, the expander resolves `$NAME` / `${NAME}`
//! references against an environment, and the command producer recognizes
//! redirection operators and builds a structured command descriptor.

pub mod chars;
pub mod command;
pub mod environment;
pub mod errors;
pub mod expander;
pub mod init;
pub mod input_processor;
pub mod laws;
pub mod producer;
pub mod runner;
pub mod quote_handler;
pub mod token;
pub mod tokenizer;
pub mod wc;

pub use command::Command;
pub use environment::Environment;
pub use errors::CliError;
pub use expander::Expander;
pub use input_processor::{CommandProducer, InputProcessor, InputProcessorBuilder};
pub use quote_handler::QuoteHandler;
pub use token::{Token, TokenMode};
pub use tokenizer::Tokenizer;
