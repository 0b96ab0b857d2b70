//! A small language for declaring HTTP requests in a text file, with the
//! pipeline that runs it: lexer, recursive-descent parser, variable resolver,
//! semantic checker, and the executor's request preparation. Every stage is
//! specified against a mathematical model of the language and verified; the
//! surrounding program does the file reading, the network calls, and the
//! rendering of results.

pub mod ast;
pub mod executor;
pub mod laws;
pub mod lexer;
pub mod parser;
pub mod resolver;
pub mod semantic;
pub mod token;
