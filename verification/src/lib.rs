//! Engine: lexing, parsing, checking and code generation for the Engine
//! language, and decoding of its byte code.

pub mod constants;
pub mod text;
pub mod character;
pub mod tokens;
pub mod vm;
pub mod syntax_tree;
pub mod lexer;
pub mod source;
pub mod parser;
pub mod environments;
pub mod analyzer;
pub mod bytecode;
pub mod code_generator;
pub mod parsed_names;
pub mod evaluation;
pub mod programs;
