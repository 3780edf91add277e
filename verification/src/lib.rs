//! Umor: a Japanese-syntax, stack-based language.  The library holds the
//! lexer, the parser with its static scope check, and the tree-walking
//! interpreter, with the processing of whole source texts.

pub mod error;
pub mod interpreter;
pub mod parser;
pub mod runner;
pub mod text;
pub mod tokenizer;

pub use error::UmorError;
pub use interpreter::{
    BufferSink, ExecutionOutcome, Interpreter, ModuleReader, OutputSink, RuntimeError, RuntimeErrorReport,
    StdoutSink, Value,
};
pub use parser::{
    check_scopes, parse, parse_top_level_item, Definition, Expr, ParseError, Program, ScopeError,
    TopLevelItem,
};
pub use runner::{run_file_source, run_source};
pub use tokenizer::{tokenize, LexError, Token, TokenKind};
