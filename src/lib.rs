pub mod laws;
pub mod lexer;
pub mod parser;
pub mod token;

pub use lexer::{is_letter, Lexer};
pub use parser::{
    include_paths, may_follow_includes, parse_document, parse_priority, splice_includes, Parser, Statement, DEFAULT_PRIORITY,
    MAX_INCLUDE_DEPTH,
};
pub use token::{get_literal, keyword_token, lookup_indent, ParseError, Token};
