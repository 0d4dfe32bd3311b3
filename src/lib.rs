//! Front end of a small function-oriented language: a lexer that turns source
//! text into classified tokens, and a backtracking recursive-descent parser
//! that turns those tokens into a syntax tree.
pub mod ast;
pub mod grammar;
pub mod lexer;
pub mod parser;
pub mod token;

pub use ast::{Ast, Node};
pub use lexer::{lex, lex_bytes};
pub use parser::{
    ErrorKind, ParseError, ParseResult, Rule, arguments, boolean, comment, expression,
    function_call, function_define, function_return, identifier, match_token, math_expression,
    number, parse, program, statement, string, value, variable_define,
};
pub use token::{Token, TokenKind};
