//! A small templating/markup language's front half: text preprocessing,
//! the rule-by-rule tree builder that turns a concrete parse tree into an
//! abstract syntax tree, operator-precedence resolution of expressions,
//! and the template-tag structural parser, together with the AST model
//! they produce.
//!
//! The tokenizer itself is an external collaborator: a grammar engine
//! that, for normalized text, hands back either a concrete parse tree of
//! (rule tag, span, children) nodes — [`cst::CstNode`] — or a syntax
//! error.  A parse runs as: caller text, normalized by
//! [`parser::ParserConfig::normalize`]; the caller's grammar engine; and
//! the engine's outcome handed to [`parser::ParserConfig::parse`], which
//! either translates the whole tree or reports one structured error.

pub mod ast;
pub mod climb;
pub mod cst;
pub mod errors;
pub mod laws;
pub mod parser;
pub mod preprocess;
pub mod range;
pub mod util;

pub use ast::{ASTKind, AST, Template, TemplateKind};
pub use cst::{CstNode, RuleTag};
pub use errors::ParseError;
pub use parser::ParserConfig;
pub use range::{box_range, TextRange};
