//! Static call-dependency graphs over source files, with verified
//! construction, traversal and query operations.
//!
//! Source text is parsed with tree-sitter (`parse`) into a `SyntaxTree`;
//! the per-language translators walk it (`extract`, `walker`) into an
//! `AbstractAST` of function definitions and call sites; the builder merges
//! ASTs into a `CallGraph`; `traversal`, `query`, `cycles` and `entry`
//! answer reachability, neighbour, cycle and entry-point questions; `dot`
//! renders a graph. `laws` states properties that relate these operations.

pub mod function_id;
pub mod ast;
pub mod graph;
pub mod traversal;
pub mod query;
pub mod builder;
pub mod language;
pub mod syntax;
pub mod parse;
pub mod extract;
pub mod walker;
pub mod paths;
pub mod rust_translator;
pub mod python_translator;
pub mod javascript_translator;
pub mod resolver;
pub mod cycles;
pub mod module_loader;
pub mod dot;
pub mod entry;
pub mod laws;
mod text;
