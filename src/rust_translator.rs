use vstd::prelude::*;

use crate::ast::AbstractAST;
use crate::builder::def_views;
use crate::extract::{function_names, site_names, sites, translation};
use crate::language::Language;
use crate::parse::{assemble_tree, parse_rust, tree_of, rust_nodes};
use crate::paths::{declared_module_path, module_path_from_source};
use crate::syntax::SyntaxTree;
use crate::traversal::texts;
use crate::walker::{translate_tree, tree_call_names, tree_function_names};

verus! {

/// Translator for Rust source to abstract ASTs.
pub struct RustTranslator;

impl RustTranslator {
    pub fn new() -> (r: Self) {
        RustTranslator
    }

    /// The syntax tree of `source`.
    pub fn parse_source(&self, source: &str) -> (r: Result<SyntaxTree, String>)
        ensures
            r matches Ok(t) && tree_of(t, rust_nodes(source@)),
    {
        match parse_rust(source) {
            Some(raws) => Ok(assemble_tree(raws)),
            None => Err(String::from_str("Failed to parse source")),
        }
    }

    /// The names of the free functions in the tree, in pre-order.
    pub fn query_function_names_in_tree(&self, tree: &SyntaxTree) -> (r: Vec<String>)
        ensures
            texts(r@) == function_names(*tree, Language::Rust, 0),
    {
        tree_function_names(tree, Language::Rust)
    }

    /// The names of the free functions of `source`, in pre-order.
    pub fn query_function_names(&self, source: &str) -> (r: Result<Vec<String>, String>)
        ensures
            r matches Ok(v) && exists|t: SyntaxTree|
                tree_of(t, rust_nodes(source@)) && texts(v@) == function_names(t, Language::Rust, 0),
    {
        let tree = self.parse_source(source)?;
        Ok(self.query_function_names_in_tree(&tree))
    }

    /// `default_path`, extended by `::` and the modules that `source`
    /// declares with `mod name;` or `pub mod name;`, in order.
    pub fn extract_module_path(&self, source: &str, default_path: &str) -> (r: Result<String, String>)
        ensures
            r matches Ok(m) && m@ == declared_module_path(source@, default_path@),
    {
        Ok(module_path_from_source(source, default_path))
    }

    /// The target names of all calls in the tree, in pre-order.
    pub fn extract_function_calls_in_tree(&self, tree: &SyntaxTree) -> (r: Vec<String>)
        ensures
            texts(r@) == site_names(sites(*tree, Language::Rust, Seq::empty(), 0)),
    {
        tree_call_names(tree, Language::Rust)
    }

    /// The target names of all calls in `source`, in pre-order.
    pub fn extract_function_calls(&self, source: &str) -> (r: Result<Vec<String>, String>)
        ensures
            r matches Ok(v) && exists|t: SyntaxTree|
                tree_of(t, rust_nodes(source@)) && texts(v@) == site_names(
                    sites(t, Language::Rust, Seq::empty(), 0),
                ),
    {
        let tree = self.parse_source(source)?;
        Ok(self.extract_function_calls_in_tree(&tree))
    }

    /// The abstract AST of module `module` that the tree declares.
    pub fn translate_tree(&self, tree: &SyntaxTree, module: &str) -> (r: AbstractAST)
        ensures
            r.module@ == module@,
            def_views(r.functions@) == translation(*tree, Language::Rust, module@),
    {
        translate_tree(tree, Language::Rust, module)
    }

    /// The abstract AST of module `module` that `source` declares.
    pub fn translate(&self, source: &str, module: &str) -> (r: Result<AbstractAST, String>)
        ensures
            r matches Ok(a) && a.module@ == module@ && exists|t: SyntaxTree|
                tree_of(t, rust_nodes(source@)) && def_views(a.functions@) == translation(
                    t,
                    Language::Rust,
                    module@,
                ),
    {
        let tree = self.parse_source(source)?;
        Ok(self.translate_tree(&tree, module))
    }
}

} // verus!
