use vstd::prelude::*;

use crate::ast::AbstractAST;
use crate::builder::def_views;
use crate::extract::{function_names, site_names, sites, translation};
use crate::language::Language;
use crate::parse::{assemble_tree, parse_javascript, tree_of, javascript_nodes};
use crate::paths::{module_path_from_file, module_path_of};
use crate::syntax::SyntaxTree;
use crate::traversal::texts;
use crate::walker::{translate_tree, tree_call_names, tree_function_names};

verus! {

/// Translator for JavaScript source to abstract ASTs.
pub struct JavaScriptTranslator;

impl JavaScriptTranslator {
    pub fn new() -> (r: Self) {
        JavaScriptTranslator
    }

    /// The syntax tree of `source`.
    pub fn parse_source(&self, source: &str) -> (r: Result<SyntaxTree, String>)
        ensures
            r matches Ok(t) && tree_of(t, javascript_nodes(source@)),
    {
        match parse_javascript(source) {
            Some(raws) => Ok(assemble_tree(raws)),
            None => Err(String::from_str("Failed to parse source")),
        }
    }

    /// The names of the free functions in the tree, in pre-order.
    pub fn query_function_names_in_tree(&self, tree: &SyntaxTree) -> (r: Vec<String>)
        ensures
            texts(r@) == function_names(*tree, Language::JavaScript, 0),
    {
        tree_function_names(tree, Language::JavaScript)
    }

    /// The names of the free functions of `source`, in pre-order.
    pub fn query_function_names(&self, source: &str) -> (r: Result<Vec<String>, String>)
        ensures
            r matches Ok(v) && exists|t: SyntaxTree|
                tree_of(t, javascript_nodes(source@)) && texts(v@) == function_names(t, Language::JavaScript, 0),
    {
        let tree = self.parse_source(source)?;
        Ok(self.query_function_names_in_tree(&tree))
    }

    /// The module path of a file path (`utils/helpers.x` gives
    /// `utils::helpers`); fails when the path names no file.
    pub fn extract_module_path(&self, file_path: &str) -> (r: Result<String, String>)
        ensures
            match r {
                Ok(m) => module_path_of(file_path@) == Some(m@),
                Err(_) => module_path_of(file_path@) is None,
            },
    {
        module_path_from_file(file_path)
    }

    /// The target names of all calls in the tree, in pre-order.
    pub fn extract_function_calls_in_tree(&self, tree: &SyntaxTree) -> (r: Vec<String>)
        ensures
            texts(r@) == site_names(sites(*tree, Language::JavaScript, Seq::empty(), 0)),
    {
        tree_call_names(tree, Language::JavaScript)
    }

    /// The target names of all calls in `source`, in pre-order.
    pub fn extract_function_calls(&self, source: &str) -> (r: Result<Vec<String>, String>)
        ensures
            r matches Ok(v) && exists|t: SyntaxTree|
                tree_of(t, javascript_nodes(source@)) && texts(v@) == site_names(
                    sites(t, Language::JavaScript, Seq::empty(), 0),
                ),
    {
        let tree = self.parse_source(source)?;
        Ok(self.extract_function_calls_in_tree(&tree))
    }

    /// The abstract AST of module `module` that the tree declares.
    pub fn translate_tree(&self, tree: &SyntaxTree, module: &str) -> (r: AbstractAST)
        ensures
            r.module@ == module@,
            def_views(r.functions@) == translation(*tree, Language::JavaScript, module@),
    {
        translate_tree(tree, Language::JavaScript, module)
    }

    /// The abstract AST of module `module` that `source` declares.
    pub fn translate(&self, source: &str, module: &str) -> (r: Result<AbstractAST, String>)
        ensures
            r matches Ok(a) && a.module@ == module@ && exists|t: SyntaxTree|
                tree_of(t, javascript_nodes(source@)) && def_views(a.functions@) == translation(
                    t,
                    Language::JavaScript,
                    module@,
                ),
    {
        let tree = self.parse_source(source)?;
        Ok(self.translate_tree(&tree, module))
    }
}

} // verus!
