use trackast::ast::{FunctionDef, Signature};
use trackast::builder::CallGraphBuilder;
use trackast::function_id::FunctionId;
use trackast::javascript_translator::JavaScriptTranslator;
use trackast::language::Language;
use trackast::module_loader::ModuleLoader;
use trackast::python_translator::PythonTranslator;
use trackast::resolver::resolve_call;
use trackast::rust_translator::RustTranslator;

#[test]
fn test_from_extension_rust() {
    assert_eq!(Language::from_extension("rs"), Some(Language::Rust));
}

#[test]
fn test_from_extension_python() {
    assert_eq!(Language::from_extension("py"), Some(Language::Python));
}

#[test]
fn test_from_extension_javascript() {
    assert_eq!(Language::from_extension("js"), Some(Language::JavaScript));
    assert_eq!(Language::from_extension("ts"), Some(Language::JavaScript));
    assert_eq!(Language::from_extension("jsx"), Some(Language::JavaScript));
    assert_eq!(Language::from_extension("tsx"), Some(Language::JavaScript));
}

#[test]
fn test_from_extension_unknown() {
    assert_eq!(Language::from_extension("unknown"), None);
}

#[test]
fn test_from_file_path() {
    assert_eq!(Language::from_file_path("main.rs"), Some(Language::Rust));
    assert_eq!(Language::from_file_path("script.py"), Some(Language::Python));
    assert_eq!(Language::from_file_path("app.js"), Some(Language::JavaScript));
    assert_eq!(Language::from_file_path("utils/helpers.ts"), Some(Language::JavaScript));
}

#[test]
fn test_as_str() {
    assert_eq!(Language::Rust.as_str(), "Rust");
    assert_eq!(Language::Python.as_str(), "Python");
    assert_eq!(Language::JavaScript.as_str(), "JavaScript");
}

#[test]
fn test_language_detection_python() {
    let language = Language::from_file_path("script.py").expect("Failed to detect Python");
    assert_eq!(language, Language::Python);
}

#[test]
fn test_language_detection_javascript() {
    let language = Language::from_file_path("app.js").expect("Failed to detect JavaScript");
    assert_eq!(language, Language::JavaScript);
}

#[test]
fn test_language_detection_rust() {
    let language = Language::from_file_path("main.rs").expect("Failed to detect Rust");
    assert_eq!(language, Language::Rust);
}

#[test]
fn file_path_without_extension_or_hidden() {
    assert_eq!(Language::from_file_path("Makefile"), None);
    assert_eq!(Language::from_file_path("dir.rs/.py"), None);
}

#[test]
fn test_module_loader_new() {
    let loader = ModuleLoader::new(".", Language::Rust);
    assert_eq!(loader.root_path, ".".to_string());
    assert_eq!(loader.loaded_modules.len(), 0);
}

#[test]
fn test_extract_rust_imports() {
    let loader = ModuleLoader::new(".", Language::Rust);
    let source = "use std::fs;\nuse mymodule::submodule;\nuse crate::other;";
    let imports = loader.extract_rust_imports(source).unwrap();
    assert!(imports.contains(&"mymodule".to_string()));
}

#[test]
fn test_extract_python_imports() {
    let loader = ModuleLoader::new(".", Language::Python);
    let source = "import os\nfrom mymodule import func\nimport numpy";
    let imports = loader.extract_python_imports(source).unwrap();
    assert!(imports.contains(&"mymodule".to_string()));
}

#[test]
fn test_extract_js_imports() {
    let loader = ModuleLoader::new(".", Language::JavaScript);
    let source = "import x from 'mymodule';\nconst y = require('other');";
    let imports = loader.extract_js_imports(source).unwrap();
    assert!(imports.contains(&"mymodule".to_string()));
}

#[test]
fn test_language_specific_loaders() {
    let _rust = ModuleLoader::new(".", Language::Rust);
    let _python = ModuleLoader::new(".", Language::Python);
    let _js = ModuleLoader::new(".", Language::JavaScript);
}

#[test]
fn test_module_loader_create() {
    let _loader = ModuleLoader::new(".", Language::Rust);
}

#[test]
fn test_rust_imports_parsing() {
    let loader = ModuleLoader::new(".", Language::Rust);
    let source = "use std::fs;\nuse mymodule::submodule;\nuse crate::other;";
    let imports = loader.extract_rust_imports(source).unwrap();
    assert!(imports.contains(&"mymodule".to_string()));
    assert!(!imports.iter().any(|i| i.contains("std")));
    assert!(!imports.iter().any(|i| i.contains("crate")));
}

#[test]
fn test_python_imports_parsing() {
    let loader = ModuleLoader::new(".", Language::Python);
    let source = "import os\nfrom mymodule import func\nimport numpy";
    let imports = loader.extract_python_imports(source).unwrap();
    assert!(imports.contains(&"mymodule".to_string()));
}

#[test]
fn test_js_imports_parsing() {
    let loader = ModuleLoader::new(".", Language::JavaScript);
    let source = "import x from 'mymodule';\nconst y = require('other');";
    let imports = loader.extract_js_imports(source).unwrap();
    assert!(imports.contains(&"mymodule".to_string()));
    assert!(imports.contains(&"other".to_string()));
}

#[test]
fn test_module_loader_filters_external_imports() {
    let loader = ModuleLoader::new(".", Language::Rust);
    let source = "use std::fs;\nuse mylib::core;";
    let imports = loader.extract_rust_imports(source).unwrap();
    assert!(imports.iter().any(|i| i == "mylib"));
    assert!(!imports.iter().any(|i| i == "std"));
}

#[test]
fn test_module_loader_multiple_imports() {
    let loader = ModuleLoader::new(".", Language::Python);
    let source = "from helper import process\nfrom utils import format\nfrom external import lib";
    let imports = loader.extract_python_imports(source).unwrap();
    assert_eq!(imports.len(), 3);
}

#[test]
fn import_lists_exact() {
    let rust = ModuleLoader::new(".", Language::Rust);
    let r = rust.extract_rust_imports("  use a::{b, c};\nuse std::io;\nuse d;\nfn x() {}\n").unwrap();
    assert_eq!(r, vec!["a".to_string(), "d;".to_string()]);
    let py = ModuleLoader::new(".", Language::Python);
    let p = py.extract_python_imports("import os, sys\nfrom .local import x\nfrom pkg.sub import y\n").unwrap();
    assert_eq!(p, vec!["os".to_string(), "pkg.sub".to_string()]);
    let js = ModuleLoader::new(".", Language::JavaScript);
    let j = js
        .extract_js_imports("import a from \"./helper.js\";\nimport b from '../up';\nconst c = require(\"pkg\");\n")
        .unwrap();
    assert_eq!(j, vec!["helper.js".to_string(), "pkg".to_string()]);
}

fn create_test_function(name: &str, module: &str) -> FunctionDef {
    FunctionDef::new(name.to_string(), Signature::empty(), module.to_string())
}

#[test]
fn test_resolve_in_current_module() {
    let funcs = vec![create_test_function("helper", "root"), create_test_function("main", "root")];
    let result = resolve_call("helper", "root", &funcs);
    assert!(result.is_some());
    assert_eq!(result.unwrap(), ("root".to_string(), "helper".to_string()));
}

#[test]
fn test_resolve_in_parent_module() {
    let funcs = vec![create_test_function("helper", "root"), create_test_function("main", "root::utils")];
    let result = resolve_call("helper", "root::utils", &funcs);
    assert!(result.is_some());
    assert_eq!(result.unwrap(), ("root".to_string(), "helper".to_string()));
}

#[test]
fn test_resolve_not_found() {
    let funcs = vec![create_test_function("main", "root")];
    let result = resolve_call("missing", "root", &funcs);
    assert!(result.is_none());
}

#[test]
fn test_resolve_nested_module() {
    let funcs = vec![
        create_test_function("util", "root::nested::deep"),
        create_test_function("main", "root::nested::deep::deeper"),
    ];
    let result = resolve_call("util", "root::nested::deep::deeper", &funcs);
    assert!(result.is_some());
}

#[test]
fn resolve_prefers_innermost_then_root() {
    let funcs = vec![
        create_test_function("h", "a"),
        create_test_function("h", "a::b"),
        create_test_function("r", ""),
    ];
    assert_eq!(resolve_call("h", "a::b::c", &funcs), Some(("a::b".to_string(), "h".to_string())));
    assert_eq!(resolve_call("r", "a::b", &funcs), Some(("".to_string(), "r".to_string())));
}

#[test]
fn test_javascript_translator_new() {
    let translator = JavaScriptTranslator::new();
    assert_eq!(std::mem::size_of_val(&translator), 0);
}

#[test]
fn javascript_test_query_function_names() {
    let translator = JavaScriptTranslator::new();
    let names = translator.query_function_names("function main() {}\nfunction helper() {}").unwrap();
    assert_eq!(names.len(), 2);
    assert!(names.contains(&"main".to_string()));
    assert!(names.contains(&"helper".to_string()));
}

#[test]
fn javascript_test_extract_module_path() {
    let translator = JavaScriptTranslator::new();
    let module = translator.extract_module_path("utils/helpers.js").unwrap();
    assert_eq!(module, "utils::helpers");
}

#[test]
fn javascript_test_translate_simple() {
    let translator = JavaScriptTranslator::new();
    let ast = translator.translate("function main() {}\nfunction helper() {}", "mymod").unwrap();
    assert_eq!(ast.module_name(), "mymod");
    assert!(ast.functions.len() >= 2);
}

#[test]
fn test_python_translator_new() {
    let translator = PythonTranslator::new();
    assert_eq!(std::mem::size_of_val(&translator), 0);
}

#[test]
fn python_test_query_function_names() {
    let translator = PythonTranslator::new();
    let names = translator.query_function_names("def main():\n    pass\ndef helper():\n    pass").unwrap();
    assert_eq!(names.len(), 2);
    assert!(names.contains(&"main".to_string()));
    assert!(names.contains(&"helper".to_string()));
}

#[test]
fn python_test_extract_module_path() {
    let translator = PythonTranslator::new();
    let module = translator.extract_module_path("utils/helpers.py").unwrap();
    assert_eq!(module, "utils::helpers");
}

#[test]
fn python_test_translate_simple() {
    let translator = PythonTranslator::new();
    let ast = translator.translate("def main():\n    pass\ndef helper():\n    pass", "mymod").unwrap();
    assert_eq!(ast.module_name(), "mymod");
    assert!(ast.functions.len() >= 2);
}

#[test]
fn test_rust_translator_new() {
    let translator = RustTranslator::new();
    assert_eq!(std::mem::size_of_val(&translator), 0);
}

#[test]
fn rust_test_query_function_names() {
    let translator = RustTranslator::new();
    let names = translator.query_function_names("fn main() {}\nfn helper() {}").unwrap();
    assert_eq!(names.len(), 2);
    assert!(names.contains(&"main".to_string()));
    assert!(names.contains(&"helper".to_string()));
}

#[test]
fn rust_test_translate_simple() {
    let translator = RustTranslator::new();
    let ast = translator.translate("fn main() {}\nfn helper() {}", "root").unwrap();
    assert_eq!(ast.module_name(), "root");
    assert!(ast.functions.len() >= 2);
}

#[test]
fn test_translate_with_calls() {
    let translator = RustTranslator::new();
    let ast = translator.translate("fn main() { helper(); }\nfn helper() {}", "root").unwrap();
    assert!(ast.get_function("main").is_some());
}

#[test]
fn test_extract_module_path_empty() {
    let translator = RustTranslator::new();
    let path = translator.extract_module_path("fn main() {}", "root").unwrap();
    assert_eq!(path, "root");
}

#[test]
fn test_extract_module_path_with_mod() {
    let translator = RustTranslator::new();
    let path = translator.extract_module_path("mod helpers;\nfn main() {}", "root").unwrap();
    assert_eq!(path, "root::helpers");
}

#[test]
fn test_extract_function_calls_empty() {
    let translator = RustTranslator::new();
    let calls = translator.extract_function_calls("fn main() {}").unwrap();
    assert_eq!(calls.len(), 0);
}

#[test]
fn rust_module_path_with_pub_mods() {
    let translator = RustTranslator::new();
    let path = translator.extract_module_path("pub mod a;\n  mod  b ;\nmod c {\n}", "root").unwrap();
    assert_eq!(path, "root::a::b");
}

#[test]
fn module_path_without_directory_or_with_dot() {
    let translator = PythonTranslator::new();
    assert_eq!(translator.extract_module_path("helpers.py").unwrap(), "helpers");
    assert_eq!(translator.extract_module_path("./helpers.py").unwrap(), "helpers");
    assert_eq!(translator.extract_module_path("a/b/c.tar.gz").unwrap(), "a::b::c.tar");
    assert!(translator.extract_module_path("a/..").is_err());
    assert_eq!(translator.extract_module_path("dir/").unwrap(), "dir");
    assert_eq!(translator.extract_module_path("a/.").unwrap(), "a");
    assert_eq!(translator.extract_module_path("x//y/z.py").unwrap(), "x::::y::z");
    assert!(translator.extract_module_path("/").is_err());
    assert_eq!(translator.extract_module_path("/y.py").unwrap(), "::::y");
    assert_eq!(translator.extract_module_path("/a/b.py").unwrap(), "::a::b");
}

#[test]
fn rust_extract_function_calls_lists_callees() {
    let translator = RustTranslator::new();
    let calls = translator.extract_function_calls("fn main() { helper(); x.run(); }").unwrap();
    assert_eq!(calls, vec!["helper".to_string(), "run".to_string()]);
}

#[test]
fn python_class_self_call() {
    let src = "class Calculator:\n    def __init__(self):\n        pass\n    def add(self, a, b):\n        self.validate()\n        return a + b\n    def validate(self):\n        pass\n\nclass Logger:\n    def log(self, m):\n        print(m)\n";
    let ast = PythonTranslator::new().translate(src, "calc").unwrap();
    let names: Vec<&str> = ast.functions.iter().map(|f| f.name.as_str()).collect();
    assert_eq!(names, vec!["Calculator.__init__", "Calculator.add", "Calculator.validate", "Logger.log"]);
    let add = ast.get_function("Calculator.add").unwrap();
    assert_eq!(add.calls.len(), 1);
    assert_eq!(add.calls[0].target_name, "Calculator.validate");
    assert_eq!(add.calls[0].target_module, Some("calc".to_string()));
    assert_eq!(add.calls[0].line, 5);
    let mut builder = CallGraphBuilder::new();
    builder.add_ast(ast).unwrap();
    let graph = builder.build().unwrap();
    let from = FunctionId::new("calc::Calculator.add::() -> ()".to_string());
    let edges = graph.get_edges_from(&from);
    assert_eq!(edges.len(), 1);
    assert_eq!(edges[0].to, FunctionId::new("calc::Calculator.validate::() -> ()".to_string()));
    assert!(!graph.get_node(&edges[0].to).unwrap().is_external);
}

#[test]
fn rust_impl_self_call() {
    let src = "struct Calculator;\nimpl Calculator {\n    fn new() -> Self { Calculator }\n    fn add(&self) { self.validate(); }\n    fn validate(&self) {}\n}\nstruct Logger;\nimpl Logger {\n    fn new() -> Self { Logger }\n}\n";
    let ast = RustTranslator::new().translate(src, "calc").unwrap();
    let names: Vec<&str> = ast.functions.iter().map(|f| f.name.as_str()).collect();
    assert_eq!(names, vec!["Calculator::new", "Calculator::add", "Calculator::validate", "Logger::new"]);
    let add = ast.get_function("Calculator::add").unwrap();
    assert_eq!(add.calls.len(), 1);
    assert_eq!(add.calls[0].target_name, "Calculator::validate");
    assert_eq!(add.calls[0].target_module, Some("calc".to_string()));
    let mut builder = CallGraphBuilder::new();
    builder.add_ast(ast).unwrap();
    let graph = builder.build().unwrap();
    let from = FunctionId::new("calc::Calculator::add::() -> ()".to_string());
    let edges = graph.get_edges_from(&from);
    assert_eq!(edges.len(), 1);
    assert_eq!(edges[0].to, FunctionId::new("calc::Calculator::validate::() -> ()".to_string()));
}

#[test]
fn javascript_framework_registration() {
    let src = "function handleGetUsers(req, res) {}\nfunction handleCreateUser(req, res) {}\nfunction errorHandler(err, req, res, next) {}\napp.get('/users', handleGetUsers);\napp.post('/users', handleCreateUser);\napp.use(errorHandler);\n";
    let ast = JavaScriptTranslator::new().translate(src, "server").unwrap();
    let names: Vec<&str> = ast.functions.iter().map(|f| f.name.as_str()).collect();
    assert_eq!(names, vec!["handleGetUsers", "handleCreateUser", "errorHandler", "<module>"]);
    let module = ast.get_function("<module>").unwrap();
    let targets: Vec<&str> = module.calls.iter().map(|c| c.target_name.as_str()).collect();
    assert!(targets.contains(&"handleGetUsers"));
    assert!(targets.contains(&"handleCreateUser"));
    assert!(targets.contains(&"errorHandler"));
    for f in &ast.functions {
        for c in &f.calls {
            assert!(!["req", "res", "next", "err"].contains(&c.target_name.as_str()));
        }
    }
}

#[test]
fn javascript_class_arrow_and_exports() {
    let src = "class Calculator {\n  add() { this.validate(); }\n  validate() {}\n}\nconst helper = () => { compute(); };\nmodule.exports = helper;\n";
    let ast = JavaScriptTranslator::new().translate(src, "m").unwrap();
    let names: Vec<&str> = ast.functions.iter().map(|f| f.name.as_str()).collect();
    assert_eq!(names, vec!["Calculator.add", "Calculator.validate", "helper", "<module>"]);
    let add = ast.get_function("Calculator.add").unwrap();
    assert_eq!(add.calls[0].target_name, "Calculator.validate");
    assert_eq!(add.calls[0].target_module, Some("m".to_string()));
    assert_eq!(ast.get_function("helper").unwrap().calls[0].target_name, "compute");
    let module = ast.get_function("<module>").unwrap();
    assert_eq!(module.calls.len(), 1);
    assert_eq!(module.calls[0].target_name, "helper");
}

#[test]
fn calls_inside_functions_stay_out_of_module_scope() {
    let ast = RustTranslator::new().translate("fn main() { println(1); }", "root").unwrap();
    assert_eq!(ast.functions.len(), 1);
    let mut builder = CallGraphBuilder::new();
    builder.add_ast(ast).unwrap();
    let graph = builder.build().unwrap();
    assert_eq!(graph.node_count(), 2);
    assert!(graph.get_node(&FunctionId::new("<external>::println::()".to_string())).unwrap().is_external);
    assert_eq!(graph.edge_count(), 1);
}

#[test]
fn test_parse_simple_rust() {
    let translator = RustTranslator::new();
    assert!(translator.parse_source("fn main() {}").is_ok());
}

#[test]
fn test_parse_simple_python() {
    let translator = PythonTranslator::new();
    assert!(translator.parse_source("def main():\n    pass").is_ok());
}

#[test]
fn test_parse_simple_javascript() {
    let translator = JavaScriptTranslator::new();
    assert!(translator.parse_source("function main() {}").is_ok());
}

#[test]
fn parsed_tree_links_children_after_parents() {
    let tree = RustTranslator::new().parse_source("fn a() { b(); }\nfn c() {}").unwrap();
    assert_eq!(tree.nodes[0].kind, "source_file");
    assert_eq!(tree.nodes[0].children.len(), 2);
    for (i, n) in tree.nodes.iter().enumerate() {
        for &c in &n.children {
            assert!(c > i && c < tree.nodes.len());
        }
    }
    let second = tree.nodes[0].children[1];
    assert_eq!(tree.nodes[second].text, "fn c() {}");
    assert_eq!(tree.nodes[second].line, 2);
}

#[test]
fn dead_code_pruned_from_python_source() {
    let src = "def main_entry():\n    process_data()\n    output_result()\n\ndef process_data():\n    pass\n\ndef output_result():\n    print('x')\n\ndef unused_function():\n    pass\n";
    let ast = PythonTranslator::new().translate(src, "app").unwrap();
    let funcs = ast.functions.clone();
    let mut builder = CallGraphBuilder::new();
    builder.add_ast(ast).unwrap();
    let graph = builder.build().unwrap();
    let entries = trackast::entry::resolve_entry_points(&["app::main_entry".to_string()], &graph).unwrap();
    let reached = trackast::traversal::traversal_from_entries(&graph, &entries);
    let names: Vec<String> = reached.reachable.iter().map(|i| i.to_text()).collect();
    assert!(names.contains(&"app::main_entry::() -> ()".to_string()));
    assert!(names.contains(&"<external>::process_data::()".to_string()));
    assert!(names.contains(&"<external>::output_result::()".to_string()));
    assert!(!names.iter().any(|n| n.contains("unused_function")));
    assert_eq!(funcs.len(), 4);
    let resolved = resolve_call("process_data", "app", &funcs);
    assert_eq!(resolved, Some(("app".to_string(), "process_data".to_string())));
}
