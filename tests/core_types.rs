use std::collections::hash_map::DefaultHasher;
use std::hash::{Hash, Hasher};
use trackast::ast::{AbstractAST, FunctionCall, FunctionDef, Signature};
use trackast::function_id::{generate_id, FunctionId};

#[test]
fn test_signature_display() {
    let sig = Signature::new(vec![("x".to_string(), "i32".to_string())], "String".to_string());
    assert_eq!(sig.to_text(), "(x: i32) -> String");
}

#[test]
fn test_signature_empty() {
    let sig = Signature::empty();
    assert_eq!(sig.to_text(), "() -> ()");
}

#[test]
fn test_signature_equality() {
    let sig1 = Signature::new(vec![("x".to_string(), "i32".to_string())], "String".to_string());
    let sig2 = Signature::new(vec![("x".to_string(), "i32".to_string())], "String".to_string());
    assert_eq!(sig1, sig2);
}

#[test]
fn test_function_call() {
    let call = FunctionCall::new("foo".to_string(), Some("mod".to_string()), 5);
    assert_eq!(call.target_name, "foo");
    assert_eq!(call.target_module, Some("mod".to_string()));
    assert_eq!(call.line, 5);
}

#[test]
fn test_function_def() {
    let sig = Signature::empty();
    let func = FunctionDef::new("main".to_string(), sig, "root".to_string());
    assert_eq!(func.name, "main");
    assert_eq!(func.module, "root");
}

#[test]
fn test_function_def_with_calls() {
    let sig = Signature::empty();
    let calls = vec![FunctionCall::new("helper".to_string(), None, 10)];
    let func = FunctionDef::new("main".to_string(), sig, "root".to_string()).with_calls(calls.clone());
    assert_eq!(func.calls, calls);
}

#[test]
fn test_abstract_ast() {
    let mut ast = AbstractAST::new("mymod".to_string());
    assert_eq!(ast.module_name(), "mymod");

    let sig = Signature::empty();
    let func = FunctionDef::new("foo".to_string(), sig, "mymod".to_string());
    ast.add_function(func);

    assert_eq!(ast.functions.len(), 1);
    assert!(ast.get_function("foo").is_some());
    assert!(ast.get_function("bar").is_none());
}

#[test]
fn test_function_id_display() {
    let id = FunctionId::new("mod::func::()".to_string());
    assert_eq!(id.to_text(), "mod::func::()");
}

#[test]
fn test_function_id_as_str() {
    let id = FunctionId::new("mod::func::()".to_string());
    assert_eq!(id.as_str(), "mod::func::()");
}

#[test]
fn test_function_id_equality() {
    let id1 = FunctionId::new("mod::func::()".to_string());
    let id2 = FunctionId::new("mod::func::()".to_string());
    assert_eq!(id1, id2);
}

#[test]
fn test_function_id_hash() {
    let id1 = FunctionId::new("mod::func::()".to_string());
    let id2 = FunctionId::new("mod::func::()".to_string());

    let mut hasher1 = DefaultHasher::new();
    id1.hash(&mut hasher1);
    let hash1 = hasher1.finish();

    let mut hasher2 = DefaultHasher::new();
    id2.hash(&mut hasher2);
    let hash2 = hasher2.finish();

    assert_eq!(hash1, hash2);
}

#[test]
fn test_generate_id_simple() {
    let sig = Signature::empty();
    let id = generate_id("root", "main", &sig);
    assert_eq!(id.as_str(), "root::main::() -> ()");
}

#[test]
fn test_generate_id_with_params() {
    let sig = Signature::new(vec![("x".to_string(), "i32".to_string())], "String".to_string());
    let id = generate_id("my_crate", "parse", &sig);
    assert_eq!(id.as_str(), "my_crate::parse::(x: i32) -> String");
}

#[test]
fn test_generate_id_nested_module() {
    let sig = Signature::empty();
    let id = generate_id("my_crate::utils::helpers", "process", &sig);
    assert_eq!(id.as_str(), "my_crate::utils::helpers::process::() -> ()");
}

#[test]
fn test_generate_id_generics() {
    let sig = Signature::new(vec![("item".to_string(), "T".to_string())], "Option<T>".to_string());
    let id = generate_id("std::vec", "push", &sig);
    assert_eq!(id.as_str(), "std::vec::push::(item: T) -> Option<T>");
}

#[test]
fn signature_with_two_params_is_comma_separated() {
    let sig = Signature::new(
        vec![("a".to_string(), "u8".to_string()), ("b".to_string(), "&str".to_string())],
        "bool".to_string(),
    );
    assert_eq!(sig.to_text(), "(a: u8, b: &str) -> bool");
}

#[test]
fn fn_id_of_definition_uses_module_name_and_signature() {
    let f = FunctionDef::new("run".to_string(), Signature::empty(), "app::core".to_string());
    assert_eq!(f.fn_id().as_str(), "app::core::run::() -> ()");
}

#[test]
fn get_function_returns_first_match() {
    let mut ast = AbstractAST::new("m".to_string());
    let mut first = FunctionDef::new("f".to_string(), Signature::empty(), "m".to_string());
    first.add_call(FunctionCall::new("x".to_string(), None, 1));
    ast.add_function(first);
    ast.add_function(FunctionDef::new("f".to_string(), Signature::empty(), "m".to_string()));
    assert_eq!(ast.get_function("f").unwrap().calls.len(), 1);
}
