//! The extraction shared by all languages: which syntax nodes declare
//! functions and scopes, which contribute calls, and how a walk over a
//! tree turns into an `AbstractAST`.
use vstd::prelude::*;
use vstd::string::*;

use crate::ast::{CallView, DefView};
use crate::builder::empty_sig;
use crate::language::Language;
use crate::syntax::SyntaxTree;


verus! {

// ---------------------------------------------------------------------
// Grammar facts, per language.
// ---------------------------------------------------------------------

/// A call expression.
pub open spec fn call_kind(l: Language, k: Seq<char>) -> bool {
    match l {
        Language::Python => k == "call"@,
        _ => k == "call_expression"@,
    }
}

/// A member access `receiver.method`.
pub open spec fn member_kind(l: Language, k: Seq<char>) -> bool {
    match l {
        Language::Rust => k == "field_expression"@,
        Language::Python => k == "attribute"@,
        Language::JavaScript => k == "member_expression"@,
    }
}

/// The method name at the end of a member access.
pub open spec fn member_name_kind(l: Language, k: Seq<char>) -> bool {
    match l {
        Language::Rust => k == "field_identifier"@,
        Language::Python => k == "identifier"@,
        Language::JavaScript => k == "property_identifier"@,
    }
}

/// The current-object reference.
pub open spec fn self_word(l: Language) -> Seq<char> {
    match l {
        Language::JavaScript => "this"@,
        _ => "self"@,
    }
}

/// The separator between a scope and a name defined in it.
pub open spec fn separator(l: Language) -> Seq<char> {
    match l {
        Language::Rust => "::"@,
        _ => "."@,
    }
}

/// The argument list of a call.
pub open spec fn args_kind(l: Language, k: Seq<char>) -> bool {
    match l {
        Language::Python => k == "argument_list"@,
        _ => k == "arguments"@,
    }
}

/// A handler-registration method name.
pub open spec fn route_method(m: Seq<char>) -> bool {
    ||| m == "get"@ ||| m == "post"@ ||| m == "put"@ ||| m == "delete"@ ||| m == "patch"@
    ||| m == "use"@ ||| m == "all"@ ||| m == "route"@ ||| m == "service"@ ||| m == "to"@
    ||| m == "middleware"@ ||| m == "guard"@ ||| m == "add_url_rule"@
    ||| m == "register_error_handler"@ ||| m == "register_blueprint"@
    ||| m == "before_request"@ ||| m == "after_request"@
}

/// A common handler parameter name, never recorded as a call.
pub open spec fn handler_param(m: Seq<char>) -> bool {
    m == "req"@ || m == "res"@ || m == "next"@ || m == "err"@
}

/// A class or impl block, which opens a containing scope.
pub open spec fn scope_kind(l: Language, k: Seq<char>) -> bool {
    match l {
        Language::Rust => k == "impl_item"@,
        Language::Python => k == "class_definition"@,
        Language::JavaScript => k == "class_declaration"@ || k == "class"@,
    }
}

/// The child of a scope node that names the scope.
pub open spec fn scope_name_kind(l: Language, k: Seq<char>) -> bool {
    match l {
        Language::Rust => k == "type_identifier"@ || k == "identifier"@,
        _ => k == "identifier"@,
    }
}

/// A function declaration; methods included.
pub open spec fn function_kind(l: Language, k: Seq<char>) -> bool {
    match l {
        Language::Rust => k == "function_item"@,
        Language::Python => k == "function_definition"@,
        Language::JavaScript => k == "function_declaration"@ || k == "function"@ || k
            == "method_definition"@,
    }
}

/// A free function declaration, as listed by a name query.
pub open spec fn named_function_kind(l: Language, k: Seq<char>) -> bool {
    match l {
        Language::JavaScript => k == "function_declaration"@ || k == "function"@,
        _ => function_kind(l, k),
    }
}

/// The child of a function node `fk` that names it.
pub open spec fn function_name_kind(l: Language, fk: Seq<char>, k: Seq<char>) -> bool {
    if l == Language::JavaScript && fk == "method_definition"@ {
        k == "property_identifier"@
    } else {
        k == "identifier"@
    }
}

/// A declaration that may bind an arrow function to a name.
pub open spec fn binding_kind(l: Language, k: Seq<char>) -> bool {
    l == Language::JavaScript && (k == "variable_declaration"@ || k == "lexical_declaration"@)
}

/// An assignment that may export a symbol.
pub open spec fn export_kind(l: Language, k: Seq<char>) -> bool {
    l == Language::JavaScript && k == "assignment_expression"@
}

// ---------------------------------------------------------------------
// What a walk finds.
// ---------------------------------------------------------------------

/// A call site found in a tree: target name, whether it was qualified by
/// the containing scope (a call on the current object), and line.
pub type SiteView = (Seq<char>, bool, usize);

/// One step of a walk: a declared function (`false`, its scoped name, its
/// calls) or calls made at module scope (`true`, unused name, calls).
pub type FoundView = (bool, Seq<char>, Seq<SiteView>);

/// Which child a walk looks for.
#[derive(Clone, Copy)]
pub enum Pick {
    /// An `identifier`.
    Identifier,
    /// An `arrow_function`.
    Arrow,
    /// The name of a class or impl block.
    ScopeName,
    /// The name of a function node of the given kind.
    FunctionName,
}

/// Whether a child of kind `k` is what `p` looks for, under a parent of kind `pk`.
pub open spec fn picks(l: Language, p: Pick, pk: Seq<char>, k: Seq<char>) -> bool {
    match p {
        Pick::Identifier => k == "identifier"@,
        Pick::Arrow => k == "arrow_function"@,
        Pick::ScopeName => scope_name_kind(l, k),
        Pick::FunctionName => function_name_kind(l, pk, k),
    }
}

/// The index of the first child of `i`, from `k` on, that `p` picks; -1
/// when there is none.
pub open spec fn first_child(t: SyntaxTree, l: Language, p: Pick, i: int, k: int) -> int
    decreases t.child_count(i) - k,
{
    if 0 <= i < t.nodes@.len() && 0 <= k < t.child_count(i) {
        if t.forward_child(i, k) && picks(l, p, t.kind(i), t.kind(t.child(i, k))) {
            t.child(i, k)
        } else {
            first_child(t, l, p, i, k + 1)
        }
    } else {
        -1
    }
}

/// The text of the first child of `i` that `p` picks; empty if none.
pub open spec fn first_child_text(t: SyntaxTree, l: Language, p: Pick, i: int) -> Seq<char> {
    let c = first_child(t, l, p, i, 0);
    if c >= 0 {
        t.text(c)
    } else {
        Seq::empty()
    }
}

/// `name` qualified by `scope` when a scope is in effect.
pub open spec fn qualify(l: Language, scope: Seq<char>, name: Seq<char>) -> Seq<char> {
    if scope.len() == 0 {
        name
    } else {
        scope + separator(l) + name
    }
}

/// The method name of member access `c`: its last child, when of the right kind.
pub open spec fn method_of(t: SyntaxTree, l: Language, c: int) -> Option<Seq<char>> {
    let n = t.child_count(c);
    if n > 0 && t.forward_child(c, n - 1) && member_name_kind(l, t.kind(t.child(c, n - 1))) {
        Some(t.text(t.child(c, n - 1)))
    } else {
        None
    }
}

/// The call that callee `c` of a call on line `line` names.
pub open spec fn callee_sites(t: SyntaxTree, l: Language, scope: Seq<char>, c: int, line: usize) -> Seq<SiteView> {
    if t.kind(c) == "identifier"@ {
        seq![(t.text(c), false, line)]
    } else if member_kind(l, t.kind(c)) && t.child_count(c) > 0 && t.forward_child(c, 0) {
        match method_of(t, l, c) {
            Some(m) => if t.text(t.child(c, 0)) == self_word(l) && scope.len() > 0 {
                seq![(scope + separator(l) + m, true, line)]
            } else {
                seq![(m, false, line)]
            },
            None => Seq::empty(),
        }
    } else {
        Seq::empty()
    }
}

/// The identifier children of `a`, from `j` on, that are not handler parameters.
pub open spec fn ident_args(t: SyntaxTree, a: int, j: int) -> Seq<SiteView>
    decreases t.child_count(a) - j,
{
    if 0 <= a < t.nodes@.len() && 0 <= j < t.child_count(a) {
        let c = t.child(a, j);
        let here = if t.forward_child(a, j) && t.kind(c) == "identifier"@ && !handler_param(t.text(c)) {
            seq![(t.text(c), false, t.nodes@[c].line)]
        } else {
            Seq::empty()
        };
        here + ident_args(t, a, j + 1)
    } else {
        Seq::empty()
    }
}

/// The identifier arguments in the argument lists among the children of `i`, from `k` on.
pub open spec fn route_args(t: SyntaxTree, l: Language, i: int, k: int) -> Seq<SiteView>
    decreases t.child_count(i) - k,
{
    if 0 <= i < t.nodes@.len() && 0 <= k < t.child_count(i) {
        let c = t.child(i, k);
        let here = if t.forward_child(i, k) && args_kind(l, t.kind(c)) {
            ident_args(t, c, 0)
        } else {
            Seq::empty()
        };
        here + route_args(t, l, i, k + 1)
    } else {
        Seq::empty()
    }
}

/// Some child of `i`, from `k` on, is the export sentinel `module.exports`.
pub open spec fn has_export_target(t: SyntaxTree, i: int, k: int) -> bool
    decreases t.child_count(i) - k,
{
    if 0 <= i < t.nodes@.len() && 0 <= k < t.child_count(i) {
        let c = t.child(i, k);
        (t.forward_child(i, k) && t.kind(c) == "member_expression"@ && t.text(c) == "module.exports"@)
            || has_export_target(t, i, k + 1)
    } else {
        false
    }
}

/// The identifier children of `i`, from `k` on.
pub open spec fn ident_children(t: SyntaxTree, i: int, k: int) -> Seq<SiteView>
    decreases t.child_count(i) - k,
{
    if 0 <= i < t.nodes@.len() && 0 <= k < t.child_count(i) {
        let c = t.child(i, k);
        let here = if t.forward_child(i, k) && t.kind(c) == "identifier"@ {
            seq![(t.text(c), false, t.nodes@[c].line)]
        } else {
            Seq::empty()
        };
        here + ident_children(t, i, k + 1)
    } else {
        Seq::empty()
    }
}

/// The calls that node `i` itself contributes.
pub open spec fn own_sites(t: SyntaxTree, l: Language, scope: Seq<char>, i: int) -> Seq<SiteView> {
    let k = t.kind(i);
    if call_kind(l, k) && t.child_count(i) > 0 && t.forward_child(i, 0) {
        let c = t.child(i, 0);
        let routes = if member_kind(l, t.kind(c)) {
            match method_of(t, l, c) {
                Some(m) => if route_method(m) {
                    route_args(t, l, i, 0)
                } else {
                    Seq::empty()
                },
                None => Seq::empty(),
            }
        } else {
            Seq::empty()
        };
        callee_sites(t, l, scope, c, t.nodes@[i].line) + routes
    } else if export_kind(l, k) && has_export_target(t, i, 0) {
        ident_children(t, i, 0)
    } else {
        Seq::empty()
    }
}

/// The calls in the subtree of `i`, in pre-order.
pub open spec fn sites(t: SyntaxTree, l: Language, scope: Seq<char>, i: int) -> Seq<SiteView>
    decreases t.nodes@.len() - i, 1int, 0int,
{
    if 0 <= i < t.nodes@.len() {
        own_sites(t, l, scope, i) + child_sites(t, l, scope, i, 0)
    } else {
        Seq::empty()
    }
}

/// The calls in the subtrees of the children of `i`, from `k` on.
pub open spec fn child_sites(t: SyntaxTree, l: Language, scope: Seq<char>, i: int, k: int) -> Seq<SiteView>
    decreases t.nodes@.len() - i, 0int, t.child_count(i) - k,
{
    if 0 <= i < t.nodes@.len() && 0 <= k < t.child_count(i) {
        let here = if t.forward_child(i, k) {
            sites(t, l, scope, t.child(i, k))
        } else {
            Seq::empty()
        };
        here + child_sites(t, l, scope, i, k + 1)
    } else {
        Seq::empty()
    }
}

/// Functions bound to names by the declarators among the children of `i`, from `k` on.
pub open spec fn bindings(t: SyntaxTree, l: Language, i: int, k: int) -> Seq<FoundView>
    decreases t.child_count(i) - k,
{
    if 0 <= i < t.nodes@.len() && 0 <= k < t.child_count(i) {
        let d = t.child(i, k);
        let name = first_child_text(t, l, Pick::Identifier, d);
        let arrow = first_child(t, l, Pick::Arrow, d, 0);
        let here = if t.forward_child(i, k) && t.kind(d) == "variable_declarator"@ && name.len() > 0
            && arrow >= 0 {
            seq![(false, name, child_sites(t, l, Seq::empty(), arrow, 0))]
        } else {
            Seq::empty()
        };
        here + bindings(t, l, i, k + 1)
    } else {
        Seq::empty()
    }
}

/// What node `i` itself contributes to a walk.
pub open spec fn walk_here(t: SyntaxTree, l: Language, scope: Seq<char>, in_fn: bool, i: int) -> Seq<FoundView> {
    let k = t.kind(i);
    if scope_kind(l, k) {
        Seq::empty()
    } else if function_kind(l, k) {
        let name = first_child_text(t, l, Pick::FunctionName, i);
        if name.len() > 0 {
            seq![(false, qualify(l, scope, name), child_sites(t, l, scope, i, 0))]
        } else {
            Seq::empty()
        }
    } else if binding_kind(l, k) && scope.len() == 0 && !in_fn {
        bindings(t, l, i, 0)
    } else if k == "expression_statement"@ && scope.len() == 0 && !in_fn {
        let cs = sites(t, l, Seq::empty(), i);
        if cs.len() > 0 {
            seq![(true, Seq::empty(), cs)]
        } else {
            Seq::empty()
        }
    } else {
        Seq::empty()
    }
}

/// The containing scope for the children of `i`: the name of the class or
/// impl block that `i` opens, else the scope already in effect.
pub open spec fn inner_scope(t: SyntaxTree, l: Language, scope: Seq<char>, i: int) -> Seq<char> {
    if scope_kind(l, t.kind(i)) {
        first_child_text(t, l, Pick::ScopeName, i)
    } else {
        scope
    }
}

/// An anonymous function expression, which encloses the statements in it.
pub open spec fn lambda_kind(l: Language, k: Seq<char>) -> bool {
    l == Language::JavaScript && k == "arrow_function"@
}

/// Whether the children of `i` lie inside a function.
pub open spec fn inner_in_fn(t: SyntaxTree, l: Language, in_fn: bool, i: int) -> bool {
    in_fn || (!scope_kind(l, t.kind(i)) && (function_kind(l, t.kind(i)) || lambda_kind(l, t.kind(i))))
}

/// What a walk of the subtree of `i` finds, in pre-order.
pub open spec fn walk(t: SyntaxTree, l: Language, scope: Seq<char>, in_fn: bool, i: int) -> Seq<FoundView>
    decreases t.nodes@.len() - i, 1int, 0int,
{
    if 0 <= i < t.nodes@.len() {
        walk_here(t, l, scope, in_fn, i) + walk_children(
            t,
            l,
            inner_scope(t, l, scope, i),
            inner_in_fn(t, l, in_fn, i),
            i,
            0,
        )
    } else {
        Seq::empty()
    }
}

/// What walks of the children of `i`, from `k` on, find.
pub open spec fn walk_children(t: SyntaxTree, l: Language, scope: Seq<char>, in_fn: bool, i: int, k: int) -> Seq<FoundView>
    decreases t.nodes@.len() - i, 0int, t.child_count(i) - k,
{
    if 0 <= i < t.nodes@.len() && 0 <= k < t.child_count(i) {
        let here = if t.forward_child(i, k) {
            walk(t, l, scope, in_fn, t.child(i, k))
        } else {
            Seq::empty()
        };
        here + walk_children(t, l, scope, in_fn, i, k + 1)
    } else {
        Seq::empty()
    }
}

// ---------------------------------------------------------------------
// From found items to an abstract AST.
// ---------------------------------------------------------------------

/// A found call as a `FunctionCall` of module `m`.
pub open spec fn site_call(s: SiteView, m: Seq<char>) -> CallView {
    (s.0, if s.1 { Some(m) } else { None }, s.2)
}

pub open spec fn site_calls(ss: Seq<SiteView>, m: Seq<char>) -> Seq<CallView> {
    ss.map_values(|s: SiteView| site_call(s, m))
}

/// The index of the first definition named `<module>`, or -1.
pub open spec fn module_slot(ds: Seq<DefView>) -> int
    decreases ds.len(),
{
    if ds.len() == 0 {
        -1
    } else {
        let p = module_slot(ds.drop_last());
        if p >= 0 {
            p
        } else if ds.last().name == "<module>"@ {
            ds.len() - 1
        } else {
            -1
        }
    }
}

/// A definition of module `m` with the empty signature.
pub open spec fn plain_def(name: Seq<char>, calls: Seq<CallView>, m: Seq<char>) -> DefView {
    DefView { name, signature: empty_sig(), calls, module: m }
}

/// The functions that the found items of a walk make, for module `m`: each
/// declared function in turn, and one `<module>` function, placed where
/// module-scope calls first occur, that gathers all of them.
pub open spec fn assemble(fs: Seq<FoundView>, m: Seq<char>) -> Seq<DefView>
    decreases fs.len(),
{
    if fs.len() == 0 {
        Seq::empty()
    } else {
        let a = assemble(fs.drop_last(), m);
        let f = fs.last();
        if !f.0 {
            a.push(plain_def(f.1, site_calls(f.2, m), m))
        } else {
            let p = module_slot(a);
            if p >= 0 {
                a.update(p, DefView { calls: a[p].calls + site_calls(f.2, m), ..a[p] })
            } else {
                a.push(plain_def("<module>"@, site_calls(f.2, m), m))
            }
        }
    }
}

// ---------------------------------------------------------------------
// Name and call queries.
// ---------------------------------------------------------------------

/// The names of the free functions in the subtree of `i`, in pre-order.
pub open spec fn function_names(t: SyntaxTree, l: Language, i: int) -> Seq<Seq<char>>
    decreases t.nodes@.len() - i, 1int, 0int,
{
    if 0 <= i < t.nodes@.len() {
        let name = first_child_text(t, l, Pick::Identifier, i);
        let here = if named_function_kind(l, t.kind(i)) && name.len() > 0 {
            seq![name]
        } else {
            Seq::empty()
        };
        here + child_function_names(t, l, i, 0)
    } else {
        Seq::empty()
    }
}

/// The names of the free functions in the subtrees of the children of `i`, from `k` on.
pub open spec fn child_function_names(t: SyntaxTree, l: Language, i: int, k: int) -> Seq<Seq<char>>
    decreases t.nodes@.len() - i, 0int, t.child_count(i) - k,
{
    if 0 <= i < t.nodes@.len() && 0 <= k < t.child_count(i) {
        let here = if t.forward_child(i, k) {
            function_names(t, l, t.child(i, k))
        } else {
            Seq::empty()
        };
        here + child_function_names(t, l, i, k + 1)
    } else {
        Seq::empty()
    }
}

/// The target names of a list of call sites.
pub open spec fn site_names(ss: Seq<SiteView>) -> Seq<Seq<char>> {
    ss.map_values(|s: SiteView| s.0)
}

/// The abstract AST that a walk of the whole tree yields for module `m`.
pub open spec fn translation(t: SyntaxTree, l: Language, m: Seq<char>) -> Seq<DefView> {
    assemble(walk(t, l, Seq::empty(), false, 0), m)
}

} // verus!
