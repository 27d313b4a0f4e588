//! Walks over a syntax tree that compute what `extract` describes.
use vstd::prelude::*;
use vstd::string::*;

use crate::ast::{AbstractAST, DefView, FunctionCall, FunctionDef, Signature};
use crate::builder::{def_views, empty_sig};
use crate::extract::{
    FoundView, Pick, SiteView, args_kind, assemble, bindings, call_kind, callee_sites,
    child_function_names, child_sites, export_kind, first_child, first_child_text, function_kind,
    function_names, handler_param, has_export_target, ident_args, ident_children, inner_in_fn,
    inner_scope, member_kind, member_name_kind, method_of, module_slot, named_function_kind,
    own_sites, picks, route_args, route_method, scope_kind, self_word, separator, site_call,
    site_calls, site_names, sites, translation, walk, walk_children, walk_here,
};
use crate::language::Language;
use crate::syntax::SyntaxTree;
use crate::text::str_eq;

verus! {

/// A call site found in a tree.
#[derive(Debug)]
pub struct Site {
    pub name: String,
    /// Qualified by the containing scope: a call on the current object.
    pub scoped: bool,
    pub line: usize,
}

impl View for Site {
    type V = SiteView;

    open spec fn view(&self) -> SiteView {
        (self.name@, self.scoped, self.line)
    }
}

pub open spec fn site_views(s: Seq<Site>) -> Seq<SiteView> {
    s.map_values(|x: Site| x@)
}

/// A function found by a walk, or calls made at module scope.
#[derive(Debug)]
pub struct Found {
    pub module_level: bool,
    pub name: String,
    pub sites: Vec<Site>,
}

impl View for Found {
    type V = FoundView;

    open spec fn view(&self) -> FoundView {
        (self.module_level, self.name@, site_views(self.sites@))
    }
}

pub open spec fn found_views(s: Seq<Found>) -> Seq<FoundView> {
    s.map_values(|x: Found| x@)
}

fn push_site(out: &mut Vec<Site>, site: Site)
    ensures
        site_views(final(out)@) == site_views(old(out)@).push(site@),
{
    let ghost before = site_views(out@);
    out.push(site);
    assert(site_views(out@) =~= before.push(site@));
}

fn push_found(out: &mut Vec<Found>, f: Found)
    ensures
        found_views(final(out)@) == found_views(old(out)@).push(f@),
{
    let ghost before = found_views(out@);
    out.push(f);
    assert(found_views(out@) =~= before.push(f@));
}

fn is_call_kind(l: Language, k: &str) -> (r: bool)
    ensures
        r == call_kind(l, k@),
{
    match l {
        Language::Python => str_eq(k, "call"),
        _ => str_eq(k, "call_expression"),
    }
}

fn is_member_kind(l: Language, k: &str) -> (r: bool)
    ensures
        r == member_kind(l, k@),
{
    match l {
        Language::Rust => str_eq(k, "field_expression"),
        Language::Python => str_eq(k, "attribute"),
        Language::JavaScript => str_eq(k, "member_expression"),
    }
}

fn is_member_name_kind(l: Language, k: &str) -> (r: bool)
    ensures
        r == member_name_kind(l, k@),
{
    match l {
        Language::Rust => str_eq(k, "field_identifier"),
        Language::Python => str_eq(k, "identifier"),
        Language::JavaScript => str_eq(k, "property_identifier"),
    }
}

fn self_word_of(l: Language) -> (r: &'static str)
    ensures
        r@ == self_word(l),
{
    match l {
        Language::JavaScript => "this",
        _ => "self",
    }
}

fn separator_of(l: Language) -> (r: &'static str)
    ensures
        r@ == separator(l),
{
    match l {
        Language::Rust => "::",
        _ => ".",
    }
}

fn is_args_kind(l: Language, k: &str) -> (r: bool)
    ensures
        r == args_kind(l, k@),
{
    match l {
        Language::Python => str_eq(k, "argument_list"),
        _ => str_eq(k, "arguments"),
    }
}

fn is_route_method(m: &str) -> (r: bool)
    ensures
        r == route_method(m@),
{
    str_eq(m, "get") || str_eq(m, "post") || str_eq(m, "put") || str_eq(m, "delete") || str_eq(
        m,
        "patch",
    ) || str_eq(m, "use") || str_eq(m, "all") || str_eq(m, "route") || str_eq(m, "service")
        || str_eq(m, "to") || str_eq(m, "middleware") || str_eq(m, "guard") || str_eq(
        m,
        "add_url_rule",
    ) || str_eq(m, "register_error_handler") || str_eq(m, "register_blueprint") || str_eq(
        m,
        "before_request",
    ) || str_eq(m, "after_request")
}

fn is_handler_param(m: &str) -> (r: bool)
    ensures
        r == handler_param(m@),
{
    str_eq(m, "req") || str_eq(m, "res") || str_eq(m, "next") || str_eq(m, "err")
}

fn is_scope_kind(l: Language, k: &str) -> (r: bool)
    ensures
        r == scope_kind(l, k@),
{
    match l {
        Language::Rust => str_eq(k, "impl_item"),
        Language::Python => str_eq(k, "class_definition"),
        Language::JavaScript => str_eq(k, "class_declaration") || str_eq(k, "class"),
    }
}

pub(crate) fn is_function_kind(l: Language, k: &str) -> (r: bool)
    ensures
        r == function_kind(l, k@),
{
    match l {
        Language::Rust => str_eq(k, "function_item"),
        Language::Python => str_eq(k, "function_definition"),
        Language::JavaScript => str_eq(k, "function_declaration") || str_eq(k, "function")
            || str_eq(k, "method_definition"),
    }
}

pub(crate) fn is_named_function_kind(l: Language, k: &str) -> (r: bool)
    ensures
        r == named_function_kind(l, k@),
{
    match l {
        Language::JavaScript => str_eq(k, "function_declaration") || str_eq(k, "function"),
        _ => is_function_kind(l, k),
    }
}

fn picks_kind(l: Language, p: Pick, pk: &str, k: &str) -> (r: bool)
    ensures
        r == picks(l, p, pk@, k@),
{
    match p {
        Pick::Identifier => str_eq(k, "identifier"),
        Pick::Arrow => str_eq(k, "arrow_function"),
        Pick::ScopeName => match l {
            Language::Rust => str_eq(k, "type_identifier") || str_eq(k, "identifier"),
            _ => str_eq(k, "identifier"),
        },
        Pick::FunctionName => {
            if l == Language::JavaScript && str_eq(pk, "method_definition") {
                str_eq(k, "property_identifier")
            } else {
                str_eq(k, "identifier")
            }
        },
    }
}

/// Child `k` of node `i`, when it comes after `i` within the tree.
fn forward(t: &SyntaxTree, i: usize, k: usize) -> (r: Option<usize>)
    requires
        i < t.nodes@.len(),
    ensures
        match r {
            Some(c) => t.forward_child(i as int, k as int) && c == t.child(i as int, k as int),
            None => !t.forward_child(i as int, k as int),
        },
{
    if k < t.nodes[i].children.len() {
        let c = t.nodes[i].children[k];
        if i < c && c < t.nodes.len() {
            return Some(c);
        }
    }
    None
}

/// The first child of `i` that `p` picks.
pub(crate) fn find_child(t: &SyntaxTree, l: Language, p: Pick, i: usize) -> (r: Option<usize>)
    requires
        i < t.nodes@.len(),
    ensures
        match r {
            Some(c) => c == first_child(*t, l, p, i as int, 0) && c < t.nodes@.len(),
            None => first_child(*t, l, p, i as int, 0) == -1,
        },
{
    let n = t.nodes[i].children.len();
    let mut k: usize = 0;
    while k < n
        invariant
            i < t.nodes@.len(),
            n == t.child_count(i as int),
            k <= n,
            first_child(*t, l, p, i as int, 0) == first_child(*t, l, p, i as int, k as int),
        decreases n - k,
    {
        match forward(t, i, k) {
            Some(c) => {
                if picks_kind(l, p, t.nodes[i].kind.as_str(), t.nodes[c].kind.as_str()) {
                    return Some(c);
                }
            },
            None => {},
        }
        k = k + 1;
    }
    None
}

/// The text of the first child of `i` that `p` picks; empty if none.
pub(crate) fn find_child_text(t: &SyntaxTree, l: Language, p: Pick, i: usize) -> (r: String)
    requires
        i < t.nodes@.len(),
    ensures
        r@ == first_child_text(*t, l, p, i as int),
{
    match find_child(t, l, p, i) {
        Some(c) => t.nodes[c].text.clone(),
        None => String::new(),
    }
}

/// The method name of member access `c`.
fn method_name(t: &SyntaxTree, l: Language, c: usize) -> (r: Option<String>)
    requires
        c < t.nodes@.len(),
    ensures
        match r {
            Some(m) => method_of(*t, l, c as int) == Some(m@),
            None => method_of(*t, l, c as int) is None,
        },
{
    let n = t.nodes[c].children.len();
    if n == 0 {
        return None;
    }
    match forward(t, c, n - 1) {
        Some(m) => {
            if is_member_name_kind(l, t.nodes[m].kind.as_str()) {
                Some(t.nodes[m].text.clone())
            } else {
                None
            }
        },
        None => None,
    }
}

fn callee_sites_into(t: &SyntaxTree, l: Language, scope: &str, c: usize, line: usize, out: &mut Vec<Site>)
    requires
        c < t.nodes@.len(),
    ensures
        site_views(final(out)@) == site_views(old(out)@) + callee_sites(*t, l, scope@, c as int, line),
{
    let ghost start = site_views(out@);
    if str_eq(t.nodes[c].kind.as_str(), "identifier") {
        push_site(out, Site { name: t.nodes[c].text.clone(), scoped: false, line });
        assert(site_views(out@) =~= start + callee_sites(*t, l, scope@, c as int, line));
        return;
    }
    if is_member_kind(l, t.nodes[c].kind.as_str()) && t.nodes[c].children.len() > 0 {
        match forward(t, c, 0) {
            Some(o) => match method_name(t, l, c) {
                Some(m) => {
                    if str_eq(t.nodes[o].text.as_str(), self_word_of(l)) && scope.unicode_len() > 0 {
                        let mut name = String::from_str(scope);
                        name.append(separator_of(l));
                        name.append(m.as_str());
                        push_site(out, Site { name, scoped: true, line });
                    } else {
                        push_site(out, Site { name: m, scoped: false, line });
                    }
                    assert(site_views(out@) =~= start + callee_sites(*t, l, scope@, c as int, line));
                    return;
                },
                None => {},
            },
            None => {},
        }
    }
    assert(site_views(out@) =~= start + callee_sites(*t, l, scope@, c as int, line));
}

fn ident_args_into(t: &SyntaxTree, a: usize, out: &mut Vec<Site>)
    requires
        a < t.nodes@.len(),
    ensures
        site_views(final(out)@) == site_views(old(out)@) + ident_args(*t, a as int, 0),
{
    let ghost start = site_views(out@);
    let n = t.nodes[a].children.len();
    let mut j: usize = 0;
    while j < n
        invariant
            a < t.nodes@.len(),
            n == t.child_count(a as int),
            j <= n,
            start + ident_args(*t, a as int, 0) == site_views(out@) + ident_args(*t, a as int, j as int),
        decreases n - j,
    {
        let ghost before = site_views(out@);
        match forward(t, a, j) {
            Some(c) => {
                if str_eq(t.nodes[c].kind.as_str(), "identifier") && !is_handler_param(
                    t.nodes[c].text.as_str(),
                ) {
                    push_site(out, Site { name: t.nodes[c].text.clone(), scoped: false, line: t.nodes[c].line });
                }
            },
            None => {},
        }
        proof {
            let rest = ident_args(*t, a as int, j + 1);
            assert(site_views(out@) + rest =~= before + ident_args(*t, a as int, j as int));
        }
        j = j + 1;
    }
    assert(site_views(out@) =~= start + ident_args(*t, a as int, 0));
}

fn route_args_into(t: &SyntaxTree, l: Language, i: usize, out: &mut Vec<Site>)
    requires
        i < t.nodes@.len(),
    ensures
        site_views(final(out)@) == site_views(old(out)@) + route_args(*t, l, i as int, 0),
{
    let ghost start = site_views(out@);
    let n = t.nodes[i].children.len();
    let mut k: usize = 0;
    while k < n
        invariant
            i < t.nodes@.len(),
            n == t.child_count(i as int),
            k <= n,
            start + route_args(*t, l, i as int, 0) == site_views(out@) + route_args(*t, l, i as int, k as int),
        decreases n - k,
    {
        let ghost before = site_views(out@);
        match forward(t, i, k) {
            Some(c) => {
                if is_args_kind(l, t.nodes[c].kind.as_str()) {
                    ident_args_into(t, c, out);
                }
            },
            None => {},
        }
        proof {
            let rest = route_args(*t, l, i as int, k + 1);
            assert(site_views(out@) + rest =~= before + route_args(*t, l, i as int, k as int));
        }
        k = k + 1;
    }
    assert(site_views(out@) =~= start + route_args(*t, l, i as int, 0));
}

fn export_target_present(t: &SyntaxTree, i: usize) -> (r: bool)
    requires
        i < t.nodes@.len(),
    ensures
        r == has_export_target(*t, i as int, 0),
{
    let n = t.nodes[i].children.len();
    let mut k: usize = 0;
    while k < n
        invariant
            i < t.nodes@.len(),
            n == t.child_count(i as int),
            k <= n,
            has_export_target(*t, i as int, 0) == has_export_target(*t, i as int, k as int),
        decreases n - k,
    {
        match forward(t, i, k) {
            Some(c) => {
                if str_eq(t.nodes[c].kind.as_str(), "member_expression") && str_eq(
                    t.nodes[c].text.as_str(),
                    "module.exports",
                ) {
                    return true;
                }
            },
            None => {},
        }
        k = k + 1;
    }
    false
}

fn ident_children_into(t: &SyntaxTree, i: usize, out: &mut Vec<Site>)
    requires
        i < t.nodes@.len(),
    ensures
        site_views(final(out)@) == site_views(old(out)@) + ident_children(*t, i as int, 0),
{
    let ghost start = site_views(out@);
    let n = t.nodes[i].children.len();
    let mut k: usize = 0;
    while k < n
        invariant
            i < t.nodes@.len(),
            n == t.child_count(i as int),
            k <= n,
            start + ident_children(*t, i as int, 0) == site_views(out@) + ident_children(*t, i as int, k as int),
        decreases n - k,
    {
        let ghost before = site_views(out@);
        match forward(t, i, k) {
            Some(c) => {
                if str_eq(t.nodes[c].kind.as_str(), "identifier") {
                    push_site(out, Site { name: t.nodes[c].text.clone(), scoped: false, line: t.nodes[c].line });
                }
            },
            None => {},
        }
        proof {
            let rest = ident_children(*t, i as int, k + 1);
            assert(site_views(out@) + rest =~= before + ident_children(*t, i as int, k as int));
        }
        k = k + 1;
    }
    assert(site_views(out@) =~= start + ident_children(*t, i as int, 0));
}

fn is_export_kind(l: Language, k: &str) -> (r: bool)
    ensures
        r == export_kind(l, k@),
{
    l == Language::JavaScript && str_eq(k, "assignment_expression")
}

fn own_sites_into(t: &SyntaxTree, l: Language, scope: &str, i: usize, out: &mut Vec<Site>)
    requires
        i < t.nodes@.len(),
    ensures
        site_views(final(out)@) == site_views(old(out)@) + own_sites(*t, l, scope@, i as int),
{
    let ghost start = site_views(out@);
    if is_call_kind(l, t.nodes[i].kind.as_str()) && t.nodes[i].children.len() > 0 {
        match forward(t, i, 0) {
            Some(c) => {
                callee_sites_into(t, l, scope, c, t.nodes[i].line, out);
                if is_member_kind(l, t.nodes[c].kind.as_str()) {
                    match method_name(t, l, c) {
                        Some(m) => {
                            if is_route_method(m.as_str()) {
                                route_args_into(t, l, i, out);
                            }
                        },
                        None => {},
                    }
                }
                assert(site_views(out@) =~= start + own_sites(*t, l, scope@, i as int));
                return;
            },
            None => {},
        }
    }
    if is_export_kind(l, t.nodes[i].kind.as_str()) && export_target_present(t, i) {
        ident_children_into(t, i, out);
    }
    assert(site_views(out@) =~= start + own_sites(*t, l, scope@, i as int));
}

/// Appends the calls in the subtree of `i`, in pre-order.
pub(crate) fn sites_into(t: &SyntaxTree, l: Language, scope: &str, i: usize, out: &mut Vec<Site>)
    requires
        i < t.nodes@.len(),
    ensures
        site_views(final(out)@) == site_views(old(out)@) + sites(*t, l, scope@, i as int),
    decreases t.nodes@.len() - i, 1int,
{
    let ghost start = site_views(out@);
    own_sites_into(t, l, scope, i, out);
    child_sites_into(t, l, scope, i, out);
    assert(site_views(out@) =~= start + sites(*t, l, scope@, i as int));
}

/// Appends the calls in the subtrees of the children of `i`.
pub(crate) fn child_sites_into(t: &SyntaxTree, l: Language, scope: &str, i: usize, out: &mut Vec<Site>)
    requires
        i < t.nodes@.len(),
    ensures
        site_views(final(out)@) == site_views(old(out)@) + child_sites(*t, l, scope@, i as int, 0),
    decreases t.nodes@.len() - i, 0int,
{
    let ghost start = site_views(out@);
    let n = t.nodes[i].children.len();
    let mut k: usize = 0;
    while k < n
        invariant
            i < t.nodes@.len(),
            n == t.child_count(i as int),
            k <= n,
            start + child_sites(*t, l, scope@, i as int, 0) == site_views(out@) + child_sites(
                *t,
                l,
                scope@,
                i as int,
                k as int,
            ),
        decreases n - k,
    {
        let ghost before = site_views(out@);
        match forward(t, i, k) {
            Some(c) => {
                sites_into(t, l, scope, c, out);
            },
            None => {},
        }
        proof {
            let rest = child_sites(*t, l, scope@, i as int, k + 1);
            assert(site_views(out@) + rest =~= before + child_sites(*t, l, scope@, i as int, k as int));
        }
        k = k + 1;
    }
    assert(site_views(out@) =~= start + child_sites(*t, l, scope@, i as int, 0));
}

fn bindings_into(t: &SyntaxTree, l: Language, i: usize, out: &mut Vec<Found>)
    requires
        i < t.nodes@.len(),
    ensures
        found_views(final(out)@) == found_views(old(out)@) + bindings(*t, l, i as int, 0),
{
    let ghost start = found_views(out@);
    let n = t.nodes[i].children.len();
    let mut k: usize = 0;
    while k < n
        invariant
            i < t.nodes@.len(),
            n == t.child_count(i as int),
            k <= n,
            start + bindings(*t, l, i as int, 0) == found_views(out@) + bindings(*t, l, i as int, k as int),
        decreases n - k,
    {
        let ghost before = found_views(out@);
        match forward(t, i, k) {
            Some(d) => {
                if str_eq(t.nodes[d].kind.as_str(), "variable_declarator") {
                    let name = find_child_text(t, l, Pick::Identifier, d);
                    match find_child(t, l, Pick::Arrow, d) {
                        Some(a) => {
                            if name.unicode_len() > 0 {
                                let mut found: Vec<Site> = Vec::new();
                                child_sites_into(t, l, "", a, &mut found);
                                assert(site_views(found@) =~= child_sites(*t, l, ""@, a as int, 0));
                                proof {
                                    reveal_strlit(""); assert(""@ =~= Seq::<char>::empty());
                                }
                                push_found(out, Found { module_level: false, name, sites: found });
                            }
                        },
                        None => {},
                    }
                }
            },
            None => {},
        }
        proof {
            reveal_strlit(""); assert(""@ =~= Seq::<char>::empty());
            let rest = bindings(*t, l, i as int, k + 1);
            assert(found_views(out@) + rest =~= before + bindings(*t, l, i as int, k as int));
        }
        k = k + 1;
    }
    assert(found_views(out@) =~= start + bindings(*t, l, i as int, 0));
}

fn qualify_name(l: Language, scope: &str, name: String) -> (r: String)
    ensures
        r@ == crate::extract::qualify(l, scope@, name@),
{
    if scope.unicode_len() == 0 {
        name
    } else {
        let mut s = String::from_str(scope);
        s.append(separator_of(l));
        s.append(name.as_str());
        s
    }
}

/// Appends what a walk of the subtree of `i` finds.
pub(crate) fn walk_into(t: &SyntaxTree, l: Language, scope: &str, in_fn: bool, i: usize, out: &mut Vec<Found>)
    requires
        i < t.nodes@.len(),
    ensures
        found_views(final(out)@) == found_views(old(out)@) + walk(*t, l, scope@, in_fn, i as int),
    decreases t.nodes@.len() - i,
{
    let ghost start = found_views(out@);
    let kind = t.nodes[i].kind.as_str();
    let mut inner = String::from_str(scope);
    let mut inner_fn = in_fn;
    if is_scope_kind(l, kind) {
        inner = find_child_text(t, l, Pick::ScopeName, i);
    } else {
        if is_function_kind(l, kind) {
            inner_fn = true;
            let name = find_child_text(t, l, Pick::FunctionName, i);
            if name.unicode_len() > 0 {
                let mut found: Vec<Site> = Vec::new();
                child_sites_into(t, l, scope, i, &mut found);
                assert(site_views(found@) =~= child_sites(*t, l, scope@, i as int, 0));
                let name = qualify_name(l, scope, name);
                push_found(out, Found { module_level: false, name, sites: found });
            }
        } else if l == Language::JavaScript && (str_eq(kind, "variable_declaration") || str_eq(
            kind,
            "lexical_declaration",
        )) && scope.unicode_len() == 0 && !in_fn {
            bindings_into(t, l, i, out);
        } else if str_eq(kind, "expression_statement") && scope.unicode_len() == 0 && !in_fn {
            let mut found: Vec<Site> = Vec::new();
            sites_into(t, l, "", i, &mut found);
            proof {
                reveal_strlit(""); assert(""@ =~= Seq::<char>::empty());
                assert(site_views(found@) =~= sites(*t, l, Seq::empty(), i as int));
            }
            if found.len() > 0 {
                push_found(out, Found { module_level: true, name: String::new(), sites: found });
            }
        }
    }
    if !is_scope_kind(l, kind) && l == Language::JavaScript && str_eq(kind, "arrow_function") {
        inner_fn = true;
    }
    let ghost mid = found_views(out@);
    assert(mid =~= start + walk_here(*t, l, scope@, in_fn, i as int));
    assert(inner@ == inner_scope(*t, l, scope@, i as int));
    assert(inner_fn == inner_in_fn(*t, l, in_fn, i as int));
    let n = t.nodes[i].children.len();
    let mut k: usize = 0;
    while k < n
        invariant
            i < t.nodes@.len(),
            n == t.child_count(i as int),
            k <= n,
            mid + walk_children(*t, l, inner@, inner_fn, i as int, 0) == found_views(out@) + walk_children(
                *t,
                l,
                inner@,
                inner_fn,
                i as int,
                k as int,
            ),
        decreases n - k,
    {
        let ghost before = found_views(out@);
        match forward(t, i, k) {
            Some(c) => {
                walk_into(t, l, inner.as_str(), inner_fn, c, out);
            },
            None => {},
        }
        proof {
            let rest = walk_children(*t, l, inner@, inner_fn, i as int, k + 1);
            assert(found_views(out@) + rest =~= before + walk_children(*t, l, inner@, inner_fn, i as int, k as int));
        }
        k = k + 1;
    }
    assert(found_views(out@) =~= mid + walk_children(*t, l, inner@, inner_fn, i as int, 0));
    assert(found_views(out@) =~= start + walk(*t, l, scope@, in_fn, i as int));
}

/// What `module_slot` finds: the first definition named `<module>`.
proof fn lemma_module_slot(ds: Seq<DefView>)
    ensures
        module_slot(ds) == -1 ==> forall|j: int| 0 <= j < ds.len() ==> ds[j].name != "<module>"@,
        module_slot(ds) != -1 ==> 0 <= module_slot(ds) < ds.len() && ds[module_slot(ds)].name
            == "<module>"@ && forall|j: int| 0 <= j < module_slot(ds) ==> ds[j].name != "<module>"@,
    decreases ds.len(),
{
    if ds.len() > 0 {
        lemma_module_slot(ds.drop_last());
        assert forall|j: int| 0 <= j < ds.len() - 1 implies ds[j] == ds.drop_last()[j] by {}
    }
}

/// The index of the first function named `<module>`.
fn find_module_slot(fs: &Vec<FunctionDef>) -> (r: Option<usize>)
    ensures
        match r {
            Some(p) => p as int == module_slot(def_views(fs@)) && p < fs@.len(),
            None => module_slot(def_views(fs@)) == -1,
        },
{
    proof {
        lemma_module_slot(def_views(fs@));
    }
    let mut j: usize = 0;
    while j < fs.len()
        invariant
            j <= fs@.len(),
            forall|q: int| 0 <= q < j ==> def_views(fs@)[q].name != "<module>"@,
        decreases fs@.len() - j,
    {
        if str_eq(fs[j].name.as_str(), "<module>") {
            proof {
                lemma_module_slot(def_views(fs@));
                let p = module_slot(def_views(fs@));
                assert(def_views(fs@)[j as int].name == "<module>"@);
                if p != -1 {
                    assert(!(p < j));
                    assert(!(j < p));
                }
            }
            return Some(j);
        }
        j = j + 1;
    }
    proof {
        let p = module_slot(def_views(fs@));
        if p != -1 {
            assert(def_views(fs@)[p].name != "<module>"@);
        }
    }
    None
}

fn site_to_call(site: &Site, module: &str) -> (r: FunctionCall)
    ensures
        r@ == site_call(site@, module@),
{
    let m = if site.scoped {
        Some(String::from_str(module))
    } else {
        None
    };
    FunctionCall::new(site.name.clone(), m, site.line)
}

/// Add the calls for `sites` to `f`.
fn add_sites(f: &mut FunctionDef, sites: &Vec<Site>, module: &str)
    ensures
        final(f)@ == (DefView { calls: old(f)@.calls + site_calls(site_views(sites@), module@), ..old(f)@ }),
{
    let ghost start = f@;
    let mut k: usize = 0;
    while k < sites.len()
        invariant
            k <= sites@.len(),
            f@ == (DefView { calls: start.calls + site_calls(site_views(sites@), module@).subrange(0, k as int), ..start }),
        decreases sites@.len() - k,
    {
        f.add_call(site_to_call(&sites[k], module));
        proof {
            let all = site_calls(site_views(sites@), module@);
            assert(all.subrange(0, k + 1) =~= all.subrange(0, k as int).push(all[k as int]));
            assert(start.calls + all.subrange(0, k + 1) =~= (start.calls + all.subrange(0, k as int)).push(all[k as int]));
        }
        k = k + 1;
    }
    assert(site_calls(site_views(sites@), module@).subrange(0, k as int) =~= site_calls(site_views(sites@), module@));
}

/// The abstract AST of module `module` that the found items make.
pub(crate) fn assemble_ast(found: &Vec<Found>, module: &str) -> (r: AbstractAST)
    ensures
        r.module@ == module@,
        def_views(r.functions@) == assemble(found_views(found@), module@),
{
    let mut ast = AbstractAST::new(String::from_str(module));
    proof {
        assert(def_views(ast.functions@) =~= assemble(found_views(found@).subrange(0, 0), module@));
    }
    let mut i: usize = 0;
    while i < found.len()
        invariant
            i <= found@.len(),
            ast.module@ == module@,
            def_views(ast.functions@) == assemble(found_views(found@).subrange(0, i as int), module@),
        decreases found@.len() - i,
    {
        let ghost before = def_views(ast.functions@);
        let f = &found[i];
        proof {
            let sub = found_views(found@).subrange(0, i + 1);
            assert(sub.drop_last() =~= found_views(found@).subrange(0, i as int));
            assert(sub.last() == f@);
        }
        if !f.module_level {
            let mut d = FunctionDef::new(f.name.clone(), Signature::empty(), String::from_str(module));
            add_sites(&mut d, &f.sites, module);
            ast.add_function(d);
            proof {
                assert(d@.signature =~= empty_sig());
                assert(d@.calls =~= site_calls(f@.2, module@));
                assert(def_views(ast.functions@) =~= before.push(d@));
            }
        } else {
            match find_module_slot(&ast.functions) {
                Some(p) => {
                    let mut d = ast.functions.remove(p);
                    let ghost mid = ast.functions@;
                    add_sites(&mut d, &f.sites, module);
                    ast.functions.insert(p, d);
                    proof {
                        assert(def_views(ast.functions@) =~= before.update(p as int, DefView { calls: before[p as int].calls + site_calls(f@.2, module@), ..before[p as int] }));
                    }
                },
                None => {
                    let mut d = FunctionDef::new(String::from_str("<module>"), Signature::empty(), String::from_str(module));
                    add_sites(&mut d, &f.sites, module);
                    ast.add_function(d);
                    proof {
                        assert(d@.signature =~= empty_sig());
                        assert(d@.calls =~= site_calls(f@.2, module@));
                        assert(def_views(ast.functions@) =~= before.push(d@));
                    }
                },
            }
        }
        i = i + 1;
    }
    assert(found_views(found@).subrange(0, i as int) =~= found_views(found@));
    ast
}

fn names_into(t: &SyntaxTree, l: Language, i: usize, out: &mut Vec<String>)
    requires
        i < t.nodes@.len(),
    ensures
        crate::traversal::texts(final(out)@) == crate::traversal::texts(old(out)@) + function_names(*t, l, i as int),
    decreases t.nodes@.len() - i,
{
    let ghost start = crate::traversal::texts(out@);
    if is_named_function_kind(l, t.nodes[i].kind.as_str()) {
        let name = find_child_text(t, l, Pick::Identifier, i);
        if name.unicode_len() > 0 {
            out.push(name);
        }
    }
    let ghost mid = crate::traversal::texts(out@);
    assert(mid =~= start + (function_names(*t, l, i as int).subrange(0, mid.len() - start.len()))) by {
        assert(function_names(*t, l, i as int) == (if named_function_kind(l, t.kind(i as int))
            && first_child_text(*t, l, Pick::Identifier, i as int).len() > 0 {
            seq![first_child_text(*t, l, Pick::Identifier, i as int)]
        } else {
            Seq::empty()
        }) + child_function_names(*t, l, i as int, 0));
    }
    let n = t.nodes[i].children.len();
    let mut k: usize = 0;
    while k < n
        invariant
            i < t.nodes@.len(),
            n == t.child_count(i as int),
            k <= n,
            mid + child_function_names(*t, l, i as int, 0) == crate::traversal::texts(out@) + child_function_names(*t, l, i as int, k as int),
        decreases n - k,
    {
        let ghost before = crate::traversal::texts(out@);
        match forward(t, i, k) {
            Some(c) => names_into(t, l, c, out),
            None => {},
        }
        proof {
            let rest = child_function_names(*t, l, i as int, k + 1);
            assert(crate::traversal::texts(out@) + rest =~= before + child_function_names(*t, l, i as int, k as int));
        }
        k = k + 1;
    }
    assert(crate::traversal::texts(out@) =~= start + function_names(*t, l, i as int));
}

/// The names of the free functions of the tree, in pre-order.
pub(crate) fn tree_function_names(t: &SyntaxTree, l: Language) -> (r: Vec<String>)
    ensures
        crate::traversal::texts(r@) == function_names(*t, l, 0),
{
    let mut out: Vec<String> = Vec::new();
    if t.nodes.len() > 0 {
        names_into(t, l, 0, &mut out);
    }
    assert(crate::traversal::texts(out@) =~= function_names(*t, l, 0));
    out
}

/// The target names of all calls in the tree, in pre-order.
pub(crate) fn tree_call_names(t: &SyntaxTree, l: Language) -> (r: Vec<String>)
    ensures
        crate::traversal::texts(r@) == site_names(sites(*t, l, Seq::empty(), 0)),
{
    let mut found: Vec<Site> = Vec::new();
    if t.nodes.len() > 0 {
        sites_into(t, l, "", 0, &mut found);
    }
    proof {
        reveal_strlit("");
        assert(""@ =~= Seq::<char>::empty());
        assert(site_views(found@) =~= sites(*t, l, Seq::empty(), 0));
    }
    let mut out: Vec<String> = Vec::new();
    let mut k: usize = 0;
    while k < found.len()
        invariant
            k <= found@.len(),
            crate::traversal::texts(out@) == site_names(site_views(found@)).subrange(0, k as int),
        decreases found@.len() - k,
    {
        let ghost before = crate::traversal::texts(out@);
        out.push(found[k].name.clone());
        assert(crate::traversal::texts(out@) =~= before.push(found@[k as int].name@));
        assert(site_names(site_views(found@))[k as int] == found@[k as int].name@);
        assert(crate::traversal::texts(out@) =~= site_names(site_views(found@)).subrange(0, k + 1));
        k = k + 1;
    }
    assert(site_names(site_views(found@)).subrange(0, k as int) =~= site_names(site_views(found@)));
    out
}

/// The abstract AST of module `module` that a walk of the whole tree yields.
pub(crate) fn translate_tree(t: &SyntaxTree, l: Language, module: &str) -> (r: AbstractAST)
    ensures
        r.module@ == module@,
        def_views(r.functions@) == translation(*t, l, module@),
{
    let mut found: Vec<Found> = Vec::new();
    if t.nodes.len() > 0 {
        walk_into(t, l, "", false, 0, &mut found);
    }
    proof {
        reveal_strlit("");
        assert(""@ =~= Seq::<char>::empty());
        assert(found_views(found@) =~= walk(*t, l, Seq::empty(), false, 0));
    }
    assemble_ast(&found, module)
}

} // verus!
