use vstd::prelude::*;
use vstd::string::*;

use crate::function_id::{FunctionId, generate_id, id_text};
use crate::text::str_eq;

verus! {

/// Function signature with parameters and return type.
#[derive(Debug, Clone, PartialEq, Eq)]
pub struct Signature {
    /// Parameters as (name, type) pairs, in declaration order.
    pub params: Vec<(String, String)>,
    pub return_type: String,
}

/// The texts of a parameter list.
pub open spec fn param_views(ps: Seq<(String, String)>) -> Seq<(Seq<char>, Seq<char>)> {
    ps.map_values(|p: (String, String)| (p.0@, p.1@))
}

/// `name: type` for one parameter.
pub open spec fn param_text(p: (Seq<char>, Seq<char>)) -> Seq<char> {
    p.0 + ": "@ + p.1
}

/// The parameters joined by `, `.
pub open spec fn params_text(ps: Seq<(Seq<char>, Seq<char>)>) -> Seq<char>
    decreases ps.len(),
{
    if ps.len() == 0 {
        Seq::empty()
    } else if ps.len() == 1 {
        param_text(ps[0])
    } else {
        params_text(ps.drop_last()) + ", "@ + param_text(ps.last())
    }
}

/// `(name1: type1, name2: type2, ...) -> return`.
pub open spec fn signature_text(ps: Seq<(Seq<char>, Seq<char>)>, ret: Seq<char>) -> Seq<char> {
    "("@ + params_text(ps) + ") -> "@ + ret
}

impl View for Signature {
    type V = (Seq<(Seq<char>, Seq<char>)>, Seq<char>);

    open spec fn view(&self) -> Self::V {
        (param_views(self.params@), self.return_type@)
    }
}

/// The canonical text of a signature's view.
pub open spec fn sig_text(s: (Seq<(Seq<char>, Seq<char>)>, Seq<char>)) -> Seq<char> {
    signature_text(s.0, s.1)
}

impl Signature {
    pub fn new(params: Vec<(String, String)>, return_type: String) -> (r: Self)
        ensures
            r.params@ == params@,
            r@ == (param_views(params@), return_type@),
    {
        Signature { params, return_type }
    }

    /// The signature of a function with no parameters returning `()`.
    pub fn empty() -> (r: Self)
        ensures
            r@.0.len() == 0,
            r@.1 == "()"@,
    {
        let r = Signature { params: Vec::new(), return_type: String::from_str("()") };
        assert(r@.0 =~= Seq::<(Seq<char>, Seq<char>)>::empty());
        r
    }

    /// A copy with the same parameters and return type.
    pub fn duplicate(&self) -> (r: Self)
        ensures
            r@ == self@,
    {
        let mut params: Vec<(String, String)> = Vec::new();
        let mut i: usize = 0;
        while i < self.params.len()
            invariant
                i <= self.params@.len(),
                param_views(params@) == param_views(self.params@).subrange(0, i as int),
            decreases self.params@.len() - i,
        {
            let ghost before = param_views(params@);
            params.push((self.params[i].0.clone(), self.params[i].1.clone()));
            assert(param_views(params@) =~= before.push(param_views(self.params@)[i as int]));
            assert(param_views(self.params@).subrange(0, i + 1) =~= param_views(self.params@).subrange(0, i as int).push(param_views(self.params@)[i as int]));
            i = i + 1;
        }
        assert(param_views(self.params@).subrange(0, i as int) =~= param_views(self.params@));
        Signature { params, return_type: self.return_type.clone() }
    }

    /// The signature's canonical text.
    pub fn to_text(&self) -> (r: String)
        ensures
            r@ == sig_text(self@),
    {
        let mut s = String::from_str("(");
        let mut i: usize = 0;
        while i < self.params.len()
            invariant
                i <= self.params@.len(),
                s@ == "("@ + params_text(param_views(self.params@).subrange(0, i as int)),
            decreases self.params@.len() - i,
        {
            let ghost prev = param_views(self.params@).subrange(0, i as int);
            if i > 0 {
                s.append(", ");
            }
            s.append(self.params[i].0.as_str());
            s.append(": ");
            s.append(self.params[i].1.as_str());
            proof {
                let next = param_views(self.params@).subrange(0, i + 1);
                assert(next.drop_last() =~= prev);
                assert(next.last() == param_views(self.params@)[i as int]);
                if i == 0 {
                    assert(prev.len() == 0);
                }
            }
            i = i + 1;
        }
        assert(param_views(self.params@).subrange(0, i as int) =~= param_views(self.params@));
        s.append(") -> ");
        s.append(self.return_type.as_str());
        s
    }
}

/// A function call within another function.
#[derive(Debug, Clone, PartialEq, Eq)]
pub struct FunctionCall {
    pub target_name: String,
    /// `None` when the call is unresolved and may be external.
    pub target_module: Option<String>,
    pub line: usize,
}

/// A call's target name, target module and line.
pub type CallView = (Seq<char>, Option<Seq<char>>, usize);

/// The text of an optional string.
pub open spec fn opt_view(o: Option<String>) -> Option<Seq<char>> {
    match o {
        Some(s) => Some(s@),
        None => None,
    }
}

impl View for FunctionCall {
    type V = CallView;

    open spec fn view(&self) -> CallView {
        (self.target_name@, opt_view(self.target_module), self.line)
    }
}

/// The views of a list of calls.
pub open spec fn call_views(cs: Seq<FunctionCall>) -> Seq<CallView> {
    cs.map_values(|c: FunctionCall| c@)
}

impl FunctionCall {
    /// A copy with the same target and line.
    pub fn duplicate(&self) -> (r: Self)
        ensures
            r@ == self@,
    {
        let target_module = match &self.target_module {
            Some(m) => Some(m.clone()),
            None => None,
        };
        FunctionCall { target_name: self.target_name.clone(), target_module, line: self.line }
    }

    pub fn new(target_name: String, target_module: Option<String>, line: usize) -> (r: Self)
        ensures
            r@ == (target_name@, opt_view(target_module), line),
    {
        FunctionCall { target_name, target_module, line }
    }
}

/// A function definition extracted from source code.
#[derive(Debug, Clone, PartialEq, Eq)]
pub struct FunctionDef {
    pub name: String,
    pub signature: Signature,
    pub calls: Vec<FunctionCall>,
    pub module: String,
}

/// A definition's name, signature, calls and module, as plain values.
pub struct DefView {
    pub name: Seq<char>,
    pub signature: (Seq<(Seq<char>, Seq<char>)>, Seq<char>),
    pub calls: Seq<CallView>,
    pub module: Seq<char>,
}

impl DefView {
    /// The identifier text of the definition.
    pub open spec fn id(self) -> Seq<char> {
        id_text(self.module, self.name, sig_text(self.signature))
    }
}

impl View for FunctionDef {
    type V = DefView;

    open spec fn view(&self) -> DefView {
        DefView {
            name: self.name@,
            signature: self.signature@,
            calls: call_views(self.calls@),
            module: self.module@,
        }
    }
}

impl FunctionDef {
    /// The identifier text of this definition.
    pub open spec fn spec_id(&self) -> Seq<char> {
        self@.id()
    }

    /// A copy with the same name, signature, calls and module.
    pub fn duplicate(&self) -> (r: Self)
        ensures
            r@ == self@,
    {
        let mut calls: Vec<FunctionCall> = Vec::new();
        let mut i: usize = 0;
        while i < self.calls.len()
            invariant
                i <= self.calls@.len(),
                call_views(calls@) == call_views(self.calls@).subrange(0, i as int),
            decreases self.calls@.len() - i,
        {
            let ghost before = call_views(calls@);
            calls.push(self.calls[i].duplicate());
            assert(call_views(calls@) =~= before.push(call_views(self.calls@)[i as int]));
            assert(call_views(self.calls@).subrange(0, i + 1) =~= call_views(self.calls@).subrange(0, i as int).push(call_views(self.calls@)[i as int]));
            i = i + 1;
        }
        assert(call_views(self.calls@).subrange(0, i as int) =~= call_views(self.calls@));
        FunctionDef {
            name: self.name.clone(),
            signature: self.signature.duplicate(),
            calls,
            module: self.module.clone(),
        }
    }

    pub fn new(name: String, signature: Signature, module: String) -> (r: Self)
        ensures
            r@ == (DefView { name: name@, signature: signature@, calls: Seq::empty(), module: module@ }),
    {
        let r = FunctionDef { name, signature, calls: Vec::new(), module };
        assert(call_views(r.calls@) =~= Seq::<CallView>::empty());
        r
    }

    pub fn with_calls(self, calls: Vec<FunctionCall>) -> (r: Self)
        ensures
            r@ == (DefView { calls: call_views(calls@), ..self@ }),
    {
        let mut f = self;
        f.calls = calls;
        f
    }

    pub fn add_call(&mut self, call: FunctionCall)
        ensures
            final(self)@ == (DefView { calls: old(self)@.calls.push(call@), ..old(self)@ }),
    {
        let ghost before = call_views(self.calls@);
        self.calls.push(call);
        assert(call_views(self.calls@) =~= before.push(call@));
    }

    pub fn fn_id(&self) -> (r: FunctionId)
        ensures
            r@ == self.spec_id(),
    {
        generate_id(self.module.as_str(), self.name.as_str(), &self.signature)
    }
}

/// Language-independent summary of one source file.
#[derive(Debug, Clone)]
pub struct AbstractAST {
    pub functions: Vec<FunctionDef>,
    pub module: String,
}

impl AbstractAST {
    pub fn new(module: String) -> (r: Self)
        ensures
            r.module@ == module@,
            r.functions@.len() == 0,
    {
        AbstractAST { functions: Vec::new(), module }
    }

    /// The first function, in declaration order, with the given name.
    pub fn get_function(&self, name: &str) -> (r: Option<&FunctionDef>)
        ensures
            match r {
                Some(f) => exists|i: int|
                    0 <= i < self.functions@.len() && self.functions@[i] == *f
                        && f.name@ == name@
                        && forall|j: int| 0 <= j < i ==> self.functions@[j].name@ != name@,
                None => forall|j: int|
                    0 <= j < self.functions@.len() ==> self.functions@[j].name@ != name@,
            },
    {
        let mut i: usize = 0;
        while i < self.functions.len()
            invariant
                i <= self.functions@.len(),
                forall|j: int| 0 <= j < i ==> self.functions@[j].name@ != name@,
            decreases self.functions@.len() - i,
        {
            if str_eq(self.functions[i].name.as_str(), name) {
                return Some(&self.functions[i]);
            }
            i = i + 1;
        }
        None
    }

    pub fn add_function(&mut self, func: FunctionDef)
        ensures
            final(self).module == old(self).module,
            final(self).functions@ == old(self).functions@.push(func),
    {
        self.functions.push(func);
    }

    pub fn module_name(&self) -> (r: &str)
        ensures
            r@ == self.module@,
    {
        self.module.as_str()
    }
}

} // verus!
