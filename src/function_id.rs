use vstd::prelude::*;
use vstd::string::*;

use crate::ast::{Signature, sig_text};

verus! {

/// Unique identifier for a function: `module::name::signature`.
#[derive(Debug, PartialEq, Eq, PartialOrd, Ord, Hash)]
pub struct FunctionId(pub String);

impl View for FunctionId {
    type V = Seq<char>;

    open spec fn view(&self) -> Seq<char> {
        self.0@
    }
}

impl Clone for FunctionId {
    fn clone(&self) -> (r: Self)
        ensures
            r@ == self@,
    {
        FunctionId(self.0.clone())
    }
}

/// The canonical text of an identifier built from its three parts.
pub open spec fn id_text(module: Seq<char>, name: Seq<char>, sig: Seq<char>) -> Seq<char> {
    module + "::"@ + name + "::"@ + sig
}

impl FunctionId {
    pub fn new(id: String) -> (r: Self)
        ensures
            r@ == id@,
    {
        FunctionId(id)
    }

    pub fn as_str(&self) -> (r: &str)
        ensures
            r@ == self@,
    {
        self.0.as_str()
    }

    /// Whether two identifiers have the same text.
    pub fn same(&self, other: &FunctionId) -> (r: bool)
        ensures
            r == (self@ == other@),
    {
        self.0 == other.0
    }

    /// The identifier's text, for display.
    pub fn to_text(&self) -> (r: String)
        ensures
            r@ == self@,
    {
        self.0.clone()
    }
}

/// Generate a unique function ID from module, name, and signature.
pub fn generate_id(module: &str, name: &str, signature: &Signature) -> (r: FunctionId)
    ensures
        r@ == id_text(module@, name@, sig_text(signature@)),
{
    let sig = signature.to_text();
    let mut s = String::from_str(module);
    s.append("::");
    s.append(name);
    s.append("::");
    s.append(sig.as_str());
    FunctionId(s)
}

} // verus!
