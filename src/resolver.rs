use vstd::prelude::*;
use vstd::string::*;

use crate::ast::{DefView, FunctionDef};
use crate::builder::def_views;
use crate::text::{join, join_strings, split_str, split_text, str_eq};
use crate::traversal::texts;

verus! {

/// Some definition of `fs` is named `n` and declared in module `m`.
pub open spec fn declares(fs: Seq<DefView>, n: Seq<char>, m: Seq<char>) -> bool {
    exists|i: int| 0 <= i < fs.len() && #[trigger] fs[i].name == n && fs[i].module == m
}

/// The longest of the first `i` or fewer (but at least one) `::`-separated
/// parts of a module that, joined, names a module declaring `n`.
pub open spec fn parent_hit(fs: Seq<DefView>, n: Seq<char>, parts: Seq<Seq<char>>, i: int) -> Option<Seq<char>>
    decreases i,
{
    if i < 1 {
        None
    } else if declares(fs, n, join(parts.subrange(0, i), "::"@)) {
        Some(join(parts.subrange(0, i), "::"@))
    } else {
        parent_hit(fs, n, parts, i - 1)
    }
}

/// Where a call to `n` from module `cur` resolves: `cur` itself, then each
/// enclosing module from the innermost out, then the root module (empty
/// path); the result is that module and `n`.
pub open spec fn resolution(fs: Seq<DefView>, n: Seq<char>, cur: Seq<char>) -> Option<(Seq<char>, Seq<char>)> {
    let parts = split_str(cur, "::"@);
    if declares(fs, n, cur) {
        Some((cur, n))
    } else {
        match parent_hit(fs, n, parts, parts.len() - 1) {
            Some(m) => Some((m, n)),
            None => if declares(fs, n, Seq::empty()) {
                Some((Seq::empty(), n))
            } else {
                None
            },
        }
    }
}

/// Whether some function of `fs` is named `n` and declared in `m`.
fn declared_in(fs: &[FunctionDef], n: &str, m: &str) -> (r: bool)
    ensures
        r == declares(def_views(fs@), n@, m@),
{
    let mut i: usize = 0;
    while i < fs.len()
        invariant
            i <= fs@.len(),
            forall|j: int| 0 <= j < i ==> !(fs@[j].name@ == n@ && fs@[j].module@ == m@),
        decreases fs@.len() - i,
    {
        if str_eq(fs[i].name.as_str(), n) && str_eq(fs[i].module.as_str(), m) {
            assert(def_views(fs@)[i as int].name == n@);
            return true;
        }
        i = i + 1;
    }
    proof {
        if declares(def_views(fs@), n@, m@) {
            let j = choose|j: int|
                0 <= j < def_views(fs@).len() && #[trigger] def_views(fs@)[j].name == n@
                    && def_views(fs@)[j].module == m@;
            assert(fs@[j].name@ == n@);
        }
    }
    false
}

/// Try to resolve a call to `call_name` from `current_module` to a function
/// of `all_functions`; returns its module and name.
pub fn resolve_call(call_name: &str, current_module: &str, all_functions: &[FunctionDef]) -> (r:
    Option<(String, String)>)
    ensures
        match r {
            Some((m, n)) => resolution(def_views(all_functions@), call_name@, current_module@)
                == Some((m@, n@)),
            None => resolution(def_views(all_functions@), call_name@, current_module@) is None,
        },
{
    let ghost fs = def_views(all_functions@);
    if declared_in(all_functions, call_name, current_module) {
        return Some((String::from_str(current_module), String::from_str(call_name)));
    }
    let parts = split_text(current_module, "::");
    let ghost ps = texts(parts@);
    let mut i: usize = parts.len() - 1;
    assert(ps.len() >= 1) by {
        crate::text::lemma_split_str_nonempty(current_module@, "::"@);
    }
    while i >= 1
        invariant
            ps == texts(parts@),
            fs == def_views(all_functions@),
            ps.len() >= 1,
            ps == split_str(current_module@, "::"@),
            !declares(fs, call_name@, current_module@),
            i < ps.len(),
            parent_hit(fs, call_name@, ps, ps.len() - 1) == parent_hit(fs, call_name@, ps, i as int),
        decreases i,
    {
        let mut prefix: Vec<String> = Vec::new();
        let mut k: usize = 0;
        while k < i
            invariant
                ps == texts(parts@),
                k <= i < ps.len(),
                texts(prefix@) == ps.subrange(0, k as int),
            decreases i - k,
        {
            let ghost before = texts(prefix@);
            prefix.push(parts[k].clone());
            assert(texts(prefix@) =~= before.push(ps[k as int]));
            assert(texts(prefix@) =~= ps.subrange(0, k + 1));
            k = k + 1;
        }
        let parent = join_strings(&prefix, "::");
        if declared_in(all_functions, call_name, parent.as_str()) {
            return Some((parent, String::from_str(call_name)));
        }
        i = i - 1;
    }
    if declared_in(all_functions, call_name, "") {
        proof {
            reveal_strlit("");
            assert(""@ =~= Seq::<char>::empty());
        }
        return Some((String::new(), String::from_str(call_name)));
    }
    proof {
        reveal_strlit("");
        assert(""@ =~= Seq::<char>::empty());
    }
    None
}

} // verus!
