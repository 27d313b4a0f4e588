use vstd::prelude::*;
use vstd::string::*;

use crate::language::Language;
use crate::text::{
    chars_of, find_from, find_in, has_prefix, split_chars, split_on, starts_with, str_eq, string_of,
    trim, trim_bounds,
};
use crate::traversal::texts;

verus! {

/// `s` up to the first occurrence of `p`; all of `s` when `p` does not occur.
pub open spec fn before(s: Seq<char>, p: Seq<char>) -> Seq<char> {
    let i = find_from(s, p, 0);
    if i < 0 {
        s
    } else {
        s.subrange(0, i)
    }
}

/// The concatenation of `f` over the lines of `source`.
pub open spec fn over_lines(ls: Seq<Seq<char>>, f: spec_fn(Seq<char>) -> Seq<Seq<char>>) -> Seq<Seq<char>>
    decreases ls.len(),
{
    if ls.len() == 0 {
        Seq::empty()
    } else {
        over_lines(ls.drop_last(), f) + f(ls.last())
    }
}

/// The crate that a `use` line imports, unless it is `std` or `crate`.
pub open spec fn rust_import(line: Seq<char>) -> Seq<Seq<char>> {
    let t = trim(line);
    if has_prefix(t, "use "@) {
        let head = before(trim(before(t.subrange(4, t.len() as int), "{"@)), "::"@);
        if head.len() > 0 && head != "std"@ && head != "crate"@ {
            seq![head]
        } else {
            Seq::empty()
        }
    } else {
        Seq::empty()
    }
}

/// A module named by an import, kept unless empty or relative.
pub open spec fn absolute(m: Seq<char>) -> Seq<Seq<char>> {
    if m.len() > 0 && !has_prefix(m, "."@) {
        seq![m]
    } else {
        Seq::empty()
    }
}

/// The module that an `import m` or `from m import ...` line names.
pub open spec fn python_import(line: Seq<char>) -> Seq<Seq<char>> {
    let t = trim(line);
    if has_prefix(t, "import "@) {
        absolute(trim(before(t.subrange(7, t.len() as int), ","@)))
    } else if has_prefix(t, "from "@) && find_from(t, " import "@, 0) >= 0 {
        absolute(trim(before(t.subrange(5, t.len() as int), " import "@)))
    } else {
        Seq::empty()
    }
}

/// The text between the first two occurrences of `q` in `s`.
pub open spec fn quoted(s: Seq<char>, q: char) -> Option<Seq<char>> {
    let a = find_from(s, seq![q], 0);
    let e = find_from(s, seq![q], a + 1);
    if a < 0 || e < 0 {
        None
    } else {
        Some(s.subrange(a + 1, e))
    }
}

/// The first string literal of `s`: single-quoted if `s` holds a `'`, else double-quoted.
pub open spec fn first_quoted(s: Seq<char>) -> Option<Seq<char>> {
    if find_from(s, seq!['\''], 0) >= 0 {
        quoted(s, '\'')
    } else if find_from(s, seq!['"'], 0) >= 0 {
        quoted(s, '"')
    } else {
        None
    }
}

/// The module of an `import ... from '...'` line: a package, or a local
/// `./` path without its `./`.
pub open spec fn js_import_from(t: Seq<char>) -> Seq<Seq<char>> {
    let i = find_from(t, " from "@, 0);
    if has_prefix(t, "import "@) && i >= 0 {
        match first_quoted(t.subrange(i + 6, t.len() as int)) {
            Some(p) => if !has_prefix(p, "."@) {
                seq![p]
            } else if has_prefix(p, "./"@) {
                seq![p.subrange(2, p.len() as int)]
            } else {
                Seq::empty()
            },
            None => Seq::empty(),
        }
    } else {
        Seq::empty()
    }
}

/// The package that a `require('...')` on the line names.
pub open spec fn js_require(t: Seq<char>) -> Seq<Seq<char>> {
    let i = find_from(t, "require("@, 0);
    if i >= 0 {
        match first_quoted(t.subrange(i + 8, t.len() as int)) {
            Some(p) => if !has_prefix(p, "."@) {
                seq![p]
            } else {
                Seq::empty()
            },
            None => Seq::empty(),
        }
    } else {
        Seq::empty()
    }
}

pub open spec fn js_import(line: Seq<char>) -> Seq<Seq<char>> {
    js_import_from(trim(line)) + js_require(trim(line))
}

/// Loads a program's modules by following its imports; remembers the
/// files already loaded.
pub struct ModuleLoader {
    pub root_path: String,
    pub language: Language,
    pub loaded_modules: Vec<String>,
}

/// `s` up to the first occurrence of `p`.
fn prefix_before(s: &str, p: &str) -> (r: String)
    ensures
        r@ == before(s@, p@),
{
    let cs = chars_of(s);
    let ps = chars_of(p);
    match find_in(cs.as_slice(), ps.as_slice(), 0) {
        Some(i) => string_of(cs.as_slice(), 0, i),
        None => {
            assert(cs@.subrange(0, cs@.len() as int) =~= cs@);
            string_of(cs.as_slice(), 0, cs.len())
        },
    }
}

fn trimmed_str(s: &str) -> (r: String)
    ensures
        r@ == trim(s@),
{
    let cs = chars_of(s);
    let (a, b) = trim_bounds(cs.as_slice());
    string_of(cs.as_slice(), a, b)
}

/// `s` from character `from` on.
fn suffix_from(s: &str, from: usize) -> (r: String)
    requires
        from <= s@.len(),
    ensures
        r@ == s@.subrange(from as int, s@.len() as int),
{
    let cs = chars_of(s);
    string_of(cs.as_slice(), from, cs.len())
}

fn position_of(s: &str, p: &str) -> (r: Option<usize>)
    ensures
        match r {
            Some(i) => i as int == find_from(s@, p@, 0) && i + p@.len() <= s@.len() && s@.len()
                <= usize::MAX,
            None => find_from(s@, p@, 0) == -1,
        },
{
    let cs = chars_of(s);
    let ps = chars_of(p);
    let n = cs.len();
    find_in(cs.as_slice(), ps.as_slice(), 0)
}

fn absolute_into(m: String, out: &mut Vec<String>)
    ensures
        texts(final(out)@) == texts(old(out)@) + absolute(m@),
{
    let ghost before = texts(out@);
    if m.unicode_len() > 0 && !starts_with(m.as_str(), ".") {
        out.push(m);
        assert(texts(out@) =~= before + absolute(m@));
    } else {
        assert(texts(out@) =~= before + absolute(m@));
    }
}

fn rust_import_into(line: &str, out: &mut Vec<String>)
    ensures
        texts(final(out)@) == texts(old(out)@) + rust_import(line@),
{
    let ghost start = texts(out@);
    let t = trimmed_str(line);
    proof {
        reveal_strlit("use ");
    }
    if starts_with(t.as_str(), "use ") {
        let rest = suffix_from(t.as_str(), 4);
        let inner = trimmed_str(prefix_before(rest.as_str(), "{").as_str());
        let head = prefix_before(inner.as_str(), "::");
        if head.unicode_len() > 0 && !str_eq(head.as_str(), "std") && !str_eq(head.as_str(), "crate") {
            out.push(head);
        }
    }
    assert(texts(out@) =~= start + rust_import(line@));
}

fn python_import_into(line: &str, out: &mut Vec<String>)
    ensures
        texts(final(out)@) == texts(old(out)@) + python_import(line@),
{
    let ghost start = texts(out@);
    let t = trimmed_str(line);
    proof {
        reveal_strlit("import ");
        reveal_strlit("from ");
    }
    if starts_with(t.as_str(), "import ") {
        let rest = suffix_from(t.as_str(), 7);
        absolute_into(trimmed_str(prefix_before(rest.as_str(), ",").as_str()), out);
    } else if starts_with(t.as_str(), "from ") && position_of(t.as_str(), " import ").is_some() {
        let rest = suffix_from(t.as_str(), 5);
        absolute_into(trimmed_str(prefix_before(rest.as_str(), " import ").as_str()), out);
    }
    assert(texts(out@) =~= start + python_import(line@));
}

/// The text between the first two occurrences of `q`.
fn quoted_text(s: &str, q: char) -> (r: Option<String>)
    ensures
        match r {
            Some(p) => quoted(s@, q) == Some(p@),
            None => quoted(s@, q) is None,
        },
{
    let cs = chars_of(s);
    let mut qs: Vec<char> = Vec::new();
    qs.push(q);
    assert(qs@ =~= seq![q]);
    let n = cs.len();
    match find_in(cs.as_slice(), qs.as_slice(), 0) {
        Some(a) => match find_in(cs.as_slice(), qs.as_slice(), a + 1) {
            Some(e) => Some(string_of(cs.as_slice(), a + 1, e)),
            None => None,
        },
        None => None,
    }
}

fn first_quoted_text(s: &str) -> (r: Option<String>)
    ensures
        match r {
            Some(p) => first_quoted(s@) == Some(p@),
            None => first_quoted(s@) is None,
        },
{
    let cs = chars_of(s);
    let mut sq: Vec<char> = Vec::new();
    sq.push('\'');
    let mut dq: Vec<char> = Vec::new();
    dq.push('"');
    assert(sq@ =~= seq!['\'']);
    assert(dq@ =~= seq!['"']);
    if find_in(cs.as_slice(), sq.as_slice(), 0).is_some() {
        quoted_text(s, '\'')
    } else if find_in(cs.as_slice(), dq.as_slice(), 0).is_some() {
        quoted_text(s, '"')
    } else {
        None
    }
}

fn js_import_into(line: &str, out: &mut Vec<String>)
    ensures
        texts(final(out)@) == texts(old(out)@) + js_import(line@),
{
    let ghost start = texts(out@);
    let t = trimmed_str(line);
    proof {
        reveal_strlit("import ");
        reveal_strlit(" from ");
        reveal_strlit("require(");
        reveal_strlit("./");
    }
    if starts_with(t.as_str(), "import ") {
        match position_of(t.as_str(), " from ") {
            Some(i) => {
                let rest = suffix_from(t.as_str(), i + 6);
                match first_quoted_text(rest.as_str()) {
                    Some(p) => {
                        if !starts_with(p.as_str(), ".") {
                            out.push(p);
                        } else if starts_with(p.as_str(), "./") {
                            out.push(suffix_from(p.as_str(), 2));
                        }
                    },
                    None => {},
                }
            },
            None => {},
        }
    }
    let ghost mid = texts(out@);
    assert(mid =~= start + js_import_from(trim(line@)));
    match position_of(t.as_str(), "require(") {
        Some(i) => {
            let rest = suffix_from(t.as_str(), i + 8);
            match first_quoted_text(rest.as_str()) {
                Some(p) => {
                    if !starts_with(p.as_str(), ".") {
                        out.push(p);
                    }
                },
                None => {},
            }
        },
        None => {},
    }
    assert(texts(out@) =~= start + js_import(line@));
}

/// Which import rule a loader applies to a line.
#[derive(Clone, Copy)]
enum ImportRule {
    Rust,
    Python,
    JavaScript,
}

pub open spec fn rust_rule() -> spec_fn(Seq<char>) -> Seq<Seq<char>> {
    |l: Seq<char>| rust_import(l)
}

pub open spec fn python_rule() -> spec_fn(Seq<char>) -> Seq<Seq<char>> {
    |l: Seq<char>| python_import(l)
}

pub open spec fn js_rule() -> spec_fn(Seq<char>) -> Seq<Seq<char>> {
    |l: Seq<char>| js_import(l)
}

spec fn rule_fn(r: ImportRule) -> spec_fn(Seq<char>) -> Seq<Seq<char>> {
    match r {
        ImportRule::Rust => rust_rule(),
        ImportRule::Python => python_rule(),
        ImportRule::JavaScript => js_rule(),
    }
}

fn imports_of(source: &str, rule: ImportRule) -> (r: Vec<String>)
    ensures
        texts(r@) == over_lines(split_on(source@, '\n'), rule_fn(rule)),
{
    let cs = chars_of(source);
    let lines = split_chars(cs.as_slice(), '\n');
    let ghost ls = lines@.map_values(|v: Vec<char>| v@);
    let mut out: Vec<String> = Vec::new();
    let mut i: usize = 0;
    while i < lines.len()
        invariant
            i <= lines@.len(),
            ls == lines@.map_values(|v: Vec<char>| v@),
            texts(out@) == over_lines(ls.subrange(0, i as int), rule_fn(rule)),
        decreases lines@.len() - i,
    {
        proof {
            let sub = ls.subrange(0, i + 1);
            assert(sub.drop_last() =~= ls.subrange(0, i as int));
            assert(sub.last() == lines@[i as int]@);
        }
        let line = string_of(lines[i].as_slice(), 0, lines[i].len());
        assert(lines@[i as int]@.subrange(0, lines@[i as int]@.len() as int) =~= lines@[i as int]@);
        match rule {
            ImportRule::Rust => rust_import_into(line.as_str(), &mut out),
            ImportRule::Python => python_import_into(line.as_str(), &mut out),
            ImportRule::JavaScript => js_import_into(line.as_str(), &mut out),
        }
        i = i + 1;
    }
    assert(ls.subrange(0, i as int) =~= ls);
    out
}

impl ModuleLoader {
    /// A loader for files of `language` under `root_path`, with nothing loaded.
    pub fn new(root_path: &str, language: Language) -> (r: Self)
        ensures
            r.root_path@ == root_path@,
            r.language == language,
            r.loaded_modules@.len() == 0,
    {
        ModuleLoader { root_path: String::from_str(root_path), language, loaded_modules: Vec::new() }
    }

    /// The crates that the `use` lines of Rust source import, other than
    /// `std` and `crate`, in line order.
    pub fn extract_rust_imports(&self, source: &str) -> (r: Result<Vec<String>, String>)
        ensures
            r matches Ok(v) && texts(v@) == over_lines(split_on(source@, '\n'), rust_rule()),
    {
        Ok(imports_of(source, ImportRule::Rust))
    }

    /// The absolute modules that the `import` and `from ... import` lines of
    /// Python source name, in line order.
    pub fn extract_python_imports(&self, source: &str) -> (r: Result<Vec<String>, String>)
        ensures
            r matches Ok(v) && texts(v@) == over_lines(split_on(source@, '\n'), python_rule()),
    {
        Ok(imports_of(source, ImportRule::Python))
    }

    /// The modules that the `import ... from` lines and `require(...)` calls
    /// of JavaScript source name, in line order.
    pub fn extract_js_imports(&self, source: &str) -> (r: Result<Vec<String>, String>)
        ensures
            r matches Ok(v) && texts(v@) == over_lines(split_on(source@, '\n'), js_rule()),
    {
        Ok(imports_of(source, ImportRule::JavaScript))
    }
}

} // verus!
