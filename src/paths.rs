//! Module paths derived from file paths and from module declarations.
use vstd::prelude::*;
use vstd::string::*;

use crate::language::{after_last, find_after_last, lemma_after_last_bounds};
use crate::text::{
    chars_of, has_prefix, has_suffix, join, join_strings, split_chars, split_on, starts_with,
    ends_with, str_eq, string_of, trim, trim_bounds,
};

verus! {

/// A file name without its final extension; a leading `.` does not start one.
pub open spec fn stem_of(name: Seq<char>) -> Seq<char> {
    let q = after_last(name, '.');
    if q >= 2 {
        name.subrange(0, q - 1)
    } else {
        name
    }
}

/// A path without trailing separators and trailing `.` components, which
/// name no further file (`dir/` and `dir/.` both name `dir`).
pub open spec fn strip_tail(s: Seq<char>) -> Seq<char>
    decreases s.len(),
{
    if s.len() > 0 && s.last() == '/' {
        strip_tail(s.drop_last())
    } else if s.len() >= 2 && s.last() == '.' && s[s.len() - 2] == '/' {
        strip_tail(s.drop_last())
    } else {
        s
    }
}

/// A parent directory that strips to nothing is the root, `/`.
pub open spec fn root_or(d: Seq<char>) -> Seq<char> {
    if d.len() == 0 {
        "/"@
    } else {
        d
    }
}

/// The module path of a file path: the file stem, prefixed by the parent
/// directories joined by `::` when there is a parent other than `.`; none
/// when the path names no file. Trailing separators and `.` components are
/// ignored, in the path and in its parent; a parent that is the root `/`
/// gives the prefix `::`.
pub open spec fn module_path_of(path: Seq<char>) -> Option<Seq<char>> {
    let path = strip_tail(path);
    let p = after_last(path, '/');
    let name = path.subrange(p, path.len() as int);
    let dir = if p > 0 {
        root_or(strip_tail(path.subrange(0, p - 1)))
    } else {
        Seq::empty()
    };
    if name.len() == 0 || name == "."@ || name == ".."@ {
        None
    } else if dir.len() > 0 && dir != "."@ {
        Some(join(split_on(dir, '/'), "::"@) + "::"@ + stem_of(name))
    } else {
        Some(stem_of(name))
    }
}

/// The end of `s` once trailing separators and `.` components are dropped.
fn stripped(s: &str) -> (r: String)
    ensures
        r@ == strip_tail(s@),
{
    let cs = chars_of(s);
    let mut e: usize = cs.len();
    assert(cs@.subrange(0, e as int) =~= cs@);
    while e > 0 && (cs[e - 1] == '/' || (e >= 2 && cs[e - 1] == '.' && cs[e - 2] == '/'))
        invariant
            e <= cs@.len(),
            strip_tail(s@) == strip_tail(cs@.subrange(0, e as int)),
            cs@ == s@,
        decreases e,
    {
        assert(cs@.subrange(0, e as int).drop_last() =~= cs@.subrange(0, e - 1));
        e = e - 1;
    }
    string_of(cs.as_slice(), 0, e)
}

/// The module path of a file path; fails when the path names no file.
pub(crate) fn module_path_from_file(path: &str) -> (r: Result<String, String>)
    ensures
        match r {
            Ok(m) => module_path_of(path@) == Some(m@),
            Err(_) => module_path_of(path@) is None,
        },
{
    let whole = stripped(path);
    let path = whole.as_str();
    let cs = chars_of(path);
    let p = find_after_last(cs.as_slice(), '/');
    proof {
        lemma_after_last_bounds(cs@, '/');
    }
    let name = string_of(cs.as_slice(), p, cs.len());
    if name.unicode_len() == 0 || str_eq(name.as_str(), ".") || str_eq(name.as_str(), "..") {
        return Err(String::from_str("Invalid file path"));
    }
    let ncs = chars_of(name.as_str());
    let q = find_after_last(ncs.as_slice(), '.');
    proof {
        lemma_after_last_bounds(ncs@, '.');
    }
    let stem = if q >= 2 {
        string_of(ncs.as_slice(), 0, q - 1)
    } else {
        string_of(ncs.as_slice(), 0, ncs.len())
    };
    assert(ncs@.subrange(0, ncs@.len() as int) =~= ncs@);
    let dir = if p > 0 {
        let d = stripped(string_of(cs.as_slice(), 0, p - 1).as_str());
        if d.unicode_len() == 0 {
            String::from_str("/")
        } else {
            d
        }
    } else {
        String::new()
    };
    if dir.unicode_len() > 0 && !str_eq(dir.as_str(), ".") {
        let dcs = chars_of(dir.as_str());
        let pieces = split_chars(dcs.as_slice(), '/');
        let mut parts: Vec<String> = Vec::new();
        let mut i: usize = 0;
        while i < pieces.len()
            invariant
                i <= pieces@.len(),
                parts@.map_values(|x: String| x@) == pieces@.map_values(|v: Vec<char>| v@).subrange(0, i as int),
            decreases pieces@.len() - i,
        {
            let ghost before = parts@.map_values(|x: String| x@);
            parts.push(string_of(pieces[i].as_slice(), 0, pieces[i].len()));
            assert(pieces@[i as int]@.subrange(0, pieces@[i as int]@.len() as int) =~= pieces@[i as int]@);
            assert(parts@.map_values(|x: String| x@) =~= before.push(pieces@[i as int]@));
            assert(parts@.map_values(|x: String| x@) =~= pieces@.map_values(|v: Vec<char>| v@).subrange(0, i + 1));
            i = i + 1;
        }
        assert(pieces@.map_values(|v: Vec<char>| v@).subrange(0, i as int) =~= pieces@.map_values(|v: Vec<char>| v@));
        let mut r = join_strings(&parts, "::");
        r.append("::");
        r.append(stem.as_str());
        Ok(r)
    } else {
        Ok(stem)
    }
}

/// The module that a line declares with `mod name;` or `pub mod name;`.
pub open spec fn mod_decl(line: Seq<char>) -> Option<Seq<char>> {
    let t = trim(line);
    if has_prefix(t, "mod "@) && has_suffix(t, ";"@) {
        Some(trim(t.subrange(4, t.len() - 1)))
    } else if has_prefix(t, "pub mod "@) && has_suffix(t, ";"@) {
        Some(trim(t.subrange(8, t.len() - 1)))
    } else {
        None
    }
}

/// The modules that the lines declare, in order.
pub open spec fn mod_decls(lines: Seq<Seq<char>>) -> Seq<Seq<char>>
    decreases lines.len(),
{
    if lines.len() == 0 {
        Seq::empty()
    } else {
        mod_decls(lines.drop_last()) + match mod_decl(lines.last()) {
            Some(m) => seq![m],
            None => Seq::empty(),
        }
    }
}

/// `default`, extended by `::` and the modules that `source` declares.
pub open spec fn declared_module_path(source: Seq<char>, default: Seq<char>) -> Seq<char> {
    let ms = mod_decls(split_on(source, '\n'));
    if ms.len() == 0 {
        default
    } else {
        default + "::"@ + join(ms, "::"@)
    }
}

/// The trimmed text of a line.
fn trimmed(line: &Vec<char>) -> (r: String)
    ensures
        r@ == trim(line@),
{
    let (a, b) = trim_bounds(line.as_slice());
    string_of(line.as_slice(), a, b)
}

/// The module that a line declares, if any.
fn module_declared(line: &Vec<char>) -> (r: Option<String>)
    ensures
        match r {
            Some(m) => mod_decl(line@) == Some(m@),
            None => mod_decl(line@) is None,
        },
{
    let t = trimmed(line);
    let tc = chars_of(t.as_str());
    proof {
        reveal_strlit("mod ");
        reveal_strlit("pub mod ");
        reveal_strlit(";");
    }
    if starts_with(t.as_str(), "mod ") && ends_with(t.as_str(), ";") {
        proof {
            assert(t@.subrange(0, 4)[3] == ' ');
            assert(t@.subrange(t@.len() - 1, t@.len() as int)[0] == ';');
        }
        let inner = string_of(tc.as_slice(), 4, tc.len() - 1);
        let ic = chars_of(inner.as_str());
        Some(trimmed(&ic))
    } else if starts_with(t.as_str(), "pub mod ") && ends_with(t.as_str(), ";") {
        proof {
            assert(t@.subrange(0, 8)[7] == ' ');
            assert(t@.subrange(t@.len() - 1, t@.len() as int)[0] == ';');
        }
        let inner = string_of(tc.as_slice(), 8, tc.len() - 1);
        let ic = chars_of(inner.as_str());
        Some(trimmed(&ic))
    } else {
        None
    }
}

/// `default`, extended by `::` and the modules that `source` declares.
pub(crate) fn module_path_from_source(source: &str, default: &str) -> (r: String)
    ensures
        r@ == declared_module_path(source@, default@),
{
    let cs = chars_of(source);
    let lines = split_chars(cs.as_slice(), '\n');
    let ghost ls = lines@.map_values(|v: Vec<char>| v@);
    let mut mods: Vec<String> = Vec::new();
    let mut i: usize = 0;
    while i < lines.len()
        invariant
            i <= lines@.len(),
            ls == lines@.map_values(|v: Vec<char>| v@),
            mods@.map_values(|x: String| x@) == mod_decls(ls.subrange(0, i as int)),
        decreases lines@.len() - i,
    {
        proof {
            let sub = ls.subrange(0, i + 1);
            assert(sub.drop_last() =~= ls.subrange(0, i as int));
            assert(sub.last() == lines@[i as int]@);
        }
        match module_declared(&lines[i]) {
            Some(m) => {
                mods.push(m);
                assert(mods@.map_values(|x: String| x@) =~= mod_decls(ls.subrange(0, i + 1)));
            },
            None => {
                assert(mods@.map_values(|x: String| x@) =~= mod_decls(ls.subrange(0, i + 1)));
            },
        }
        i = i + 1;
    }
    assert(ls.subrange(0, i as int) =~= ls);
    if mods.len() == 0 {
        String::from_str(default)
    } else {
        let mut r = String::from_str(default);
        r.append("::");
        let joined = join_strings(&mods, "::");
        r.append(joined.as_str());
        r
    }
}

} // verus!
