use vstd::prelude::*;

use crate::text::{chars_of, string_of, str_eq};

verus! {

/// A supported source language.
#[derive(Debug, Clone, Copy, PartialEq, Eq, Structural)]
pub enum Language {
    Rust,
    Python,
    JavaScript,
}

/// The language that a file extension selects.
pub open spec fn language_of_extension(ext: Seq<char>) -> Option<Language> {
    if ext == "rs"@ {
        Some(Language::Rust)
    } else if ext == "py"@ {
        Some(Language::Python)
    } else if ext == "js"@ || ext == "ts"@ || ext == "jsx"@ || ext == "tsx"@ {
        Some(Language::JavaScript)
    } else {
        None
    }
}

/// Position just past the last `c` in `s`, or 0 when `c` does not occur.
pub open spec fn after_last(s: Seq<char>, c: char) -> int
    decreases s.len(),
{
    if s.len() == 0 {
        0
    } else if s.last() == c {
        s.len() as int
    } else {
        after_last(s.drop_last(), c)
    }
}

/// The last component of a `/`-separated path.
pub open spec fn file_name(path: Seq<char>) -> Seq<char> {
    path.subrange(after_last(path, '/'), path.len() as int)
}

/// The extension of a path: what follows the last `.` of its file name,
/// when that `.` is not the name's first character.
pub open spec fn extension(path: Seq<char>) -> Option<Seq<char>> {
    let name = file_name(path);
    let p = after_last(name, '.');
    if p >= 2 && name != ".."@ {
        Some(name.subrange(p, name.len() as int))
    } else {
        None
    }
}

pub(crate) proof fn lemma_after_last_bounds(s: Seq<char>, c: char)
    ensures
        0 <= after_last(s, c) <= s.len(),
        after_last(s, c) > 0 ==> s[after_last(s, c) - 1] == c,
    decreases s.len(),
{
    if s.len() > 0 && s.last() != c {
        lemma_after_last_bounds(s.drop_last(), c);
    }
}

/// Position just past the last `c` in `s`, or 0 when `c` does not occur.
pub(crate) fn find_after_last(s: &[char], c: char) -> (r: usize)
    ensures
        r == after_last(s@, c),
{
    let mut i: usize = s.len();
    assert(s@.subrange(0, i as int) =~= s@);
    while i > 0
        invariant
            i <= s@.len(),
            after_last(s@, c) == after_last(s@.subrange(0, i as int), c),
        decreases i,
    {
        proof {
            assert(s@.subrange(0, i as int).drop_last() =~= s@.subrange(0, i - 1));
        }
        if s[i - 1] == c {
            return i;
        }
        i = i - 1;
    }
    i
}

impl Language {
    pub fn from_extension(ext: &str) -> (r: Option<Self>)
        ensures
            r == language_of_extension(ext@),
    {
        if str_eq(ext, "rs") {
            Some(Language::Rust)
        } else if str_eq(ext, "py") {
            Some(Language::Python)
        } else if str_eq(ext, "js") || str_eq(ext, "ts") || str_eq(ext, "jsx") || str_eq(ext, "tsx") {
            Some(Language::JavaScript)
        } else {
            None
        }
    }

    /// The language selected by the extension of `path`'s file name.
    pub fn from_file_path(path: &str) -> (r: Option<Self>)
        ensures
            r == match extension(path@) {
                Some(e) => language_of_extension(e),
                None => None,
            },
    {
        let cs = chars_of(path);
        let start = find_after_last(cs.as_slice(), '/');
        proof {
            lemma_after_last_bounds(cs@, '/');
        }
        let name = string_of(cs.as_slice(), start, cs.len());
        assert(name@ =~= file_name(path@));
        let ncs = chars_of(name.as_str());
        let p = find_after_last(ncs.as_slice(), '.');
        proof {
            lemma_after_last_bounds(ncs@, '.');
        }
        if p >= 2 && !str_eq(name.as_str(), "..") {
            let ext = string_of(ncs.as_slice(), p, ncs.len());
            assert(ext@ =~= name@.subrange(p as int, name@.len() as int));
            Self::from_extension(ext.as_str())
        } else {
            None
        }
    }

    pub fn as_str(&self) -> (r: &'static str)
        ensures
            r@ == match self {
                Language::Rust => "Rust"@,
                Language::Python => "Python"@,
                Language::JavaScript => "JavaScript"@,
            },
    {
        match self {
            Language::Rust => "Rust",
            Language::Python => "Python",
            Language::JavaScript => "JavaScript",
        }
    }
}

} // verus!
