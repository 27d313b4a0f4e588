use vstd::prelude::*;
use vstd::std_specs::iter::IteratorSpec;

use crate::traversal::texts;

verus! {

/// Whether both texts hold the same characters.
pub(crate) fn str_eq(a: &str, b: &str) -> (r: bool)
    ensures
        r == (a@ == b@),
{
    let ac = chars_of(a);
    let bc = chars_of(b);
    if ac.len() != bc.len() {
        return false;
    }
    let mut i: usize = 0;
    while i < ac.len()
        invariant
            ac@ == a@,
            bc@ == b@,
            ac@.len() == bc@.len(),
            i <= ac@.len(),
            forall|j: int| 0 <= j < i ==> ac@[j] == bc@[j],
        decreases ac@.len() - i,
    {
        if ac[i] != bc[i] {
            return false;
        }
        i = i + 1;
    }
    assert(ac@ =~= bc@);
    true
}

/// The characters of `s`, in order.
pub(crate) fn chars_of(s: &str) -> (r: Vec<char>)
    ensures
        r@ == s@,
{
    broadcast use vstd::string::group_string_axioms;

    let mut it = s.chars();
    let mut r: Vec<char> = Vec::new();
    loop
        invariant
            r@ + it.remaining() == s@,
            it.decrease() is Some,
        ensures
            r@ == s@,
        decreases it.decrease()->0,
    {
        let ghost before = it.remaining();
        match it.next() {
            Some(c) => {
                let ghost prev = r@;
                r.push(c);
                assert(r@ + it.remaining() =~= prev + before);
            },
            None => {
                assert(r@ =~= s@);
                break;
            },
        }
    }
    r
}

/// Relies on collecting characters into a `String` (`FromIterator<char>`):
/// the characters from `from` up to `to`, in order.
#[verifier::external_body]
pub(crate) fn string_of(cs: &[char], from: usize, to: usize) -> (r: String)
    requires
        from <= to <= cs@.len(),
    ensures
        r@ == cs@.subrange(from as int, to as int),
{
    cs[from..to].iter().collect()
}

/// Whether `s` begins with `p`.
pub open spec fn has_prefix(s: Seq<char>, p: Seq<char>) -> bool {
    p.len() <= s.len() && s.subrange(0, p.len() as int) == p
}

/// Whether `s` ends with `p`.
pub open spec fn has_suffix(s: Seq<char>, p: Seq<char>) -> bool {
    p.len() <= s.len() && s.subrange(s.len() - p.len(), s.len() as int) == p
}

/// Whether `p` occurs in `s` at position `i`.
pub open spec fn occurs_at(s: Seq<char>, p: Seq<char>, i: int) -> bool {
    0 <= i && i + p.len() <= s.len() && s.subrange(i, i + p.len()) == p
}

/// Whether `p` occurs in `s` at position `i`.
pub(crate) fn matches_at(s: &[char], p: &[char], i: usize) -> (r: bool)
    ensures
        r == occurs_at(s@, p@, i as int),
{
    if i > s.len() || p.len() > s.len() - i {
        return false;
    }
    let n = s.len();
    let mut k: usize = 0;
    while k < p.len()
        invariant
            n == s@.len(),
            i + p@.len() <= s@.len(),
            k <= p@.len(),
            forall|j: int| 0 <= j < k ==> s@[i + j] == p@[j],
        decreases p@.len() - k,
    {
        if s[i + k] != p[k] {
            assert(s@.subrange(i as int, i + p@.len())[k as int] != p@[k as int]);
            return false;
        }
        k = k + 1;
    }
    assert(s@.subrange(i as int, i + p@.len()) =~= p@);
    true
}

/// Whether `s` begins with `p`.
pub(crate) fn starts_with(s: &str, p: &str) -> (r: bool)
    ensures
        r == has_prefix(s@, p@),
{
    let sc = chars_of(s);
    let pc = chars_of(p);
    matches_at(sc.as_slice(), pc.as_slice(), 0)
}

/// Whether `s` ends with `p`.
pub(crate) fn ends_with(s: &str, p: &str) -> (r: bool)
    ensures
        r == has_suffix(s@, p@),
{
    let sc = chars_of(s);
    let pc = chars_of(p);
    if pc.len() > sc.len() {
        return false;
    }
    matches_at(sc.as_slice(), pc.as_slice(), sc.len() - pc.len())
}

/// Unicode `White_Space`, as `char::is_whitespace` documents it.
pub open spec fn is_space(c: char) -> bool {
    ||| c == ' ' ||| ('\t' <= c && c <= '\r') ||| c == '\u{85}' ||| c == '\u{a0}'
    ||| c == '\u{1680}' ||| ('\u{2000}' <= c && c <= '\u{200a}') ||| c == '\u{2028}'
    ||| c == '\u{2029}' ||| c == '\u{202f}' ||| c == '\u{205f}' ||| c == '\u{3000}'
}

pub(crate) fn space(c: char) -> (r: bool)
    ensures
        r == is_space(c),
{
    c == ' ' || ('\t' <= c && c <= '\r') || c == '\u{85}' || c == '\u{a0}' || c == '\u{1680}' || (
    '\u{2000}' <= c && c <= '\u{200a}') || c == '\u{2028}' || c == '\u{2029}' || c == '\u{202f}'
        || c == '\u{205f}' || c == '\u{3000}'
}

/// The number of leading white-space characters of `s`.
pub open spec fn lead(s: Seq<char>) -> int
    decreases s.len(),
{
    if s.len() > 0 && is_space(s[0]) {
        1 + lead(s.drop_first())
    } else {
        0
    }
}

/// The number of trailing white-space characters of `s`.
pub open spec fn trail(s: Seq<char>) -> int
    decreases s.len(),
{
    if s.len() > 0 && is_space(s.last()) {
        1 + trail(s.drop_last())
    } else {
        0
    }
}

/// `s` without leading and trailing white space.
pub open spec fn trim(s: Seq<char>) -> Seq<char> {
    if lead(s) >= s.len() {
        Seq::empty()
    } else {
        s.subrange(lead(s), s.len() - trail(s))
    }
}

/// The pieces of `s` between occurrences of `c`; one more than there are `c`s.
pub open spec fn split_on(s: Seq<char>, c: char) -> Seq<Seq<char>>
    decreases s.len(),
{
    if s.len() == 0 {
        seq![Seq::empty()]
    } else {
        let rest = split_on(s.drop_last(), c);
        if s.last() == c {
            rest.push(Seq::empty())
        } else {
            rest.update(rest.len() - 1, rest.last().push(s.last()))
        }
    }
}

proof fn lemma_lead_bound(s: Seq<char>)
    ensures
        0 <= lead(s) <= s.len(),
        forall|j: int| 0 <= j < lead(s) ==> is_space(s[j]),
        lead(s) < s.len() ==> !is_space(s[lead(s)]),
    decreases s.len(),
{
    if s.len() > 0 && is_space(s[0]) {
        lemma_lead_bound(s.drop_first());
        assert forall|j: int| 0 <= j < lead(s) implies is_space(s[j]) by {
            if j > 0 {
                assert(s[j] == s.drop_first()[j - 1]);
            }
        }
    }
}

proof fn lemma_trail_bound(s: Seq<char>)
    ensures
        0 <= trail(s) <= s.len(),
        forall|j: int| s.len() - trail(s) <= j < s.len() ==> is_space(s[j]),
        trail(s) < s.len() ==> !is_space(s[s.len() - trail(s) - 1]),
    decreases s.len(),
{
    if s.len() > 0 && is_space(s.last()) {
        lemma_trail_bound(s.drop_last());
        assert forall|j: int| s.len() - trail(s) <= j < s.len() implies is_space(s[j]) by {
            if j < s.len() - 1 {
                assert(s[j] == s.drop_last()[j]);
            }
        }
    }
}

/// The bounds of `s` without leading and trailing white space.
pub(crate) fn trim_bounds(s: &[char]) -> (r: (usize, usize))
    ensures
        r.0 <= r.1 <= s@.len(),
        s@.subrange(r.0 as int, r.1 as int) == trim(s@),
{
    proof {
        lemma_lead_bound(s@);
        lemma_trail_bound(s@);
    }
    let n = s.len();
    let mut a: usize = 0;
    while a < n && space(s[a])
        invariant
            n == s@.len(),
            a <= lead(s@),
            lead(s@) <= n,
            forall|j: int| 0 <= j < lead(s@) ==> is_space(s@[j]),
            lead(s@) < n ==> !is_space(s@[lead(s@)]),
        decreases n - a,
    {
        a = a + 1;
    }
    assert(a == lead(s@));
    if a >= n {
        return (n, n);
    }
    let mut b: usize = n;
    while b > a && space(s[b - 1])
        invariant
            n == s@.len(),
            a < n,
            a == lead(s@),
            a <= b <= n,
            b >= n - trail(s@),
            trail(s@) <= n,
            forall|j: int| n - trail(s@) <= j < n ==> is_space(s@[j]),
            trail(s@) < n ==> !is_space(s@[n - trail(s@) - 1]),
            !is_space(s@[a as int]),
        decreases b,
    {
        b = b - 1;
    }
    assert(b == n - trail(s@));
    (a, b)
}

/// The characters of `s` split at each `c`.
pub(crate) fn split_chars(s: &[char], c: char) -> (r: Vec<Vec<char>>)
    ensures
        r@.map_values(|v: Vec<char>| v@) == split_on(s@, c),
{
    let mut done: Vec<Vec<char>> = Vec::new();
    let mut cur: Vec<char> = Vec::new();
    let mut i: usize = 0;
    while i < s.len()
        invariant
            i <= s@.len(),
            done@.map_values(|v: Vec<char>| v@).push(cur@) == split_on(s@.subrange(0, i as int), c),
        decreases s@.len() - i,
    {
        let ghost before = done@.map_values(|v: Vec<char>| v@);
        let ghost bc = cur@;
        proof {
            let sub = s@.subrange(0, i + 1);
            assert(sub.drop_last() =~= s@.subrange(0, i as int));
            assert(sub.last() == s@[i as int]);
        }
        if s[i] == c {
            let piece = cur;
            done.push(piece);
            cur = Vec::new();
            assert(done@.map_values(|v: Vec<char>| v@) =~= before.push(bc));
            assert(done@.map_values(|v: Vec<char>| v@).push(cur@) =~= before.push(bc).push(Seq::empty()));
        } else {
            cur.push(s[i]);
            assert(done@.map_values(|v: Vec<char>| v@).push(cur@) =~= before.push(bc).update(before.len() as int, bc.push(s@[i as int])));
        }
        i = i + 1;
    }
    assert(s@.subrange(0, i as int) =~= s@);
    let ghost before = done@.map_values(|v: Vec<char>| v@);
    done.push(cur);
    assert(done@.map_values(|v: Vec<char>| v@) =~= before.push(cur@));
    done
}

/// `parts` joined by `sep`.
pub open spec fn join(parts: Seq<Seq<char>>, sep: Seq<char>) -> Seq<char>
    decreases parts.len(),
{
    if parts.len() == 0 {
        Seq::empty()
    } else if parts.len() == 1 {
        parts[0]
    } else {
        join(parts.drop_last(), sep) + sep + parts.last()
    }
}

/// `parts` joined by `sep`.
pub(crate) fn join_strings(parts: &Vec<String>, sep: &str) -> (r: String)
    ensures
        r@ == join(parts@.map_values(|p: String| p@), sep@),
{
    let ghost ps = parts@.map_values(|p: String| p@);
    let mut r = String::new();
    let mut i: usize = 0;
    while i < parts.len()
        invariant
            i <= parts@.len(),
            ps == parts@.map_values(|p: String| p@),
            r@ == join(ps.subrange(0, i as int), sep@),
        decreases parts@.len() - i,
    {
        proof {
            let sub = ps.subrange(0, i + 1);
            assert(sub.drop_last() =~= ps.subrange(0, i as int));
            assert(sub.last() == parts@[i as int]@);
        }
        if i > 0 {
            r.append(sep);
        } else {
            assert(r@ =~= Seq::<char>::empty());
        }
        r.append(parts[i].as_str());
        i = i + 1;
    }
    assert(ps.subrange(0, i as int) =~= ps);
    r
}

/// The first position at or after `from` where `p` occurs in `s`; -1 if none.
pub open spec fn find_from(s: Seq<char>, p: Seq<char>, from: int) -> int
    decreases s.len() + 1 - from,
{
    if from < 0 || from + p.len() > s.len() {
        -1
    } else if occurs_at(s, p, from) {
        from
    } else {
        find_from(s, p, from + 1)
    }
}

proof fn lemma_find_from(s: Seq<char>, p: Seq<char>, from: int)
    requires
        from >= 0,
    ensures
        find_from(s, p, from) == -1 || (from <= find_from(s, p, from) && occurs_at(
            s,
            p,
            find_from(s, p, from),
        )),
    decreases s.len() + 1 - from,
{
    if from + p.len() <= s.len() && !occurs_at(s, p, from) {
        lemma_find_from(s, p, from + 1);
    }
}

/// The first position at or after `from` where `p` occurs in `s`.
pub(crate) fn find_in(s: &[char], p: &[char], from: usize) -> (r: Option<usize>)
    ensures
        match r {
            Some(i) => i as int == find_from(s@, p@, from as int) && from <= i && i + p@.len()
                <= s@.len(),
            None => find_from(s@, p@, from as int) == -1,
        },
{
    let mut i = from;
    while i <= s.len() && p.len() <= s.len() - i
        invariant
            from <= i,
            find_from(s@, p@, from as int) == find_from(s@, p@, i as int),
        decreases s@.len() + 1 - i,
    {
        if p.len() == 0 {
            assert(s@.subrange(i as int, i as int) =~= p@);
        }
        if matches_at(s, p, i) {
            return Some(i);
        }
        i = i + 1;
    }
    None
}

/// `s` split at each non-overlapping occurrence of `sep`, left to right.
pub open spec fn split_str(s: Seq<char>, sep: Seq<char>) -> Seq<Seq<char>>
    decreases s.len(),
    via split_str_decreases
{
    let i = find_from(s, sep, 0);
    if sep.len() == 0 || i < 0 {
        seq![s]
    } else {
        seq![s.subrange(0, i)] + split_str(s.subrange(i + sep.len(), s.len() as int), sep)
    }
}

#[via_fn]
proof fn split_str_decreases(s: Seq<char>, sep: Seq<char>) {
    lemma_find_from(s, sep, 0);
}

pub proof fn lemma_split_str_nonempty(s: Seq<char>, sep: Seq<char>)
    ensures
        split_str(s, sep).len() >= 1,
{
}

/// `s` split at each non-overlapping occurrence of `sep`, left to right.
pub(crate) fn split_text(s: &str, sep: &str) -> (r: Vec<String>)
    ensures
        texts(r@) == split_str(s@, sep@),
{
    let cs = chars_of(s);
    let ps = chars_of(sep);
    let mut out: Vec<String> = Vec::new();
    let mut pos: usize = 0;
    if ps.len() == 0 {
        out.push(string_of(cs.as_slice(), 0, cs.len()));
        assert(cs@.subrange(0, cs@.len() as int) =~= cs@);
        assert(texts(out@) =~= seq![s@]);
        return out;
    }
    proof {
        assert(cs@.subrange(0, cs@.len() as int) =~= cs@);
        assert(texts(out@) =~= Seq::<Seq<char>>::empty());
        assert(texts(out@) + split_str(cs@, ps@) =~= split_str(cs@, ps@));
    }
    loop
        invariant
            cs@ == s@,
            ps@ == sep@,
            ps@.len() > 0,
            pos <= cs@.len(),
            texts(out@) + split_str(cs@.subrange(pos as int, cs@.len() as int), ps@) == split_str(cs@, ps@),
        decreases cs@.len() - pos,
    {
        let ghost rest = cs@.subrange(pos as int, cs@.len() as int);
        let ghost before = texts(out@);
        match find_in(cs.as_slice(), ps.as_slice(), pos) {
            Some(i) => {
                out.push(string_of(cs.as_slice(), pos, i));
                proof {
                    lemma_find_shift(cs@, ps@, pos as int, pos as int);
                    let k = i - pos;
                    assert(rest.subrange(0, k as int) =~= cs@.subrange(pos as int, i as int));
                    assert(rest.subrange(k + ps@.len(), rest.len() as int) =~= cs@.subrange(i + ps@.len(), cs@.len() as int));
                    assert(texts(out@) =~= before.push(cs@.subrange(pos as int, i as int)));
                    assert(split_str(rest, ps@) == seq![rest.subrange(0, k as int)] + split_str(rest.subrange(k + ps@.len(), rest.len() as int), ps@));
                    assert(texts(out@) + split_str(cs@.subrange(i + ps@.len(), cs@.len() as int), ps@) =~= before + split_str(rest, ps@));
                }
                assert(i + ps@.len() <= cs@.len());
                assert(cs@.len() == cs.len());
                pos = i + ps.len();
            },
            None => {
                out.push(string_of(cs.as_slice(), pos, cs.len()));
                proof {
                    lemma_find_shift(cs@, ps@, pos as int, pos as int);
                    assert(split_str(rest, ps@) == seq![rest]);
                    assert(texts(out@) =~= before.push(rest));
                    assert(texts(out@) =~= before + split_str(rest, ps@));
                    assert(texts(out@) == split_str(cs@, ps@));
                    assert(cs@ == s@ && ps@ == sep@);
                }
                return out;
            },
        }
    }
}

/// Searching a suffix finds what searching the whole finds, shifted.
proof fn lemma_find_shift(s: Seq<char>, p: Seq<char>, pos: int, j: int)
    requires
        0 <= pos <= j,
        pos <= s.len(),
    ensures
        find_from(s, p, j) == -1 <==> find_from(s.subrange(pos, s.len() as int), p, j - pos) == -1,
        find_from(s, p, j) != -1 ==> find_from(s, p, j) - pos == find_from(
            s.subrange(pos, s.len() as int),
            p,
            j - pos,
        ),
    decreases s.len() + 1 - j,
{
    let t = s.subrange(pos, s.len() as int);
    if j + p.len() <= s.len() {
        assert(occurs_at(s, p, j) == occurs_at(t, p, j - pos)) by {
            if occurs_at(t, p, j - pos) {
                assert(s.subrange(j, j + p.len()) =~= t.subrange(j - pos, j - pos + p.len()));
            }
            if occurs_at(s, p, j) {
                assert(s.subrange(j, j + p.len()) =~= t.subrange(j - pos, j - pos + p.len()));
            }
        }
        if !occurs_at(s, p, j) {
            lemma_find_shift(s, p, pos, j + 1);
        }
    }
}

/// Lexicographic order of texts, characters compared by code point.
pub open spec fn text_lt(a: Seq<char>, b: Seq<char>) -> bool
    decreases a.len(),
{
    if a.len() == 0 {
        b.len() > 0
    } else if b.len() == 0 {
        false
    } else if a[0] != b[0] {
        a[0] < b[0]
    } else {
        text_lt(a.drop_first(), b.drop_first())
    }
}

/// `text_lt` is transitive.
pub proof fn lemma_text_lt_trans(a: Seq<char>, b: Seq<char>, c: Seq<char>)
    requires
        text_lt(a, b),
        text_lt(b, c),
    ensures
        text_lt(a, c),
    decreases a.len(),
{
    if a.len() > 0 && b.len() > 0 && c.len() > 0 && a[0] == b[0] && b[0] == c[0] {
        lemma_text_lt_trans(a.drop_first(), b.drop_first(), c.drop_first());
    }
}

/// `text_lt` is irreflexive.
pub proof fn lemma_text_lt_irrefl(a: Seq<char>)
    ensures
        !text_lt(a, a),
    decreases a.len(),
{
    if a.len() > 0 {
        lemma_text_lt_irrefl(a.drop_first());
    }
}

/// Two different texts are ordered one way or the other.
pub proof fn lemma_text_lt_total(a: Seq<char>, b: Seq<char>)
    requires
        a != b,
    ensures
        text_lt(a, b) || text_lt(b, a),
    decreases a.len(),
{
    if a.len() > 0 && b.len() > 0 {
        if a[0] == b[0] {
            assert(a =~= seq![a[0]] + a.drop_first());
            assert(b =~= seq![b[0]] + b.drop_first());
            lemma_text_lt_total(a.drop_first(), b.drop_first());
        }
    } else if a.len() == 0 {
        assert(b.len() > 0) by {
            if b.len() == 0 {
                assert(a =~= b);
            }
        }
    }
}

/// Whether `a` comes before `b` in the order of their characters.
pub(crate) fn str_lt(a: &str, b: &str) -> (r: bool)
    ensures
        r == text_lt(a@, b@),
{
    let ac = chars_of(a);
    let bc = chars_of(b);
    let mut i: usize = 0;
    assert(ac@.skip(0) =~= ac@);
    assert(bc@.skip(0) =~= bc@);
    while i < ac.len() && i < bc.len()
        invariant
            ac@ == a@,
            bc@ == b@,
            i <= ac@.len(),
            i <= bc@.len(),
            text_lt(a@, b@) == text_lt(ac@.skip(i as int), bc@.skip(i as int)),
        decreases ac@.len() - i,
    {
        let ghost sa = ac@.skip(i as int);
        let ghost sb = bc@.skip(i as int);
        assert(sa[0] == ac@[i as int] && sb[0] == bc@[i as int]);
        if ac[i] != bc[i] {
            return ac[i] < bc[i];
        }
        assert(sa.drop_first() =~= ac@.skip(i + 1));
        assert(sb.drop_first() =~= bc@.skip(i + 1));
        i = i + 1;
    }
    ac.len() - i == 0 && bc.len() - i > 0
}

} // verus!
