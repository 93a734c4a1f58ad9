//! Path text: prefix coverage, file names and extensions, joining.
use vstd::prelude::*;
use vstd::string::*;

verus! {

/// `b` is a prefix of `p`.
pub open spec fn is_prefix_of(b: Seq<char>, p: Seq<char>) -> bool {
    b.len() <= p.len() && p.subrange(0, b.len() as int) == b
}

/// The base path `b` covers the request path `p`: `b` is a prefix of `p` that
/// ends at a segment boundary (the end of `p`, a `/` closing `b`, or a `/`
/// following it in `p`).
pub open spec fn covers(b: Seq<char>, p: Seq<char>) -> bool {
    &&& is_prefix_of(b, p)
    &&& (p.len() == b.len() || (b.len() > 0 && b.last() == '/') || p[b.len() as int] == '/')
}

/// Index of the last occurrence of `c` in `s`, or -1.
pub open spec fn last_index_of(s: Seq<char>, c: char) -> int
    decreases s.len(),
{
    if s.len() == 0 {
        -1
    } else if s.last() == c {
        s.len() - 1
    } else {
        last_index_of(s.drop_last(), c)
    }
}

/// The last segment of a path: what follows its last `/`.
pub open spec fn file_name(p: Seq<char>) -> Seq<char> {
    p.subrange(last_index_of(p, '/') + 1, p.len() as int)
}

/// The extension of a path: what follows the last `.` of its file name, where
/// that `.` is not the name's first character.
pub open spec fn extension_of(p: Seq<char>) -> Option<Seq<char>> {
    let n = file_name(p);
    let d = last_index_of(n, '.');
    if d > 0 {
        Some(n.subrange(d + 1, n.len() as int))
    } else {
        None
    }
}

/// Where a resource named `rel` lies under the directory `root`.
pub open spec fn joined(root: Seq<char>, rel: Seq<char>) -> Seq<char> {
    if rel.len() > 0 && rel[0] == '/' {
        root + rel
    } else {
        root + seq!['/'] + rel
    }
}

pub proof fn lemma_last_index_of_bounds(s: Seq<char>, c: char)
    ensures
        -1 <= last_index_of(s, c) < s.len(),
        last_index_of(s, c) >= 0 ==> s[last_index_of(s, c)] == c,
        forall|k: int| last_index_of(s, c) < k < s.len() ==> s[k] != c,
    decreases s.len(),
{
    if s.len() > 0 {
        lemma_last_index_of_bounds(s.drop_last(), c);
        if s.last() != c {
            assert forall|k: int| last_index_of(s, c) < k < s.len() implies s[k] != c by {
                if k < s.len() - 1 {
                    assert(s[k] == s.drop_last()[k]);
                }
            }
        }
    }
}

/// The index of the last `c` in `s`, if any.
pub fn find_last(s: &str, c: char) -> (r: Option<usize>)
    ensures
        r is None ==> last_index_of(s@, c) == -1,
        r matches Some(i) ==> last_index_of(s@, c) == i,
{
    let n = s.unicode_len();
    let mut i: usize = n;
    assert(s@.subrange(0, n as int) =~= s@);
    while i > 0
        invariant
            i <= n == s@.len(),
            last_index_of(s@, c) == last_index_of(s@.subrange(0, i as int), c),
        decreases i,
    {
        let ch = s.get_char(i - 1);
        assert(s@.subrange(0, i as int).drop_last() =~= s@.subrange(0, i - 1));
        if ch == c {
            assert(s@.subrange(0, i as int).last() == c);
            return Some(i - 1);
        }
        i = i - 1;
    }
    assert(s@.subrange(0, 0).len() == 0);
    None
}

/// Whether `a` and `b` hold the same characters.
pub fn same_text(a: &str, b: &str) -> (r: bool)
    ensures
        r == (a@ == b@),
{
    let n = a.unicode_len();
    if n != b.unicode_len() {
        return false;
    }
    let mut i: usize = 0;
    while i < n
        invariant
            n == a@.len() == b@.len(),
            i <= n,
            forall|k: int| 0 <= k < i ==> a@[k] == b@[k],
        decreases n - i,
    {
        if a.get_char(i) != b.get_char(i) {
            return false;
        }
        i = i + 1;
    }
    assert(a@ =~= b@);
    true
}

/// Whether the base path `base` covers the request path `path`.
pub fn covers_path(base: &str, path: &str) -> (r: bool)
    ensures
        r == covers(base@, path@),
{
    let bn = base.unicode_len();
    let pn = path.unicode_len();
    if bn > pn {
        return false;
    }
    let mut i: usize = 0;
    while i < bn
        invariant
            bn == base@.len() <= pn == path@.len(),
            i <= bn,
            forall|k: int| 0 <= k < i ==> path@[k] == base@[k],
        decreases bn - i,
    {
        if base.get_char(i) != path.get_char(i) {
            assert(path@.subrange(0, bn as int)[i as int] != base@[i as int]);
            return false;
        }
        i = i + 1;
    }
    assert(path@.subrange(0, bn as int) =~= base@);
    if bn == pn {
        true
    } else if bn > 0 && base.get_char(bn - 1) == '/' {
        true
    } else {
        path.get_char(bn) == '/'
    }
}

/// The extension of `path`'s file name, if it has one.
pub fn extension(path: &str) -> (r: Option<String>)
    ensures
        r matches Some(e) ==> extension_of(path@) == Some(e@),
        r is None ==> extension_of(path@) is None,
{
    let n = path.unicode_len();
    let slash = find_last(path, '/');
    proof {
        lemma_last_index_of_bounds(path@, '/');
    }
    let start = match slash {
        Some(k) => k + 1,
        None => 0,
    };
    let name = path.substring_char(start, n);
    assert(name@ == file_name(path@));
    let dot = find_last(name, '.');
    proof {
        lemma_last_index_of_bounds(name@, '.');
    }
    match dot {
        Some(d) => {
            if d > 0 {
                let m = name.unicode_len();
                let e = name.substring_char(d + 1, m);
                Some(e.to_string())
            } else {
                None
            }
        },
        None => None,
    }
}

/// The location of the resource `rel` under the directory `root`.
pub fn join_path(root: &str, rel: &str) -> (r: String)
    ensures
        r@ == joined(root@, rel@),
{
    let mut out = String::from_str(root);
    if rel.unicode_len() > 0 && rel.get_char(0) == '/' {
        out.append(rel);
    } else {
        out.append("/");
        out.append(rel);
        proof {
            reveal_strlit("/");
        }
    }
    out
}

} // verus!
