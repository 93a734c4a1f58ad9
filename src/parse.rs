//! Reading a request from its text: a request line `METHOD PATH VERSION`, header
//! lines `Name: value`, a blank line, then the body. Lines end in `\n`, with an
//! optional `\r` before it.
use vstd::prelude::*;
use crate::message::Request;

verus! {

/// Index of the first `c` in `s`, or -1.
pub open spec fn first_index_of(s: Seq<char>, c: char) -> int
    decreases s.len(),
{
    if s.len() == 0 {
        -1
    } else if s[0] == c {
        0
    } else {
        let r = first_index_of(s.drop_first(), c);
        if r < 0 { -1 } else { r + 1 }
    }
}

pub proof fn lemma_first_index_of(s: Seq<char>, c: char)
    ensures
        -1 <= first_index_of(s, c) < s.len(),
        first_index_of(s, c) >= 0 ==> s[first_index_of(s, c)] == c,
        forall|k: int| 0 <= k < s.len() && (first_index_of(s, c) < 0 || k < first_index_of(s, c)) ==> s[k] != c,
    decreases s.len(),
{
    if s.len() > 0 && s[0] != c {
        lemma_first_index_of(s.drop_first(), c);
        assert forall|k: int| 0 <= k < s.len() && (first_index_of(s, c) < 0 || k < first_index_of(s, c)) implies s[k] != c by {
            if k > 0 {
                assert(s[k] == s.drop_first()[k - 1]);
            }
        }
    }
}

/// A line without the `\r` that may close it.
pub open spec fn strip_cr(l: Seq<char>) -> Seq<char> {
    if l.len() > 0 && l.last() == '\r' { l.drop_last() } else { l }
}

/// A header value without the one space that may open it.
pub open spec fn strip_space(v: Seq<char>) -> Seq<char> {
    if v.len() > 0 && v[0] == ' ' { v.drop_first() } else { v }
}

/// The method and path of a request line `METHOD PATH VERSION`: three
/// non-empty words parted by single spaces, the path starting with `/`.
pub open spec fn request_line(l: Seq<char>) -> Option<(Seq<char>, Seq<char>)> {
    let i = first_index_of(l, ' ');
    let rest = l.subrange(i + 1, l.len() as int);
    let j = first_index_of(rest, ' ');
    let path = rest.subrange(0, j);
    let version = rest.subrange(j + 1, rest.len() as int);
    if i > 0 && j > 0 && path[0] == '/' && version.len() > 0 && first_index_of(version, ' ') < 0 {
        Some((l.subrange(0, i), path))
    } else {
        None
    }
}

/// The header `Name: value` of a line; the name is not empty.
pub open spec fn header_line(l: Seq<char>) -> Option<(Seq<char>, Seq<char>)> {
    let c = first_index_of(l, ':');
    if c > 0 {
        Some((l.subrange(0, c), strip_space(l.subrange(c + 1, l.len() as int))))
    } else {
        None
    }
}

/// The headers at the start of `s` and the body after the blank line that
/// ends them.
pub open spec fn headers_and_body(s: Seq<char>) -> Option<(Seq<(Seq<char>, Seq<char>)>, Seq<char>)>
    decreases s.len(),
{
    let k = first_index_of(s, '\n');
    if k < 0 || k >= s.len() {
        None
    } else {
        let l = strip_cr(s.subrange(0, k));
        let after = s.subrange(k + 1, s.len() as int);
        if l.len() == 0 {
            Some((Seq::empty(), after))
        } else {
            match header_line(l) {
                None => None,
                Some(h) => match headers_and_body(after) {
                    None => None,
                    Some(r) => Some((seq![h] + r.0, r.1)),
                },
            }
        }
    }
}

/// The parts of a request text: method, path, headers, body.
pub open spec fn parse_text(t: Seq<char>) -> Option<(Seq<char>, Seq<char>, Seq<(Seq<char>, Seq<char>)>, Seq<char>)> {
    let k = first_index_of(t, '\n');
    if k < 0 {
        None
    } else {
        match request_line(strip_cr(t.subrange(0, k))) {
            None => None,
            Some(mp) => match headers_and_body(t.subrange(k + 1, t.len() as int)) {
                None => None,
                Some(hb) => Some((mp.0, mp.1, hb.0, hb.1)),
            },
        }
    }
}

/// The headers of a request as plain text pairs.
pub open spec fn header_view(hs: Seq<(String, String)>) -> Seq<(Seq<char>, Seq<char>)> {
    hs.map_values(|h: (String, String)| (h.0@, h.1@))
}

/// The index of the first `c` in `s`, if any.
pub fn find_first(s: &str, c: char) -> (r: Option<usize>)
    ensures
        r is None ==> first_index_of(s@, c) == -1,
        r matches Some(i) ==> first_index_of(s@, c) == i,
{
    let n = s.unicode_len();
    let mut i: usize = 0;
    proof {
        lemma_first_index_of(s@, c);
    }
    while i < n
        invariant
            i <= n == s@.len(),
            -1 <= first_index_of(s@, c) < s@.len(),
            first_index_of(s@, c) >= 0 ==> s@[first_index_of(s@, c)] == c,
            forall|k: int| 0 <= k < s@.len() && (first_index_of(s@, c) < 0 || k < first_index_of(s@, c)) ==> s@[k] != c,
            forall|k: int| 0 <= k < i ==> s@[k] != c,
        decreases n - i,
    {
        if s.get_char(i) == c {
            return Some(i);
        }
        i = i + 1;
    }
    None
}

/// `l` without a closing `\r`.
fn strip_cr_str(l: &str) -> (r: &str)
    ensures
        r@ == strip_cr(l@),
{
    let n = l.unicode_len();
    if n > 0 && l.get_char(n - 1) == '\r' {
        l.substring_char(0, n - 1)
    } else {
        l
    }
}

/// The method and path of a request line.
pub fn parse_request_line(l: &str) -> (r: Option<(String, String)>)
    ensures
        r matches Some(mp) ==> request_line(l@) == Some((mp.0@, mp.1@)),
        r is None ==> request_line(l@) is None,
{
    let n = l.unicode_len();
    proof {
        lemma_first_index_of(l@, ' ');
    }
    let i = match find_first(l, ' ') {
        Some(i) => i,
        None => return None,
    };
    let rest = l.substring_char(i + 1, n);
    proof {
        lemma_first_index_of(rest@, ' ');
    }
    let j = match find_first(rest, ' ') {
        Some(j) => j,
        None => return None,
    };
    let m = rest.unicode_len();
    let path = rest.substring_char(0, j);
    let version = rest.substring_char(j + 1, m);
    if i > 0 && j > 0 && path.get_char(0) == '/' && version.unicode_len() > 0
        && find_first(version, ' ').is_none() {
        Some((l.substring_char(0, i).to_string(), path.to_string()))
    } else {
        None
    }
}

/// The header of a line `Name: value`.
pub fn parse_header_line(l: &str) -> (r: Option<(String, String)>)
    ensures
        r matches Some(h) ==> header_line(l@) == Some((h.0@, h.1@)),
        r is None ==> header_line(l@) is None,
{
    let n = l.unicode_len();
    proof {
        lemma_first_index_of(l@, ':');
    }
    match find_first(l, ':') {
        Some(c) => {
            if c == 0 {
                return None;
            }
            let v = l.substring_char(c + 1, n);
            let value = if v.unicode_len() > 0 && v.get_char(0) == ' ' {
                let k = v.unicode_len();
                let w = v.substring_char(1, k);
                assert(w@ =~= v@.drop_first());
                w
            } else {
                v
            };
            Some((l.substring_char(0, c).to_string(), value.to_string()))
        },
        None => None,
    }
}

/// Reads a request from its text; nothing where the text is not one.
pub fn build_request(text: &str) -> (r: Option<Request>)
    ensures
        r is None <==> parse_text(text@) is None,
        r matches Some(req) ==> ({
            let p = parse_text(text@)->0;
            &&& req.method@ == p.0
            &&& req.path@ == p.1
            &&& header_view(req.headers@) == p.2
            &&& req.body@ == p.3
            &&& req.static_request_data is None
        }),
{
    let n = text.unicode_len();
    proof {
        lemma_first_index_of(text@, '\n');
    }
    let k = match find_first(text, '\n') {
        Some(k) => k,
        None => return None,
    };
    let line = strip_cr_str(text.substring_char(0, k));
    let (method, path) = match parse_request_line(line) {
        Some(mp) => mp,
        None => return None,
    };
    let mut rest = text.substring_char(k + 1, n);
    let ghost start = rest@;
    let ghost mv = method@;
    let ghost pv = path@;
    assert(parse_text(text@) == match headers_and_body(start) {
        None => None,
        Some(hb) => Some((mv, pv, hb.0, hb.1)),
    });
    let mut headers: Vec<(String, String)> = Vec::new();
    loop
        invariant
            method@ == mv,
            path@ == pv,
            parse_text(text@) == match headers_and_body(start) {
                None => None,
                Some(hb) => Some((mv, pv, hb.0, hb.1)),
            },
            headers_and_body(start) == match headers_and_body(rest@) {
                None => None,
                Some(r) => Some((header_view(headers@) + r.0, r.1)),
            },
        decreases rest@.len(),
    {
        let m = rest.unicode_len();
        proof {
            lemma_first_index_of(rest@, '\n');
        }
        let e = match find_first(rest, '\n') {
            Some(e) => e,
            None => return None,
        };
        let l = strip_cr_str(rest.substring_char(0, e));
        let after = rest.substring_char(e + 1, m);
        assert(headers_and_body(rest@) == if l@.len() == 0 {
            Some((Seq::<(Seq<char>, Seq<char>)>::empty(), after@))
        } else {
            match header_line(l@) {
                None => None,
                Some(h) => match headers_and_body(after@) {
                    None => None,
                    Some(r) => Some((seq![h] + r.0, r.1)),
                },
            }
        });
        if l.unicode_len() == 0 {
            assert(header_view(headers@) + Seq::empty() =~= header_view(headers@));
            let req = Request {
                method,
                path,
                headers,
                body: after.to_string(),
                static_request_data: None,
            };
            return Some(req);
        }
        let h = match parse_header_line(l) {
            Some(h) => h,
            None => return None,
        };
        let ghost before = headers@;
        headers.push(h);
        proof {
            assert(header_view(headers@) =~= header_view(before).push((h.0@, h.1@)));
            match headers_and_body(after@) {
                None => {},
                Some(r) => {
                    assert(header_view(before) + (seq![(h.0@, h.1@)] + r.0) =~= header_view(headers@) + r.0);
                },
            }
        }
        rest = after;
    }
}

} // verus!
