//! Requests as the dispatcher sees them, and responses with their wire form.
use vstd::prelude::*;
use vstd::string::*;
use crate::router::{entry_for, find_key, keys_of, lemma_last_match_bounds, last_match};

verus! {

/// Marks a request rewritten to the static-file group. `path` is the requested
/// file; without one, a default page is meant.
pub struct StaticRequestData {
    pub path: Option<String>,
}

/// An inbound request.
pub struct Request {
    pub method: String,
    pub path: String,
    pub headers: Vec<(String, String)>,
    pub body: String,
    pub static_request_data: Option<StaticRequestData>,
}

impl Request {
    /// A request with the given method and path, no headers, an empty body and
    /// no static marker.
    pub fn new(method: &str, path: &str) -> (r: Request)
        ensures
            r.method@ == method@,
            r.path@ == path@,
            r.headers@.len() == 0,
            r.body@.len() == 0,
            r.static_request_data is None,
    {
        Request {
            method: method.to_string(),
            path: path.to_string(),
            headers: Vec::new(),
            body: String::new(),
            static_request_data: None,
        }
    }
}

/// The character of a decimal digit.
pub open spec fn digit_char(d: nat) -> char {
    if d == 0 { '0' } else if d == 1 { '1' } else if d == 2 { '2' } else if d == 3 { '3' }
    else if d == 4 { '4' } else if d == 5 { '5' } else if d == 6 { '6' } else if d == 7 { '7' }
    else if d == 8 { '8' } else { '9' }
}

/// The decimal numeral of `n`, without leading zeros.
pub open spec fn decimal(n: nat) -> Seq<char>
    decreases n,
{
    if n < 10 {
        seq![digit_char(n)]
    } else {
        decimal(n / 10).push(digit_char(n % 10))
    }
}

fn digit_str(d: usize) -> (r: &'static str)
    requires
        d < 10,
    ensures
        r@ == seq![digit_char(d as nat)],
{
    proof {
        reveal_strlit("0"); reveal_strlit("1"); reveal_strlit("2"); reveal_strlit("3");
        reveal_strlit("4"); reveal_strlit("5"); reveal_strlit("6"); reveal_strlit("7");
        reveal_strlit("8"); reveal_strlit("9");
    }
    let r = if d == 0 { "0" } else if d == 1 { "1" } else if d == 2 { "2" } else if d == 3 { "3" }
    else if d == 4 { "4" } else if d == 5 { "5" } else if d == 6 { "6" } else if d == 7 { "7" }
    else if d == 8 { "8" } else { "9" };
    assert(r@ =~= seq![digit_char(d as nat)]);
    r
}

/// The decimal numeral of `n`.
pub fn decimal_string(n: usize) -> (r: String)
    ensures
        r@ == decimal(n as nat),
    decreases n,
{
    if n < 10 {
        String::from_str(digit_str(n))
    } else {
        let mut s = decimal_string(n / 10);
        s.append(digit_str(n % 10));
        s
    }
}

/// The header block: each header as `name: value` and a line end.
pub open spec fn header_lines(hs: Seq<(String, String)>) -> Seq<char>
    decreases hs.len(),
{
    if hs.len() == 0 {
        Seq::empty()
    } else {
        header_lines(hs.drop_last()) + hs.last().0@ + ": "@ + hs.last().1@ + "\r\n"@
    }
}

/// An outbound response. It is sent only once a status code is set.
pub struct Response {
    pub status_code: Option<u16>,
    pub status_message: String,
    pub headers: Vec<(String, String)>,
    pub body: String,
}

/// The bytes sent for a response with a status: status line, headers, a blank
/// line, body.
pub open spec fn wire_text(code: u16, message: Seq<char>, headers: Seq<(String, String)>, body: Seq<char>) -> Seq<char> {
    "HTTP/1.1 "@ + decimal(code as nat) + " "@ + message + "\r\n"@ + header_lines(headers) + "\r\n"@ + body
}

impl Response {
    /// Every field is at its default: no status, empty message, no headers,
    /// empty body.
    pub open spec fn is_default(&self) -> bool {
        &&& self.status_code is None
        &&& self.status_message@.len() == 0
        &&& self.headers@.len() == 0
        &&& self.body@.len() == 0
    }

    /// The value of the header `name`.
    pub open spec fn header(&self, name: Seq<char>) -> Option<String> {
        entry_for(self.headers@, name)
    }

    /// A response with every field at its default.
    pub fn new() -> (r: Response)
        ensures
            r.is_default(),
    {
        Response { status_code: None, status_message: String::new(), headers: Vec::new(), body: String::new() }
    }

    /// Sets the status code and message.
    pub fn set_status(&mut self, code: u16, message: &str)
        ensures
            final(self).status_code == Some(code),
            final(self).status_message@ == message@,
            final(self).headers == old(self).headers,
            final(self).body == old(self).body,
    {
        self.status_code = Some(code);
        self.status_message = message.to_string();
    }

    /// Sets the status code.
    pub fn set_status_code(&mut self, code: u16)
        ensures
            final(self).status_code == Some(code),
            final(self).status_message == old(self).status_message,
            final(self).headers == old(self).headers,
            final(self).body == old(self).body,
    {
        self.status_code = Some(code);
    }

    /// Sets the status message.
    pub fn set_status_message(&mut self, message: &str)
        ensures
            final(self).status_code == old(self).status_code,
            final(self).status_message@ == message@,
            final(self).headers == old(self).headers,
            final(self).body == old(self).body,
    {
        self.status_message = message.to_string();
    }

    /// Sets the header `name` to `value`, replacing the value it had; a new
    /// header goes at the end.
    pub fn set_header(&mut self, name: &str, value: &str)
        ensures
            final(self).status_code == old(self).status_code,
            final(self).status_message == old(self).status_message,
            final(self).body == old(self).body,
            ({
                let i = last_match(keys_of(old(self).headers@), name@);
                if i >= 0 {
                    &&& final(self).headers@.len() == old(self).headers@.len()
                    &&& final(self).headers@[i].0@ == name@
                    &&& final(self).headers@[i].1@ == value@
                    &&& forall|k: int| 0 <= k < old(self).headers@.len() && k != i
                        ==> final(self).headers@[k] == old(self).headers@[k]
                } else {
                    &&& final(self).headers@.len() == old(self).headers@.len() + 1
                    &&& final(self).headers@.last().0@ == name@
                    &&& final(self).headers@.last().1@ == value@
                    &&& forall|k: int| 0 <= k < old(self).headers@.len()
                        ==> final(self).headers@[k] == old(self).headers@[k]
                }
            }),
            final(self).header(name@) matches Some(v) && v@ == value@,
            forall|n: Seq<char>| n != name@ ==> #[trigger] final(self).header(n) == old(self).header(n),
    {
        proof {
            lemma_last_match_bounds(keys_of(self.headers@), name@);
        }
        match find_key(&self.headers, name) {
            Some(i) => {
                let key = self.headers[i].0.clone();
                self.headers.set(i, (key, value.to_string()));
                assert(keys_of(self.headers@) =~= keys_of(old(self).headers@));
                assert forall|n: Seq<char>| n != name@ implies #[trigger] self.header(n) == old(self).header(n) by {
                    lemma_last_match_bounds(keys_of(old(self).headers@), n);
                    let j = last_match(keys_of(old(self).headers@), n);
                    if j >= 0 {
                        assert(self.headers@[j] == old(self).headers@[j]);
                    }
                }
            },
            None => {
                self.headers.push((name.to_string(), value.to_string()));
                let ghost after = keys_of(self.headers@);
                assert(after.drop_last() =~= keys_of(old(self).headers@));
                assert(after.last() == name@);
                assert forall|n: Seq<char>| n != name@ implies #[trigger] self.header(n) == old(self).header(n) by {
                    lemma_last_match_bounds(keys_of(old(self).headers@), n);
                    let j = last_match(keys_of(old(self).headers@), n);
                    if j >= 0 {
                        assert(self.headers@[j] == old(self).headers@[j]);
                    }
                }
            },
        }
    }

    /// Sets the body to `content`, with `Content-Type: mime` and a
    /// `Content-Length` of its length in bytes.
    pub fn set_contents(&mut self, mime: &str, content: &str)
        ensures
            final(self).status_code == old(self).status_code,
            final(self).status_message == old(self).status_message,
            final(self).body@ == content@,
            final(self).header("Content-Type"@) matches Some(v) && v@ == mime@,
            final(self).header("Content-Length"@) matches Some(v)
                && v@ == decimal(content.len() as nat),
    {
        let length = decimal_string(content.len());
        self.set_header("Content-Type", mime);
        let ghost typed_header = self.header("Content-Type"@);
        assert(typed_header matches Some(v) && v@ == mime@);
        self.set_header("Content-Length", length.as_str());
        proof {
            reveal_strlit("Content-Type");
            reveal_strlit("Content-Length");
            assert("Content-Type"@ != "Content-Length"@) by {
                assert("Content-Type"@[8] != "Content-Length"@[8]);
            }
        }
        assert(self.header("Content-Length"@) matches Some(v) && v@ == length@);
        assert(self.header("Content-Type"@) == typed_header);
        self.body = content.to_string();
    }

    /// Sets a plain-text body.
    pub fn set_content(&mut self, content: &str)
        ensures
            final(self).status_code == old(self).status_code,
            final(self).status_message == old(self).status_message,
            final(self).body@ == content@,
            final(self).header("Content-Type"@) matches Some(v) && v@ == "text/plain"@,
            final(self).header("Content-Length"@) matches Some(v)
                && v@ == decimal(content.len() as nat),
    {
        self.set_contents("text/plain", content);
    }

    /// What is sent for this response: nothing while no status code is set.
    pub fn to_wire(&self) -> (r: Option<String>)
        ensures
            r is None <==> self.status_code is None,
            r matches Some(t) ==> t@ == wire_text(
                self.status_code->0, self.status_message@, self.headers@, self.body@),
    {
        match self.status_code {
            None => None,
            Some(code) => {
                let mut out = String::from_str("HTTP/1.1 ");
                let num = decimal_string(code as usize);
                out.append(num.as_str());
                out.append(" ");
                out.append(self.status_message.as_str());
                out.append("\r\n");
                let ghost head = out@;
                let n = self.headers.len();
                let mut i: usize = 0;
                while i < n
                    invariant
                        i <= n == self.headers@.len(),
                        out@ == head + header_lines(self.headers@.subrange(0, i as int)),
                    decreases n - i,
                {
                    assert(self.headers@.subrange(0, i + 1).drop_last() =~= self.headers@.subrange(0, i as int));
                    out.append(self.headers[i].0.as_str());
                    out.append(": ");
                    out.append(self.headers[i].1.as_str());
                    out.append("\r\n");
                    i = i + 1;
                }
                assert(self.headers@.subrange(0, n as int) =~= self.headers@);
                out.append("\r\n");
                out.append(self.body.as_str());
                assert(out@ =~= wire_text(code, self.status_message@, self.headers@, self.body@));
                Some(out)
            },
        }
    }
}

} // verus!
