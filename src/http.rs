use vstd::prelude::*;
use crate::error::Error;
use crate::text::{chars_of, string_of, find_char, first_index, slice_to_vec, is_ascii_digit, ascii_digit, str_eq};

verus! {

pub open spec fn is_ws(c: char) -> bool {
    c == ' ' || c == '\t' || c == '\r' || c == '\n'
}

/// `s` without the whitespace at its start.
pub open spec fn trim_start_ws(s: Seq<char>) -> Seq<char>
    decreases s.len(),
{
    if s.len() > 0 && is_ws(s[0]) {
        trim_start_ws(s.drop_first())
    } else {
        s
    }
}

/// `s` without the whitespace at its end.
pub open spec fn trim_end_ws(s: Seq<char>) -> Seq<char>
    decreases s.len(),
{
    if s.len() > 0 && is_ws(s.last()) {
        trim_end_ws(s.drop_last())
    } else {
        s
    }
}

pub open spec fn trim_ws(s: Seq<char>) -> Seq<char> {
    trim_end_ws(trim_start_ws(s))
}

/// `s` with each CR LF pair made a single LF.
pub open spec fn crlf_to_lf(s: Seq<char>) -> Seq<char>
    decreases s.len(),
{
    if s.len() >= 2 && s[0] == '\r' && s[1] == '\n' {
        seq!['\n'] + crlf_to_lf(s.subrange(2, s.len() as int))
    } else if s.len() > 0 {
        seq![s[0]] + crlf_to_lf(s.drop_first())
    } else {
        s
    }
}

/// Where the first blank line (`\n\n`) of `s` starts, or the length of `s`.
pub open spec fn blank_line_index(s: Seq<char>) -> int {
    if exists|i: int| 0 <= i && i + 1 < s.len() && #[trigger] s[i] == '\n' && s[i + 1] == '\n' {
        choose|i: int| 0 <= i && i + 1 < s.len() && #[trigger] s[i] == '\n' && s[i + 1] == '\n'
            && forall|k: int| 0 <= k < i ==> !(s[k] == '\n' && #[trigger] s[k + 1] == '\n')
    } else {
        s.len() as int
    }
}

/// The lines of `s`, split at each `\n`.
pub open spec fn split_lines(s: Seq<char>) -> Seq<Seq<char>>
    decreases s.len(),
{
    let i = first_index(s, '\n');
    if 0 <= i < s.len() {
        seq![s.subrange(0, i)] + split_lines(s.subrange(i + 1, s.len() as int))
    } else {
        seq![s]
    }
}

/// The text before the first `c` of `s` (all of `s` when there is none).
pub open spec fn before_first(s: Seq<char>, c: char) -> Seq<char> {
    s.subrange(0, first_index(s, c))
}

/// The text after the first `c` of `s` (nothing when there is none).
pub open spec fn after_first(s: Seq<char>, c: char) -> Seq<char> {
    let i = first_index(s, c);
    if i < s.len() {
        s.subrange(i + 1, s.len() as int)
    } else {
        Seq::empty()
    }
}

/// The value of a run of decimal digits that fits in `u32`.
pub open spec fn digits_u32(s: Seq<char>) -> Option<int>
    decreases s.len(),
{
    if s.len() == 0 {
        None
    } else if !is_ascii_digit(s.last()) {
        None
    } else {
        let before = if s.len() == 1 {
            Some(0int)
        } else {
            digits_u32(s.drop_last())
        };
        match before {
            Some(v) => if v * 10 + (s.last() as u32 - 0x30) <= u32::MAX {
                Some(v * 10 + (s.last() as u32 - 0x30))
            } else {
                None
            },
            None => None,
        }
    }
}

/// The status code written as `s`, or 404 when `s` is not a number that fits.
pub open spec fn status_code_of(s: Seq<char>) -> u32 {
    match digits_u32(s) {
        Some(v) => v as u32,
        None => 404,
    }
}

/// A header field: its name and value, without surrounding whitespace.
#[derive(Debug, Clone)]
pub struct Header {
    pub name: String,
    pub value: String,
}

impl Header {
    pub fn new(name: String, value: String) -> (r: Self)
        ensures
            r.name@ == name@,
            r.value@ == value@,
    {
        Self { name, value }
    }
}

/// The text of a response after leading whitespace is dropped and CR LF made LF.
pub open spec fn normalized(raw: Seq<char>) -> Seq<char> {
    crlf_to_lf(trim_start_ws(raw))
}

/// The header lines and the body of the text after the status line.
pub open spec fn head_and_body(rest: Seq<char>) -> (Seq<Seq<char>>, Seq<char>) {
    let b = blank_line_index(rest);
    if b < rest.len() {
        (split_lines(rest.subrange(0, b)), rest.subrange(b + 2, rest.len() as int))
    } else {
        (Seq::empty(), rest)
    }
}

/// A parsed HTTP response.
#[derive(Debug, Clone)]
pub struct HttpResponse {
    version: String,
    status_code: u32,
    reason: String,
    headers: Vec<Header>,
    body: String,
}

impl HttpResponse {
    pub closed spec fn version_view(&self) -> Seq<char> {
        self.version@
    }

    pub closed spec fn status_code_view(&self) -> u32 {
        self.status_code
    }

    pub closed spec fn reason_view(&self) -> Seq<char> {
        self.reason@
    }

    pub closed spec fn headers_view(&self) -> Seq<Header> {
        self.headers@
    }

    pub closed spec fn body_view(&self) -> Seq<char> {
        self.body@
    }

    /// The response that `raw` holds: it is accepted when it has a line break after leading
    /// whitespace. The status line gives the version, the code (404 when it is no number) and
    /// the reason; the header lines run up to the first blank line, and the body follows it.
    pub fn new(raw: String) -> (r: Result<Self, Error>)
        ensures
            ({
                let s = normalized(raw@);
                let nl = first_index(s, '\n');
                &&& (r is Ok <==> nl < s.len())
                &&& (r is Err ==> r->Err_0 is Network)
                &&& r is Ok ==> {
                    let status = s.subrange(0, nl);
                    let rest = s.subrange(nl + 1, s.len() as int);
                    let (lines, body) = head_and_body(rest);
                    let resp = r->Ok_0;
                    &&& resp.version_view() == before_first(status, ' ')
                    &&& resp.status_code_view() == status_code_of(before_first(after_first(status, ' '), ' '))
                    &&& resp.reason_view() == after_first(after_first(status, ' '), ' ')
                    &&& resp.body_view() == body
                    &&& resp.headers_view().len() == lines.len()
                    &&& forall|i: int| 0 <= i < lines.len() ==> {
                        &&& (#[trigger] resp.headers_view()[i]).name@ == trim_ws(before_first(lines[i], ':'))
                        &&& resp.headers_view()[i].value@ == trim_ws(after_first(lines[i], ':'))
                    }
                }
            }),
    {
        let chars = chars_of(raw.as_str());
        let s = normalize(&chars);
        let nl = match find_char(&s, '\n') {
            Some(i) => i,
            None => {
                let mut msg = chars_of("invalid http response: ");
                let mut tail = s;
                msg.append(&mut tail);
                return Err(Error::Network(string_of(&msg)));
            },
        };
        let n = s.len();
        let status = slice_to_vec(&s, 0, nl);
        let rest = slice_to_vec(&s, nl + 1, n);
        let (lines, body) = match find_blank_line(&rest) {
            Some(b) => {
                let head = slice_to_vec(&rest, 0, b);
                let lines = split_lines_vec(&head);
                let body = slice_to_vec(&rest, b + 2, rest.len());
                (lines, body)
            },
            None => (Vec::new(), rest),
        };
        let mut headers: Vec<Header> = Vec::new();
        let mut i: usize = 0;
        while i < lines.len()
            invariant
                i <= lines@.len(),
                headers@.len() == i,
                forall|j: int| 0 <= j < i ==> {
                    &&& (#[trigger] headers@[j]).name@ == trim_ws(before_first(lines@[j]@, ':'))
                    &&& headers@[j].value@ == trim_ws(after_first(lines@[j]@, ':'))
                },
            decreases lines@.len() - i,
        {
            let (name, value) = split_once(&lines[i], ':');
            headers.push(Header::new(string_of(&trim(&name)), string_of(&trim(&value))));
            i = i + 1;
        }
        let (version, after_version) = split_once(&status, ' ');
        let (code, reason) = split_once(&after_version, ' ');
        Ok(HttpResponse {
            version: string_of(&version),
            status_code: parse_status_code(&code),
            reason: string_of(&reason),
            headers,
            body: string_of(&body),
        })
    }

    pub fn version(&self) -> (r: String)
        ensures
            r@ == self.version_view(),
    {
        self.version.clone()
    }

    pub fn status_code(&self) -> (r: u32)
        ensures
            r == self.status_code_view(),
    {
        self.status_code
    }

    pub fn reason(&self) -> (r: String)
        ensures
            r@ == self.reason_view(),
    {
        self.reason.clone()
    }

    pub fn headers(&self) -> (r: Vec<Header>)
        ensures
            r@.len() == self.headers_view().len(),
            forall|i: int| 0 <= i < r@.len() ==> (#[trigger] r@[i]).name@ == self.headers_view()[i].name@
                && r@[i].value@ == self.headers_view()[i].value@,
    {
        let mut r: Vec<Header> = Vec::new();
        let mut i: usize = 0;
        while i < self.headers.len()
            invariant
                i <= self.headers@.len(),
                r@.len() == i,
                forall|j: int| 0 <= j < i ==> (#[trigger] r@[j]).name@ == self.headers@[j].name@
                    && r@[j].value@ == self.headers@[j].value@,
            decreases self.headers@.len() - i,
        {
            r.push(Header::new(self.headers[i].name.clone(), self.headers[i].value.clone()));
            i = i + 1;
        }
        r
    }

    pub fn body(&self) -> (r: String)
        ensures
            r@ == self.body_view(),
    {
        self.body.clone()
    }

    /// The value of the first header named `name`, or an error naming it.
    pub fn header_value(&self, name: &str) -> (r: Result<String, String>)
        ensures
            r is Ok <==> exists|i: int| 0 <= i < self.headers_view().len() && #[trigger] self.headers_view()[i].name@ == name@,
            r is Ok ==> exists|i: int| 0 <= i < self.headers_view().len() && #[trigger] self.headers_view()[i].name@ == name@
                && r->Ok_0@ == self.headers_view()[i].value@
                && forall|k: int| 0 <= k < i ==> (#[trigger] self.headers_view()[k]).name@ != name@,
    {
        let mut i: usize = 0;
        while i < self.headers.len()
            invariant
                i <= self.headers@.len(),
                forall|k: int| 0 <= k < i ==> (#[trigger] self.headers@[k]).name@ != name@,
            decreases self.headers@.len() - i,
        {
            if str_eq(self.headers[i].name.as_str(), name) {
                let v = self.headers[i].value.clone();
                proof {
                    assert(self.headers_view()[i as int].name@ == name@);
                    assert(v@ == self.headers_view()[i as int].value@);
                }
                return Ok(v);
            }
            i = i + 1;
        }
        let mut msg = chars_of("failed to find ");
        let mut n = chars_of(name);
        msg.append(&mut n);
        let mut tail = chars_of(" in headers");
        msg.append(&mut tail);
        Err(string_of(&msg))
    }
}

fn normalize(raw: &Vec<char>) -> (r: Vec<char>)
    ensures
        r@ == normalized(raw@),
{
    let n = raw.len();
    let mut i: usize = 0;
    proof {
        assert(raw@.subrange(0, n as int) =~= raw@);
    }
    while i < n && (raw[i] == ' ' || raw[i] == '\t' || raw[i] == '\r' || raw[i] == '\n')
        invariant
            n == raw@.len(),
            i <= n,
            trim_start_ws(raw@.subrange(i as int, n as int)) == trim_start_ws(raw@),
        decreases n - i,
    {
        proof {
            assert(raw@.subrange(i as int, n as int).drop_first() =~= raw@.subrange(i as int + 1, n as int));
        }
        i = i + 1;
    }
    proof {
        assert(raw@.subrange(0, n as int) =~= raw@);
    }
    let ghost t = raw@.subrange(i as int, n as int);
    let mut out: Vec<char> = Vec::new();
    let mut j: usize = i;
    while j < n
        invariant
            n == raw@.len(),
            i <= j <= n,
            t == raw@.subrange(i as int, n as int),
            t == trim_start_ws(raw@),
            out@ + crlf_to_lf(raw@.subrange(j as int, n as int)) == crlf_to_lf(t),
        decreases n - j,
    {
        let ghost u = raw@.subrange(j as int, n as int);
        if j + 1 < n && raw[j] == '\r' && raw[j + 1] == '\n' {
            proof {
                assert(u.subrange(2, u.len() as int) =~= raw@.subrange(j as int + 2, n as int));
                assert(crlf_to_lf(u) == seq!['\n'] + crlf_to_lf(u.subrange(2, u.len() as int)));
            }
            out.push('\n');
            j = j + 2;
            proof {
                assert(out@ + crlf_to_lf(raw@.subrange(j as int, n as int)) =~= crlf_to_lf(t));
            }
        } else {
            proof {
                assert(u.drop_first() =~= raw@.subrange(j as int + 1, n as int));
                assert(crlf_to_lf(u) == seq![u[0]] + crlf_to_lf(u.drop_first()));
            }
            out.push(raw[j]);
            j = j + 1;
            proof {
                assert(out@ + crlf_to_lf(raw@.subrange(j as int, n as int)) =~= crlf_to_lf(t));
            }
        }
    }
    proof {
        assert(raw@.subrange(n as int, n as int) =~= Seq::<char>::empty());
        assert(out@ + Seq::<char>::empty() =~= out@);
    }
    out
}

fn find_blank_line(s: &Vec<char>) -> (r: Option<usize>)
    ensures
        r is Some ==> r->0 == blank_line_index(s@) && r->0 + 1 < s@.len(),
        r is None ==> blank_line_index(s@) == s@.len(),
{
    let n = s.len();
    let mut i: usize = 0;
    while n > 0 && i < n - 1
        invariant
            n == s@.len(),
            forall|k: int| 0 <= k < i && k + 1 < n ==> !(s@[k] == '\n' && #[trigger] s@[k + 1] == '\n'),
        decreases n - i,
    {
        if s[i] == '\n' && s[i + 1] == '\n' {
            proof {
                let w = blank_line_index(s@);
                assert(0 <= i && i + 1 < s@.len() && s@[i as int] == '\n' && s@[i + 1] == '\n');
                if w < i {
                    assert(!(s@[w] == '\n' && s@[w + 1] == '\n'));
                }
                if w > i {
                    assert(!(s@[i as int] == '\n' && s@[i + 1] == '\n'));
                }
            }
            return Some(i);
        }
        i = i + 1;
    }
    proof {
        assert forall|k: int| 0 <= k && k + 1 < s@.len() implies !(s@[k] == '\n' && #[trigger] s@[k + 1] == '\n') by {
        }
    }
    None
}

fn split_once(s: &Vec<char>, c: char) -> (r: (Vec<char>, Vec<char>))
    ensures
        r.0@ == before_first(s@, c),
        r.1@ == after_first(s@, c),
{
    match find_char(s, c) {
        Some(i) => {
            let n = s.len();
            (slice_to_vec(s, 0, i), slice_to_vec(s, i + 1, n))
        },
        None => {
            let n = s.len();
            proof {
                assert(s@.subrange(0, s@.len() as int) =~= s@);
            }
            (slice_to_vec(s, 0, n), Vec::new())
        },
    }
}

fn split_lines_vec(s: &Vec<char>) -> (r: Vec<Vec<char>>)
    ensures
        r@.map_values(|v: Vec<char>| v@) == split_lines(s@),
{
    let mut out: Vec<Vec<char>> = Vec::new();
    let mut rest = slice_to_vec(s, 0, s.len());
    proof {
        assert(rest@ =~= s@);
    }
    loop
        invariant
            out@.map_values(|v: Vec<char>| v@) + split_lines(rest@) == split_lines(s@),
        decreases rest@.len(),
    {
        match find_char(&rest, '\n') {
            Some(i) => {
                let n = rest.len();
                let line = slice_to_vec(&rest, 0, i);
                let tail = slice_to_vec(&rest, i + 1, n);
                let ghost before = out@.map_values(|v: Vec<char>| v@);
                proof {
                    assert(split_lines(rest@) == seq![line@] + split_lines(tail@));
                }
                out.push(line);
                proof {
                    assert(out@.map_values(|v: Vec<char>| v@) =~= before.push(line@));
                    assert(before.push(line@) + split_lines(tail@) =~= before + (seq![line@] + split_lines(tail@)));
                }
                rest = tail;
            },
            None => {
                let ghost before = out@.map_values(|v: Vec<char>| v@);
                proof {
                    assert(split_lines(rest@) == seq![rest@]);
                }
                let last = slice_to_vec(&rest, 0, rest.len());
                proof {
                    assert(last@ =~= rest@);
                }
                out.push(last);
                proof {
                    assert(out@.map_values(|v: Vec<char>| v@) =~= before + seq![rest@]);
                }
                return out;
            },
        }
    }
}

fn trim(s: &Vec<char>) -> (r: Vec<char>)
    ensures
        r@ == trim_ws(s@),
{
    let n = s.len();
    let mut i: usize = 0;
    proof {
        assert(s@.subrange(0, n as int) =~= s@);
    }
    while i < n && (s[i] == ' ' || s[i] == '\t' || s[i] == '\r' || s[i] == '\n')
        invariant
            n == s@.len(),
            i <= n,
            trim_start_ws(s@.subrange(i as int, n as int)) == trim_start_ws(s@),
        decreases n - i,
    {
        proof {
            assert(s@.subrange(i as int, n as int).drop_first() =~= s@.subrange(i as int + 1, n as int));
        }
        i = i + 1;
    }
    proof {
        assert(s@.subrange(0, n as int) =~= s@);
    }
    let mut j: usize = n;
    while j > i && (s[j - 1] == ' ' || s[j - 1] == '\t' || s[j - 1] == '\r' || s[j - 1] == '\n')
        invariant
            n == s@.len(),
            i <= j <= n,
            trim_start_ws(s@) == s@.subrange(i as int, n as int),
            trim_end_ws(s@.subrange(i as int, j as int)) == trim_ws(s@),
        decreases j,
    {
        proof {
            assert(s@.subrange(i as int, j as int).drop_last() =~= s@.subrange(i as int, j - 1));
        }
        j = j - 1;
    }
    proof {
        let t = s@.subrange(i as int, j as int);
        if t.len() > 0 {
            assert(t.last() == s@[j - 1]);
        }
    }
    slice_to_vec(s, i, j)
}

/// The value of `s` as a decimal number, when it is one that fits in `u32`.
pub fn decimal_u32(s: &Vec<char>) -> (r: Option<u32>)
    ensures
        r is Some == digits_u32(s@) is Some,
        r is Some ==> r->0 == digits_u32(s@)->0,
{
    let n = s.len();
    if n == 0 {
        return None;
    }
    let mut v: u32 = 0;
    let mut i: usize = 0;
    while i < n
        invariant
            n == s@.len(),
            0 < n,
            i <= n,
            i == 0 ==> v == 0,
            i > 0 ==> digits_u32(s@.subrange(0, i as int)) == Some(v as int),
        decreases n - i,
    {
        let c = s[i];
        proof {
            let t = s@.subrange(0, i as int + 1);
            assert(t.drop_last() =~= s@.subrange(0, i as int));
            assert(t.last() == c);
        }
        if !ascii_digit(c) {
            proof {
                lemma_digits_none_extends(s@, i as int + 1);
            }
            return None;
        }
        let d = c as u32 - '0' as u32;
        if v > (u32::MAX - d) / 10 {
            proof {
                lemma_digits_none_extends(s@, i as int + 1);
            }
            return None;
        }
        v = v * 10 + d;
        i = i + 1;
    }
    proof {
        assert(s@.subrange(0, n as int) =~= s@);
    }
    Some(v)
}

fn parse_status_code(s: &Vec<char>) -> (r: u32)
    ensures
        r == status_code_of(s@),
{
    match decimal_u32(s) {
        Some(v) => v,
        None => 404,
    }
}

/// Where a response sends the client on: the first `Location` header of a 302 response.
pub fn redirect_location(res: &HttpResponse) -> (r: Option<String>)
    ensures
        r is Some <==> res.status_code_view() == 302 && exists|i: int| 0 <= i < res.headers_view().len()
            && #[trigger] res.headers_view()[i].name@ == "Location"@,
        r is Some ==> exists|i: int| 0 <= i < res.headers_view().len() && #[trigger] res.headers_view()[i].name@ == "Location"@
            && r->0@ == res.headers_view()[i].value@
            && forall|k: int| 0 <= k < i ==> (#[trigger] res.headers_view()[k]).name@ != "Location"@,
{
    if res.status_code() != 302 {
        return None;
    }
    match res.header_value("Location") {
        Ok(v) => Some(v),
        Err(_) => None,
    }
}

proof fn lemma_digits_none_extends(s: Seq<char>, i: int)
    requires
        0 < i <= s.len(),
        digits_u32(s.subrange(0, i)) is None,
    ensures
        digits_u32(s) is None,
    decreases s.len() - i,
{
    if i < s.len() {
        let t = s.subrange(0, i + 1);
        assert(t.drop_last() =~= s.subrange(0, i));
        lemma_digits_none_extends(s, i + 1);
    } else {
        assert(s.subrange(0, i) =~= s);
    }
}

/// Sends GET requests to a web server.
pub struct HttpClient {}

impl HttpClient {
    pub fn new() -> (r: Self) {
        Self {}
    }

    /// The text of a GET request for `path` on `host`: the request line, then the `Host`,
    /// `Accept` and `Connection` headers and a blank line.
    pub fn request_text(&self, host: &str, path: &str) -> (r: String)
        ensures
            r@ == "GET /"@ + path@ + " HTTP/1.1\n"@ + "Host: "@ + host@ + "\n"@ + "Accept: text/html\n"@
                + "Connection: close\n"@ + "\n"@,
    {
        let mut request = String::from_str("GET /");
        request.append(path);
        request.append(" HTTP/1.1\n");
        request.append("Host: ");
        request.append(host);
        request.append("\n");
        request.append("Accept: text/html\n");
        request.append("Connection: close\n");
        request.append("\n");
        request
    }
}

} // verus!
