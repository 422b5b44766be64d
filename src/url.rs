use vstd::prelude::*;
use crate::text::{chars_of, string_of, find_char, first_index, slice_to_vec};
use crate::text::{lemma_first_index_at};

verus! {

/// The text that every accepted URL starts with.
pub open spec fn http_scheme() -> Seq<char> {
    seq!['h', 't', 't', 'p', ':', '/', '/']
}

pub open spec fn has_http_scheme(u: Seq<char>) -> bool {
    u.len() >= 7 && u.subrange(0, 7) == http_scheme()
}

/// What follows the scheme.
pub open spec fn after_scheme(u: Seq<char>) -> Seq<char> {
    u.subrange(7, u.len() as int)
}

/// Where `host[:port]` ends: at the first `/` or `?` after the scheme, or at the end.
pub open spec fn authority_end(r: Seq<char>) -> int {
    if first_index(r, '/') < first_index(r, '?') {
        first_index(r, '/')
    } else {
        first_index(r, '?')
    }
}

/// `host[:port]`: what follows the scheme, up to the first `/` or `?`.
pub open spec fn host_port_part(u: Seq<char>) -> Seq<char> {
    let r = after_scheme(u);
    r.subrange(0, authority_end(r))
}

/// What follows `host[:port]`: `/path?searchpart`, `?searchpart`, or nothing.
pub open spec fn rest_part(u: Seq<char>) -> Seq<char> {
    let r = after_scheme(u);
    r.subrange(authority_end(r), r.len() as int)
}

pub open spec fn url_host(u: Seq<char>) -> Seq<char> {
    let hp = host_port_part(u);
    hp.subrange(0, first_index(hp, ':'))
}

pub open spec fn url_port(u: Seq<char>) -> Seq<char> {
    let hp = host_port_part(u);
    let i = first_index(hp, ':');
    if i < hp.len() {
        hp.subrange(i + 1, hp.len() as int)
    } else {
        seq!['8', '0']
    }
}

pub open spec fn url_path(u: Seq<char>) -> Seq<char> {
    let t = rest_part(u);
    if t.len() > 0 && t[0] == '/' {
        t.subrange(1, first_index(t, '?'))
    } else {
        Seq::empty()
    }
}

pub open spec fn url_searchpart(u: Seq<char>) -> Seq<char> {
    let t = rest_part(u);
    let j = first_index(t, '?');
    if j < t.len() {
        t.subrange(j + 1, t.len() as int)
    } else {
        Seq::empty()
    }
}

/// A URL of the shape `http://host[:port][/path[?searchpart]]`, split into its parts.
#[derive(Debug, Clone, PartialEq)]
pub struct Url {
    url: String,
    host: String,
    port: String,
    path: String,
    searchpart: String,
}

impl Url {
    pub closed spec fn text(&self) -> Seq<char> {
        self.url@
    }

    pub closed spec fn host_spec(&self) -> Seq<char> {
        self.host@
    }

    pub closed spec fn port_spec(&self) -> Seq<char> {
        self.port@
    }

    pub closed spec fn path_spec(&self) -> Seq<char> {
        self.path@
    }

    pub closed spec fn searchpart_spec(&self) -> Seq<char> {
        self.searchpart@
    }

    /// The parts that `parse` gives a URL whose text is `u`.
    pub open spec fn parsed_from(&self, u: Seq<char>) -> bool {
        &&& self.text() == u
        &&& self.host_spec() == url_host(u)
        &&& self.port_spec() == url_port(u)
        &&& self.path_spec() == url_path(u)
        &&& self.searchpart_spec() == url_searchpart(u)
    }

    /// A URL that holds `url` and no parts yet.
    pub fn new(url: String) -> (r: Self)
        ensures
            r.text() == url@,
            r.host_spec().len() == 0,
            r.port_spec().len() == 0,
            r.path_spec().len() == 0,
            r.searchpart_spec().len() == 0,
    {
        Self {
            url,
            host: String::new(),
            port: String::new(),
            path: String::new(),
            searchpart: String::new(),
        }
    }

    pub fn host(&self) -> (r: String)
        ensures
            r@ == self.host_spec(),
    {
        self.host.clone()
    }

    pub fn port(&self) -> (r: String)
        ensures
            r@ == self.port_spec(),
    {
        self.port.clone()
    }

    pub fn path(&self) -> (r: String)
        ensures
            r@ == self.path_spec(),
    {
        self.path.clone()
    }

    pub fn searchpart(&self) -> (r: String)
        ensures
            r@ == self.searchpart_spec(),
    {
        self.searchpart.clone()
    }

    fn duplicate(&self) -> (r: Self)
        ensures
            r == *self,
    {
        Url {
            url: self.url.clone(),
            host: self.host.clone(),
            port: self.port.clone(),
            path: self.path.clone(),
            searchpart: self.searchpart.clone(),
        }
    }

    /// The port as a number, when it is a decimal number below 65536.
    pub fn port_number(&self) -> (r: Option<u16>)
        ensures
            r is Some <==> crate::http::digits_u32(self.port_spec()) is Some && crate::http::digits_u32(self.port_spec())->0 <= 65535,
            r is Some ==> r->0 == crate::http::digits_u32(self.port_spec())->0,
    {
        let digits = chars_of(self.port.as_str());
        match crate::http::decimal_u32(&digits) {
            Some(v) => {
                if v <= 65535 {
                    Some(v as u16)
                } else {
                    None
                }
            },
            None => None,
        }
    }

    fn is_http(&self) -> (r: bool)
        ensures
            r == has_http_scheme(self.url@),
    {
        let u = chars_of(self.url.as_str());
        if u.len() < 7 {
            return false;
        }
        let r = u[0] == 'h' && u[1] == 't' && u[2] == 't' && u[3] == 'p' && u[4] == ':'
            && u[5] == '/' && u[6] == '/';
        proof {
            if r {
                assert(u@.subrange(0, 7) =~= http_scheme());
            } else {
                if u@.subrange(0, 7) == http_scheme() {
                    assert(u@.subrange(0, 7)[0] == 'h');
                    assert(u@.subrange(0, 7)[1] == 't');
                    assert(u@.subrange(0, 7)[2] == 't');
                    assert(u@.subrange(0, 7)[3] == 'p');
                    assert(u@.subrange(0, 7)[4] == ':');
                    assert(u@.subrange(0, 7)[5] == '/');
                    assert(u@.subrange(0, 7)[6] == '/');
                }
            }
        }
        r
    }

    /// The `host[:port]` part of an http URL, and what follows it.
    fn split_parts(&self) -> (r: (Vec<char>, Vec<char>))
        requires
            has_http_scheme(self.url@),
        ensures
            r.0@ == host_port_part(self.url@),
            r.1@ == rest_part(self.url@),
    {
        let u = chars_of(self.url.as_str());
        let rest = slice_to_vec(&u, 7, u.len());
        assert(rest@ == after_scheme(self.url@));
        let n = rest.len();
        let slash = match find_char(&rest, '/') {
            Some(i) => i,
            None => n,
        };
        let question = match find_char(&rest, '?') {
            Some(i) => i,
            None => n,
        };
        let end = if slash < question {
            slash
        } else {
            question
        };
        (slice_to_vec(&rest, 0, end), slice_to_vec(&rest, end, n))
    }

    fn extract_host(&self) -> (r: String)
        requires
            has_http_scheme(self.url@),
        ensures
            r@ == url_host(self.url@),
    {
        let (hp, _) = self.split_parts();
        match find_char(&hp, ':') {
            Some(i) => string_of(&slice_to_vec(&hp, 0, i)),
            None => {
                assert(hp@.subrange(0, hp@.len() as int) =~= hp@);
                string_of(&hp)
            },
        }
    }

    fn extract_port(&self) -> (r: String)
        requires
            has_http_scheme(self.url@),
        ensures
            r@ == url_port(self.url@),
    {
        let (hp, _) = self.split_parts();
        match find_char(&hp, ':') {
            Some(i) => {
                let n = hp.len();
                assert(i < n);
                string_of(&slice_to_vec(&hp, i + 1, n))
            },
            None => {
                let d = vec!['8', '0'];
                assert(d@ =~= seq!['8', '0']);
                string_of(&d)
            },
        }
    }

    fn extract_path(&self) -> (r: String)
        requires
            has_http_scheme(self.url@),
        ensures
            r@ == url_path(self.url@),
    {
        let (_, t) = self.split_parts();
        if t.len() > 0 && t[0] == '/' {
            let end = match find_char(&t, '?') {
                Some(j) => j,
                None => t.len(),
            };
            string_of(&slice_to_vec(&t, 1, end))
        } else {
            String::new()
        }
    }

    fn extract_searchpart(&self) -> (r: String)
        requires
            has_http_scheme(self.url@),
        ensures
            r@ == url_searchpart(self.url@),
    {
        let (_, t) = self.split_parts();
        match find_char(&t, '?') {
            Some(j) => {
                let n = t.len();
                assert(j < n);
                string_of(&slice_to_vec(&t, j + 1, n))
            },
            None => String::new(),
        }
    }

    /// Splits the URL into host, port, path and searchpart; only `http://` URLs are accepted.
    pub fn parse(&mut self) -> (r: Result<Self, String>)
        ensures
            has_http_scheme(old(self).text()) ==> {
                &&& r is Ok
                &&& r->Ok_0.parsed_from(old(self).text())
                &&& final(self).parsed_from(old(self).text())
            },
            !has_http_scheme(old(self).text()) ==> {
                &&& r is Err
                &&& r->Err_0@ == "Only HTTP scheme is supported."@
                &&& *final(self) == *old(self)
            },
    {
        if !self.is_http() {
            return Err(String::from_str("Only HTTP scheme is supported."));
        }
        self.host = self.extract_host();
        self.port = self.extract_port();
        self.path = self.extract_path();
        self.searchpart = self.extract_searchpart();
        Ok(self.duplicate())
    }
}

/// Parsing a URL `http://h:p/path?q` gives back `h`, `p`, `path` and `q`, and putting them
/// together again gives the URL, when the host holds no `:`, `/` or `?`, the port no `/` or
/// `?`, and the path no `?`.
pub proof fn lemma_url_round_trip(h: Seq<char>, p: Seq<char>, path: Seq<char>, q: Seq<char>)
    requires
        !h.contains(':'),
        !h.contains('/'),
        !h.contains('?'),
        !p.contains('/'),
        !p.contains('?'),
        !path.contains('?'),
    ensures
        ({
            let u = http_scheme() + h + seq![':'] + p + seq!['/'] + path + seq!['?'] + q;
            &&& has_http_scheme(u)
            &&& url_host(u) == h
            &&& url_port(u) == p
            &&& url_path(u) == path
            &&& url_searchpart(u) == q
            &&& http_scheme() + url_host(u) + seq![':'] + url_port(u) + seq!['/'] + url_path(u)
                + seq!['?'] + url_searchpart(u) == u
        }),
{
    let u = http_scheme() + h + seq![':'] + p + seq!['/'] + path + seq!['?'] + q;
    assert(u.subrange(0, 7) =~= http_scheme());
    let r = after_scheme(u);
    let hp = h + seq![':'] + p;
    let t = seq!['/'] + path + seq!['?'] + q;
    assert(r =~= hp + t);
    let slash = hp.len() as int;
    let qm = slash + 1 + path.len();
    assert forall|k: int| 0 <= k < slash implies r[k] != '/' && r[k] != '?' by {
        if k < h.len() {
            assert(r[k] == h[k]);
            if h[k] == '/' {
                assert(h.contains('/'));
            }
            if h[k] == '?' {
                assert(h.contains('?'));
            }
        } else if k > h.len() {
            assert(r[k] == p[k - h.len() - 1]);
            if p[k - h.len() - 1] == '/' {
                assert(p.contains('/'));
            }
            if p[k - h.len() - 1] == '?' {
                assert(p.contains('?'));
            }
        }
    }
    lemma_first_index_at(r, '/', slash);
    assert forall|k: int| 0 <= k < qm implies r[k] != '?' by {
        if slash < k {
            assert(r[k] == path[k - slash - 1]);
            if path[k - slash - 1] == '?' {
                assert(path.contains('?'));
            }
        }
    }
    lemma_first_index_at(r, '?', qm);
    assert(authority_end(r) == slash);
    assert(host_port_part(u) =~= hp);
    assert(rest_part(u) =~= t);
    assert forall|k: int| 0 <= k < path.len() + 1 implies t[k] != '?' by {
        if k > 0 {
            assert(t[k] == path[k - 1]);
            if path[k - 1] == '?' {
                assert(path.contains('?'));
            }
        }
    }
    lemma_first_index_at(t, '?', path.len() as int + 1);
    assert(t.subrange(1, path.len() as int + 1) =~= path);
    assert(t.subrange(path.len() as int + 2, t.len() as int) =~= q);
    assert forall|k: int| 0 <= k < h.len() implies hp[k] != ':' by {
        assert(hp[k] == h[k]);
        if h[k] == ':' {
            assert(h.contains(':'));
        }
    }
    lemma_first_index_at(hp, ':', h.len() as int);
    assert(hp.subrange(0, h.len() as int) =~= h);
    assert(hp.subrange(h.len() as int + 1, hp.len() as int) =~= p);
}

} // verus!
