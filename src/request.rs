//! The request line parsers and the request record they assemble.
use vstd::prelude::*;

use crate::headers::{headers_of, HttpHeader};
use crate::text::{
    chars_of, slice, split_at_first, split_once, split_words, string_of, trim, trim_chars, words,
    same_chars,
};

verus! {

pub open spec fn crlf() -> Seq<char> {
    seq!['\r', '\n']
}

/// The request line: the text before the first `"\r\n"`, if there is one.
pub open spec fn request_line(s: Seq<char>) -> Option<Seq<char>> {
    match split_once(s, crlf()) {
        Some((line, _)) => Some(line),
        None => None,
    }
}

/// An HTTP request method.
#[derive(Debug, Clone, Copy, PartialEq, Eq, Structural)]
pub enum Method {
    Get,
    Post,
    Unrecognized,
}

/// The method that a token names: only the exact words `GET` and `POST` are known.
pub open spec fn method_of_token(t: Seq<char>) -> Method {
    if t == seq!['G', 'E', 'T'] {
        Method::Get
    } else if t == seq!['P', 'O', 'S', 'T'] {
        Method::Post
    } else {
        Method::Unrecognized
    }
}

/// The method of a raw request: that of the first word of its request line.
pub open spec fn method_of(s: Seq<char>) -> Method {
    match request_line(s) {
        Some(line) => if words(line).len() > 0 {
            method_of_token(words(line)[0])
        } else {
            Method::Unrecognized
        },
        None => Method::Unrecognized,
    }
}

impl Method {
    fn identify_chars(t: &[char]) -> (r: Method)
        ensures
            r == method_of_token(t@),
    {
        let get = vec!['G', 'E', 'T'];
        let post = vec!['P', 'O', 'S', 'T'];
        assert(get@ =~= seq!['G', 'E', 'T']);
        assert(post@ =~= seq!['P', 'O', 'S', 'T']);
        if same_chars(t, &get) {
            Method::Get
        } else if same_chars(t, &post) {
            Method::Post
        } else {
            Method::Unrecognized
        }
    }

    /// Classify a token: `GET`, `POST`, or anything else.
    pub fn identify(s: &str) -> (r: Method)
        ensures
            r == method_of_token(s@),
    {
        Method::identify_chars(&chars_of(s))
    }

    /// The method named by the first word of the request line of a raw request.
    pub fn new(request: &str) -> (r: Method)
        ensures
            r == method_of(request@),
    {
        let s = chars_of(request);
        let sep = vec!['\r', '\n'];
        assert(sep@ =~= crlf());
        match split_at_first(&s, &sep) {
            Some((line, _)) => {
                let ws = split_words(&line);
                if ws.len() > 0 {
                    Method::identify_chars(&ws[0])
                } else {
                    Method::Unrecognized
                }
            },
            None => Method::Unrecognized,
        }
    }
}

/// An HTTP protocol version.
#[derive(Debug, Clone, Copy, PartialEq, Eq, Structural)]
pub enum Version {
    V1_1,
    V2_0,
}

pub open spec fn http_1_1() -> Seq<char> {
    seq!['H', 'T', 'T', 'P', '/', '1', '.', '1']
}

pub open spec fn http_2_0() -> Seq<char> {
    seq!['H', 'T', 'T', 'P', '/', '2', '.', '0']
}

/// The version that the leftmost version word of `ws` names.
pub open spec fn version_in(ws: Seq<Seq<char>>) -> Option<Version>
    decreases ws.len(),
{
    if ws.len() == 0 {
        None
    } else if ws[0] == http_1_1() {
        Some(Version::V1_1)
    } else if ws[0] == http_2_0() {
        Some(Version::V2_0)
    } else {
        version_in(ws.drop_first())
    }
}

/// The version of a raw request: that of the leftmost word of its request
/// line that names one.
pub open spec fn version_of(s: Seq<char>) -> Option<Version> {
    match request_line(s) {
        Some(line) => version_in(words(line)),
        None => None,
    }
}

/// The message of a failed version parse.
pub open spec fn version_error_msg(s: Seq<char>) -> Seq<char> {
    "Unknown protocol version in "@ + s
}

/// A request whose version could not be read.
#[derive(Debug)]
pub struct VersionError {
    pub msg: String,
}

impl Version {
    /// The protocol version named on the request line of a raw request.
    pub fn new(request: &str) -> (r: Result<Version, VersionError>)
        ensures
            r matches Ok(v) ==> version_of(request@) == Some(v),
            r matches Err(e) ==> version_of(request@) is None && e.msg@ == version_error_msg(
                request@,
            ),
    {
        let s = chars_of(request);
        let sep = vec!['\r', '\n'];
        assert(sep@ =~= crlf());
        if let Some((line, _)) = split_at_first(&s, &sep) {
            let ws = split_words(&line);
            let v11 = vec!['H', 'T', 'T', 'P', '/', '1', '.', '1'];
            let v20 = vec!['H', 'T', 'T', 'P', '/', '2', '.', '0'];
            assert(v11@ =~= http_1_1());
            assert(v20@ =~= http_2_0());
            assert(words(line@).subrange(0, words(line@).len() as int) =~= words(line@));
            let mut i: usize = 0;
            while i < ws.len()
                invariant
                    i <= ws@.len(),
                    ws@.len() == words(line@).len(),
                    forall|k: int| 0 <= k < ws@.len() ==> #[trigger] ws@[k]@ == words(line@)[k],
                    v11@ == http_1_1(),
                    v20@ == http_2_0(),
                    version_of(request@) == version_in(
                        words(line@).subrange(i as int, words(line@).len() as int),
                    ),
                decreases ws@.len() - i,
            {
                let ghost rest = words(line@).subrange(i as int, words(line@).len() as int);
                assert(rest.drop_first() =~= words(line@).subrange(
                    i + 1,
                    words(line@).len() as int,
                ));
                if same_chars(&ws[i], &v11) {
                    return Ok(Version::V1_1);
                } else if same_chars(&ws[i], &v20) {
                    return Ok(Version::V2_0);
                }
                i = i + 1;
            }
        }
        let mut msg = chars_of("Unknown protocol version in ");
        let mut j: usize = 0;
        while j < s.len()
            invariant
                j <= s@.len(),
                msg@ == "Unknown protocol version in "@ + s@.subrange(0, j as int),
            decreases s@.len() - j,
        {
            msg.push(s[j]);
            j = j + 1;
            assert(msg@ =~= "Unknown protocol version in "@ + s@.subrange(0, j as int));
        }
        assert(s@.subrange(0, s@.len() as int) =~= s@);
        Err(VersionError { msg: string_of(&msg) })
    }
}

} // verus!

verus! {

impl std::str::FromStr for Version {
    type Err = VersionError;

    /// Same as `Version::new`.
    fn from_str(s: &str) -> Result<Version, VersionError> {
        Version::new(s)
    }
}

/// `t` without one leading `/`, if it starts with one.
pub open spec fn strip_slash(t: Seq<char>) -> Seq<char> {
    if t.len() > 0 && t[0] == '/' {
        t.drop_first()
    } else {
        t
    }
}

/// The path that a raw request asks for: on a request line `METHOD target
/// rest` with a known method, the trimmed target without one leading `/`.
pub open spec fn resource_of(s: Seq<char>) -> Option<Seq<char>> {
    match request_line(s) {
        Some(line) => match split_once(line, seq![' ']) {
            Some((method, rest)) => if method_of_token(method) == Method::Unrecognized {
                None
            } else {
                match split_once(rest, seq![' ']) {
                    Some((target, _)) => Some(strip_slash(trim(target))),
                    None => None,
                }
            },
            None => None,
        },
        None => None,
    }
}

/// The target resource of a request.
#[derive(Debug)]
pub struct Resource {
    pub path: String,
}

impl Resource {
    /// The resource named on the request line of a raw request; `None` where
    /// the line is missing, has fewer than two spaces, or names an unknown
    /// method.
    pub fn new(request: &str) -> (r: Option<Resource>)
        ensures
            r matches Some(res) ==> resource_of(request@) == Some(res.path@),
            r is None ==> resource_of(request@) is None,
    {
        let s = chars_of(request);
        let sep = vec!['\r', '\n'];
        assert(sep@ =~= crlf());
        let space = vec![' '];
        assert(space@ =~= seq![' ']);
        let (line, _) = split_at_first(&s, &sep)?;
        let (method, rest) = split_at_first(&line, &space)?;
        match Method::identify_chars(&method) {
            Method::Unrecognized => None,
            _ => {
                let (target, _) = split_at_first(&rest, &space)?;
                let t = trim_chars(&target);
                let path = if t.len() > 0 && t[0] == '/' {
                    slice(&t, 1, t.len())
                } else {
                    t
                };
                proof {
                    if t@.len() > 0 && t@[0] == '/' {
                        assert(path@ =~= t@.drop_first());
                    }
                }
                Some(Resource { path: string_of(&path) })
            },
        }
    }
}

/// The body of a raw request: everything after the first `"\r\n\r\n"`, or
/// nothing where there is none.
pub open spec fn body_of(s: Seq<char>) -> Seq<char> {
    match split_once(s, seq!['\r', '\n', '\r', '\n']) {
        Some((_, body)) => body,
        None => seq![],
    }
}

/// Why a request could not be assembled.
#[derive(Debug)]
pub enum RequestError {
    /// The input is malformed; the message names it.
    InvalidData(String),
}

/// A parsed HTTP request.
#[derive(Debug)]
pub struct HttpRequest {
    pub method: Method,
    pub resource: Resource,
    pub version: Version,
    pub headers: HttpHeader,
    pub request_body: String,
}

impl HttpRequest {
    /// Assemble a request from raw text. Fails only where the request line
    /// names no protocol version; a missing resource becomes the empty path
    /// and a malformed header block an empty mapping.
    pub fn new(request: &str) -> (r: Result<HttpRequest, RequestError>)
        ensures
            r is Ok <==> version_of(request@) is Some,
            r matches Ok(req) ==> {
                &&& req.headers.wf()
                &&& version_of(request@) == Some(req.version)
                &&& req.method == method_of(request@)
                &&& req.resource.path@ == match resource_of(request@) {
                    Some(p) => p,
                    None => seq![],
                }
                &&& req.headers@ == match headers_of(request@) {
                    Some(h) => h,
                    None => Map::empty(),
                }
                &&& req.request_body@ == body_of(request@)
            },
            r matches Err(RequestError::InvalidData(msg)) ==> msg@ == version_error_msg(request@),
    {
        let method = Method::new(request);
        let resource = match Resource::new(request) {
            Some(res) => res,
            None => Resource { path: String::new() },
        };
        let version = match Version::new(request) {
            Ok(v) => v,
            Err(e) => return Err(RequestError::InvalidData(e.msg)),
        };
        let headers = match HttpHeader::new(request) {
            Some(h) => h,
            None => HttpHeader::empty(),
        };
        let s = chars_of(request);
        let blank = vec!['\r', '\n', '\r', '\n'];
        assert(blank@ =~= seq!['\r', '\n', '\r', '\n']);
        let request_body = match split_at_first(&s, &blank) {
            Some((_, body)) => string_of(&body),
            None => String::new(),
        };
        Ok(HttpRequest { method, resource, version, headers, request_body })
    }

    /// The request method.
    pub fn method(&self) -> (r: Method)
        ensures
            r == self.method,
    {
        self.method
    }

    /// The requested path.
    pub fn path(&self) -> (r: &str)
        ensures
            r@ == self.resource.path@,
    {
        self.resource.path.as_str()
    }

    /// The protocol version.
    pub fn version(&self) -> (r: Version)
        ensures
            r == self.version,
    {
        self.version
    }

    /// The value of header `name`, if the request has one.
    pub fn header(&self, name: &str) -> (r: Option<String>)
        ensures
            r matches Some(v) ==> self.headers@.contains_key(name@) && self.headers@[name@] == v@,
            r is None ==> !self.headers@.contains_key(name@),
    {
        self.headers.get(name)
    }

    /// Number of headers the request holds.
    pub fn header_count(&self) -> (r: usize)
        requires
            self.headers.wf(),
        ensures
            r == self.headers@.len(),
    {
        self.headers.len()
    }

    /// The body text.
    pub fn body(&self) -> (r: &str)
        ensures
            r@ == self.request_body@,
    {
        self.request_body.as_str()
    }
}

} // verus!

verus! {

proof fn lemma_version_in_at(ws: Seq<Seq<char>>, i: int)
    requires
        0 <= i < ws.len(),
        ws[i] == http_1_1() || ws[i] == http_2_0(),
        forall|j: int| 0 <= j < i ==> ws[j] != http_1_1() && ws[j] != http_2_0(),
    ensures
        version_in(ws) == Some(if ws[i] == http_1_1() { Version::V1_1 } else { Version::V2_0 }),
    decreases i,
{
    if i > 0 {
        lemma_version_in_at(ws.drop_first(), i - 1);
    }
}

proof fn lemma_version_in_none(ws: Seq<Seq<char>>)
    requires
        forall|j: int| 0 <= j < ws.len() ==> ws[j] != http_1_1() && ws[j] != http_2_0(),
    ensures
        version_in(ws) is None,
    decreases ws.len(),
{
    if ws.len() > 0 {
        lemma_version_in_none(ws.drop_first());
    }
}

/// Method classification is total with three outcomes: `GET` and `POST`
/// name their methods, and every other token, the empty one included, is
/// unrecognized.
pub proof fn lemma_method_classes(t: Seq<char>)
    ensures
        (method_of_token(t) == Method::Get) <==> (t == seq!['G', 'E', 'T']),
        (method_of_token(t) == Method::Post) <==> (t == seq!['P', 'O', 'S', 'T']),
        (method_of_token(t) == Method::Unrecognized) <==> (t != seq!['G', 'E', 'T'] && t
            != seq!['P', 'O', 'S', 'T']),
{
}

/// A version word on the request line decides the version wherever it
/// stands on the line; where the line holds both, the leftmost one wins.
pub proof fn lemma_version_word_decides(s: Seq<char>, line: Seq<char>, i: int)
    requires
        request_line(s) == Some(line),
        0 <= i < words(line).len(),
        words(line)[i] == http_1_1() || words(line)[i] == http_2_0(),
        forall|j: int|
            0 <= j < i ==> words(line)[j] != http_1_1() && words(line)[j] != http_2_0(),
    ensures
        version_of(s) == Some(
            if words(line)[i] == http_1_1() {
                Version::V1_1
            } else {
                Version::V2_0
            },
        ),
{
    lemma_version_in_at(words(line), i);
}

/// A request line without a version word yields no version.
pub proof fn lemma_no_version_word(s: Seq<char>, line: Seq<char>)
    requires
        request_line(s) == Some(line),
        forall|j: int|
            0 <= j < words(line).len() ==> words(line)[j] != http_1_1() && words(line)[j]
                != http_2_0(),
    ensures
        version_of(s) is None,
{
    lemma_version_in_none(words(line));
}

/// The message of a failed version parse holds the whole input.
pub proof fn lemma_version_error_holds_input(s: Seq<char>)
    ensures
        ({
            let p = "Unknown protocol version in "@.len();
            version_error_msg(s).subrange(p as int, (p + s.len()) as int) == s
        }),
{
    let p = "Unknown protocol version in "@.len();
    assert(version_error_msg(s).subrange(p as int, (p + s.len()) as int) =~= s);
}

} // verus!
