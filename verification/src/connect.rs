//! Decision logic for handling one connection.
use vstd::prelude::*;
use vstd::string::StrSliceExecFns;
use vstd::string::StringExecFns;

verus! {

/// True when `line` is a well-formed request line: the supported method
/// token, one space, a nonempty target without spaces, one space, and the
/// supported protocol token, anchored at both ends.
pub open spec fn is_request_line(line: Seq<char>) -> bool {
    &&& line.len() >= 14
    &&& line[0] == 'G'
    &&& line[1] == 'E'
    &&& line[2] == 'T'
    &&& line[3] == ' '
    &&& line[line.len() - 9] == ' '
    &&& line[line.len() - 8] == 'H'
    &&& line[line.len() - 7] == 'T'
    &&& line[line.len() - 6] == 'T'
    &&& line[line.len() - 5] == 'P'
    &&& line[line.len() - 4] == '/'
    &&& line[line.len() - 3] == '1'
    &&& line[line.len() - 2] == '.'
    &&& line[line.len() - 1] == '1'
    &&& forall|i: int| 4 <= i < line.len() - 9 ==> line[i] != ' '
}

/// The target of a well-formed request line: what stands between the method
/// and the protocol token.
pub open spec fn request_target(line: Seq<char>) -> Seq<char> {
    line.subrange(4, line.len() - 9)
}

/// Extracts the request target from one request line, or nothing when the
/// line does not match the grammar.
pub fn parse_request_line(line: &str) -> (r: Option<String>)
    ensures
        r is Some <==> is_request_line(line@),
        r matches Some(t) ==> t@ == request_target(line@),
{
    let n = line.unicode_len();
    if n < 14 {
        return None;
    }
    if line.get_char(0) != 'G' || line.get_char(1) != 'E' || line.get_char(2) != 'T'
        || line.get_char(3) != ' ' {
        return None;
    }
    if line.get_char(n - 9) != ' ' || line.get_char(n - 8) != 'H' || line.get_char(n - 7) != 'T'
        || line.get_char(n - 6) != 'T' || line.get_char(n - 5) != 'P' || line.get_char(n - 4) != '/'
        || line.get_char(n - 3) != '1' || line.get_char(n - 2) != '.'
        || line.get_char(n - 1) != '1' {
        return None;
    }
    let mut i: usize = 4;
    while i < n - 9
        invariant
            4 <= i <= n - 9,
            14 <= n == line@.len(),
            forall|j: int| 4 <= j < i ==> line@[j] != ' ',
        decreases n - 9 - i,
    {
        if line.get_char(i) == ' ' {
            return None;
        }
        i += 1;
    }
    let target = line.substring_char(4, n - 9);
    Some(target.to_owned())
}

/// The parser accepts exactly the lines of the wire grammar: a line parses
/// with target `target` precisely when it is the method token, one space,
/// a nonempty spaceless target, one space, and the protocol token.
pub proof fn lemma_request_line_grammar(line: Seq<char>, target: Seq<char>)
    ensures
        (is_request_line(line) && request_target(line) == target) <==> {
            &&& line == "GET "@ + target + " HTTP/1.1"@
            &&& target.len() > 0
            &&& forall|i: int| 0 <= i < target.len() ==> target[i] != ' '
        },
{
    reveal_strlit("GET ");
    reveal_strlit(" HTTP/1.1");
    if is_request_line(line) && request_target(line) == target {
        assert(line =~= "GET "@ + target + " HTTP/1.1"@);
        assert(forall|i: int| 0 <= i < target.len() ==> target[i] != ' ');
    }
    if line == "GET "@ + target + " HTTP/1.1"@ && target.len() > 0 && (forall|i: int|
        0 <= i < target.len() ==> target[i] != ' ') {
        let whole = "GET "@ + target + " HTTP/1.1"@;
        assert(whole.len() == target.len() + 13);
        assert forall|i: int| 4 <= i < whole.len() - 9 implies whole[i] != ' ' by {
            assert(whole[i] == target[i - 4]);
        }
        assert(is_request_line(line));
        assert(request_target(line) =~= target);
    }
}

/// The extension of a path: the characters after the last `.` of the last
/// path segment, provided that dot is neither the segment's first character
/// nor absent. A name such as `.profile` therefore has no extension, while
/// `archive.tar` has the extension `tar`.
pub open spec fn spec_extension(p: Seq<char>) -> Option<Seq<char>>
    decreases p.len(),
{
    if p.len() == 0 {
        None
    } else if p.last() == '/' {
        None
    } else if p.last() == '.' {
        if p.len() >= 2 && p[p.len() - 2] != '/' {
            Some(Seq::empty())
        } else {
            None
        }
    } else {
        match spec_extension(p.drop_last()) {
            Some(e) => Some(e.push(p.last())),
            None => None,
        }
    }
}

/// A dot at position `d`, with nothing but ordinary characters after it and
/// not standing at the start of its segment, marks the extension.
proof fn lemma_extension_at_dot(p: Seq<char>, d: int)
    requires
        1 <= d < p.len(),
        p[d] == '.',
        p[d - 1] != '/',
        forall|k: int| d < k < p.len() ==> p[k] != '.' && p[k] != '/',
    ensures
        spec_extension(p) == Some(p.subrange(d + 1, p.len() as int)),
    decreases p.len(),
{
    if d == p.len() - 1 {
        assert(p.subrange(d + 1, p.len() as int) =~= Seq::<char>::empty());
    } else {
        let q = p.drop_last();
        assert(forall|k: int| d < k < q.len() ==> q[k] != '.' && q[k] != '/');
        lemma_extension_at_dot(q, d);
        assert(q.subrange(d + 1, q.len() as int).push(p.last()) =~= p.subrange(
            d + 1,
            p.len() as int,
        ));
    }
}

/// A path without any dot has no extension.
proof fn lemma_no_dot_no_extension(p: Seq<char>)
    requires
        forall|k: int| 0 <= k < p.len() ==> p[k] != '.',
    ensures
        spec_extension(p) is None,
    decreases p.len(),
{
    if p.len() > 0 && p.last() != '/' {
        lemma_no_dot_no_extension(p.drop_last());
    }
}

/// A slash with no dot after it hides every earlier dot, so no extension.
proof fn lemma_slash_after_dots_no_extension(p: Seq<char>, s: int)
    requires
        0 <= s < p.len(),
        p[s] == '/',
        forall|k: int| s < k < p.len() ==> p[k] != '.',
    ensures
        spec_extension(p) is None,
    decreases p.len(),
{
    if s == p.len() - 1 {
    } else if p.last() == '/' {
    } else {
        let q = p.drop_last();
        assert(forall|k: int| s < k < q.len() ==> q[k] != '.');
        lemma_slash_after_dots_no_extension(q, s);
    }
}

/// A last dot that opens its segment gives no extension.
proof fn lemma_leading_dot_no_extension(p: Seq<char>, d: int)
    requires
        0 <= d < p.len(),
        p[d] == '.',
        d == 0 || p[d - 1] == '/',
        forall|k: int| d < k < p.len() ==> p[k] != '.' && p[k] != '/',
    ensures
        spec_extension(p) is None,
    decreases p.len(),
{
    if d < p.len() - 1 {
        let q = p.drop_last();
        assert(forall|k: int| d < k < q.len() ==> q[k] != '.' && q[k] != '/');
        lemma_leading_dot_no_extension(q, d);
    }
}

/// The extension of `p`, as `spec_extension` describes it.
pub fn extension_of(p: &str) -> (r: Option<String>)
    ensures
        r is Some <==> spec_extension(p@) is Some,
        r matches Some(e) ==> spec_extension(p@) == Some(e@),
{
    let n = p.unicode_len();
    let mut i: usize = n;
    while i > 0
        invariant
            0 <= i <= n,
            n == p@.len(),
            forall|k: int| i <= k < n ==> p@[k] != '.' && p@[k] != '/',
        decreases i,
    {
        let c = p.get_char(i - 1);
        if c == '/' {
            proof {
                lemma_slash_after_dots_no_extension(p@, i - 1);
            }
            return None;
        }
        if c == '.' {
            if i >= 2 && p.get_char(i - 2) != '/' {
                proof {
                    lemma_extension_at_dot(p@, i - 1);
                }
                return Some(p.substring_char(i, n).to_owned());
            }
            proof {
                lemma_leading_dot_no_extension(p@, i - 1);
            }
            return None;
        }
        i -= 1;
    }
    proof {
        lemma_no_dot_no_extension(p@);
    }
    None
}

/// The target with its leading separator taken off, if it carries one.
pub open spec fn strip_leading_slash(uri: Seq<char>) -> Seq<char> {
    if uri.len() > 0 && uri[0] == '/' {
        uri.subrange(1, uri.len() as int)
    } else {
        uri
    }
}

/// The file path a request target stands for, under a root directory:
/// the target `/` names the root's home document `root.html`; any other
/// target, stripped of its leading separator, is appended under the root,
/// and given the default extension `html` when it names none.
pub open spec fn spec_resolve(root: Seq<char>, uri: Seq<char>) -> Seq<char> {
    if uri.len() == 1 && uri[0] == '/' {
        root + "/root.html"@
    } else {
        let stripped = strip_leading_slash(uri);
        let base = root + "/"@ + stripped;
        if spec_extension(stripped) is Some {
            base
        } else {
            base + ".html"@
        }
    }
}

/// Finds the file path associated with a request target.
pub fn resolve_uri(root: &str, uri: &str) -> (r: String)
    ensures
        r@ == spec_resolve(root@, uri@),
{
    let n = uri.unicode_len();
    if n == 1 && uri.get_char(0) == '/' {
        let mut r = root.to_owned();
        r.append("/root.html");
        return r;
    }
    let stripped: &str = if n > 0 && uri.get_char(0) == '/' {
        uri.substring_char(1, n)
    } else {
        uri
    };
    let mut r = root.to_owned();
    r.append("/");
    r.append(stripped);
    if extension_of(stripped).is_none() {
        r.append(".html");
    }
    r
}

/// Whether position `i` starts a `..` segment of the target.
pub open spec fn parent_segment_at(s: Seq<char>, i: int) -> bool {
    0 <= i && i + 2 <= s.len() && s[i] == '.' && s[i + 1] == '.' && (i == 0 || s[i - 1] == '/') && (
    i + 2 == s.len() || s[i + 2] == '/')
}

/// True when the target holds a `..` segment, which could name a file
/// outside the root directory.
pub open spec fn has_parent_segment(s: Seq<char>) -> bool {
    exists|i: int| parent_segment_at(s, i)
}

/// Reports whether the target tries to climb out of the root directory.
pub fn target_escapes(uri: &str) -> (r: bool)
    ensures
        r == has_parent_segment(uri@),
{
    let n = uri.unicode_len();
    let mut i: usize = 0;
    while n >= 2 && i <= n - 2
        invariant
            0 <= i,
            i <= n == uri@.len(),
            forall|j: int| 0 <= j < i ==> !parent_segment_at(uri@, j),
        decreases n - i,
    {
        if uri.get_char(i) == '.' && uri.get_char(i + 1) == '.' && (i == 0 || uri.get_char(i - 1)
            == '/') && (i + 2 == n || uri.get_char(i + 2) == '/') {
            proof {
                assert(parent_segment_at(uri@, i as int));
            }
            return true;
        }
        proof {
            assert(!parent_segment_at(uri@, i as int));
        }
        i += 1;
    }
    proof {
        assert(forall|j: int| !parent_segment_at(uri@, j)) by {
            assert forall|j: int| !parent_segment_at(uri@, j) by {
                if 0 <= j && j + 2 <= uri@.len() {
                    assert(!parent_segment_at(uri@, j));
                }
            }
        }
    }
    false
}

/// Character-by-character string comparison.
fn str_eq_chars(a: &str, b: &str) -> (r: bool)
    ensures
        r <==> a@ == b@,
{
    let an = a.unicode_len();
    let bn = b.unicode_len();
    if an != bn {
        return false;
    }
    let mut i: usize = 0;
    while i < an
        invariant
            0 <= i <= an,
            an == a@.len() == b@.len(),
            forall|j: int| 0 <= j < i ==> a@[j] == b@[j],
        decreases an - i,
    {
        if a.get_char(i) != b.get_char(i) {
            return false;
        }
        i += 1;
    }
    proof {
        assert(a@ =~= b@);
    }
    true
}

/// The content type a file path is served under, decided by its extension
/// alone. A path whose extension is missing or unrecognized has none, and a
/// request for it is answered with the not-found document instead.
pub open spec fn spec_content_type(path: Seq<char>) -> Option<Seq<char>> {
    match spec_extension(path) {
        Some(e) => {
            if e == "css"@ {
                Some("text/css"@)
            } else if e == "html"@ {
                Some("text/html"@)
            } else if e == "txt"@ {
                Some("text/txt"@)
            } else if e == "json"@ {
                Some("application/json"@)
            } else if e == "wasm"@ {
                Some("application/wasm"@)
            } else if e == "png"@ {
                Some("image/png"@)
            } else if e == "svg"@ {
                Some("image/svg+xml"@)
            } else if e == "ico"@ {
                Some("image/vnd.microsoft.icon"@)
            } else {
                None
            }
        },
        None => None,
    }
}

/// Classifies a file path by its extension.
pub fn content_type_for(path: &str) -> (r: Option<String>)
    ensures
        r is Some <==> spec_content_type(path@) is Some,
        r matches Some(t) ==> spec_content_type(path@) == Some(t@),
{
    let e = match extension_of(path) {
        Some(e) => e,
        None => {
            return None;
        },
    };
    let e = e.as_str();
    if str_eq_chars(e, "css") {
        Some(String::from_str("text/css"))
    } else if str_eq_chars(e, "html") {
        Some(String::from_str("text/html"))
    } else if str_eq_chars(e, "txt") {
        Some(String::from_str("text/txt"))
    } else if str_eq_chars(e, "json") {
        Some(String::from_str("application/json"))
    } else if str_eq_chars(e, "wasm") {
        Some(String::from_str("application/wasm"))
    } else if str_eq_chars(e, "png") {
        Some(String::from_str("image/png"))
    } else if str_eq_chars(e, "svg") {
        Some(String::from_str("image/svg+xml"))
    } else if str_eq_chars(e, "ico") {
        Some(String::from_str("image/vnd.microsoft.icon"))
    } else {
        None
    }
}

/// The status of a response.
#[derive(Clone, Copy, Debug, PartialEq, Eq, Structural)]
pub enum Status {
    /// The resource was found and is served as the body.
    Okay,
    /// The resource could not be served; the body is the not-found document.
    NotFound,
}

/// The status line each status is written as.
pub open spec fn spec_status_line(s: Status) -> Seq<char> {
    match s {
        Status::Okay => "HTTP/1.1 200 OK"@,
        Status::NotFound => "HTTP/1.1 404 NOT FOUND"@,
    }
}

/// The status line of a response.
pub fn status_line(s: Status) -> (r: &'static str)
    ensures
        r@ == spec_status_line(s),
{
    match s {
        Status::Okay => "HTTP/1.1 200 OK",
        Status::NotFound => "HTTP/1.1 404 NOT FOUND",
    }
}

/// The decimal digit one value under ten is written as.
pub open spec fn spec_digit(d: int) -> char {
    if d == 0 {
        '0'
    } else if d == 1 {
        '1'
    } else if d == 2 {
        '2'
    } else if d == 3 {
        '3'
    } else if d == 4 {
        '4'
    } else if d == 5 {
        '5'
    } else if d == 6 {
        '6'
    } else if d == 7 {
        '7'
    } else if d == 8 {
        '8'
    } else {
        '9'
    }
}

/// The decimal numeral of a number: its digits in order, with no sign and
/// no leading zero except for the number zero itself.
pub open spec fn spec_decimal(n: int) -> Seq<char>
    decreases n,
{
    if n < 10 {
        seq![spec_digit(n)]
    } else {
        spec_decimal(n / 10).push(spec_digit(n % 10))
    }
}

/// One decimal digit.
fn digit_str(d: usize) -> (r: &'static str)
    requires
        d < 10,
    ensures
        r@ == seq![spec_digit(d as int)],
{
    let r: &'static str = match d {
        0 => "0",
        1 => "1",
        2 => "2",
        3 => "3",
        4 => "4",
        5 => "5",
        6 => "6",
        7 => "7",
        8 => "8",
        _ => "9",
    };
    proof {
        reveal_strlit("0");
        reveal_strlit("1");
        reveal_strlit("2");
        reveal_strlit("3");
        reveal_strlit("4");
        reveal_strlit("5");
        reveal_strlit("6");
        reveal_strlit("7");
        reveal_strlit("8");
        reveal_strlit("9");
        assert(r@ =~= seq![spec_digit(d as int)]);
    }
    r
}

/// Writes a number as its decimal numeral.
pub fn decimal(n: usize) -> (r: String)
    ensures
        r@ == spec_decimal(n as int),
    decreases n,
{
    if n < 10 {
        String::from_str(digit_str(n))
    } else {
        let mut r = decimal(n / 10);
        let d = digit_str(n % 10);
        r.append(d);
        proof {
            assert(spec_decimal((n / 10) as int).push(spec_digit((n % 10) as int)) =~= spec_decimal(
                (n / 10) as int,
            ) + seq![spec_digit((n % 10) as int)]);
        }
        r
    }
}

/// The exact header block of a response: the status line, the content type,
/// the body's byte count, and the blank line, each line ended by `\r\n`.
pub open spec fn spec_response_head(status: Status, ctype: Seq<char>, body_len: int) -> Seq<char> {
    spec_status_line(status) + "\r\nContent-Type: "@ + ctype + "\r\nContent-Length: "@
        + spec_decimal(body_len) + "\r\n\r\n"@
}

/// Builds the header block of a response.
pub fn response_head(status: Status, content_type: &str, body_len: usize) -> (r: String)
    ensures
        r@ == spec_response_head(status, content_type@, body_len as int),
{
    let mut r = String::from_str(status_line(status));
    r.append("\r\nContent-Type: ");
    r.append(content_type);
    r.append("\r\nContent-Length: ");
    let d = decimal(body_len);
    r.append(d.as_str());
    r.append("\r\n\r\n");
    r
}

/// A complete response: the header block, then the body bytes. The two are
/// written to the connection in that order, as two writes.
pub struct Reply {
    /// The header block, ending in a blank line.
    pub head: String,
    /// The body bytes.
    pub body: Vec<u8>,
}

/// Builds the response for a loaded file, provided its path's extension is
/// recognized; reports nothing when it is not, and the not-found branch
/// takes over.
pub fn ok_reply(path: &str, body: Vec<u8>) -> (r: Option<Reply>)
    ensures
        r is Some <==> spec_content_type(path@) is Some,
        r matches Some(rep) ==> {
            &&& spec_content_type(path@) matches Some(t) && rep.head@ == spec_response_head(
                Status::Okay,
                t,
                body@.len() as int,
            )
            &&& rep.body@ == body@
        },
{
    match content_type_for(path) {
        Some(t) => {
            let head = response_head(Status::Okay, t.as_str(), body.len());
            Some(Reply { head, body })
        },
        None => None,
    }
}

/// Builds the not-found response. Its body is the canned not-found document
/// when that could be read, and empty otherwise; its content type is
/// `text/html` either way.
pub fn not_found_reply(fallback: Option<Vec<u8>>) -> (r: Reply)
    ensures
        r.body@ == (match fallback {
            Some(b) => b@,
            None => Seq::<u8>::empty(),
        }),
        r.head@ == spec_response_head(Status::NotFound, "text/html"@, r.body@.len() as int),
{
    let body = match fallback {
        Some(b) => b,
        None => Vec::new(),
    };
    let head = response_head(Status::NotFound, "text/html", body.len());
    Reply { head, body }
}

/// Where the canned not-found document stands under the root directory.
pub fn not_found_path(root: &str) -> (r: String)
    ensures
        r@ == root@ + "/error/404.html"@,
{
    let mut r = root.to_owned();
    r.append("/error/404.html");
    r
}

/// What to do with one request line.
pub enum Route {
    /// Send nothing back and release the connection: the line does not
    /// match the request grammar.
    Ignore,
    /// Answer with the not-found document without consulting the
    /// filesystem: the target tries to climb out of the root directory.
    Refuse,
    /// Try to load this path, and serve it or the not-found document.
    Fetch(String),
}

/// Decides how a request line is to be answered under a root directory.
pub fn route_request(line: &str, root: &str) -> (r: Route)
    ensures
        r is Ignore <==> !is_request_line(line@),
        r is Refuse <==> is_request_line(line@) && has_parent_segment(request_target(line@)),
        r matches Route::Fetch(p) ==> {
            &&& is_request_line(line@)
            &&& !has_parent_segment(request_target(line@))
            &&& p@ == spec_resolve(root@, request_target(line@))
        },
{
    match parse_request_line(line) {
        None => Route::Ignore,
        Some(target) => {
            if target_escapes(target.as_str()) {
                Route::Refuse
            } else {
                Route::Fetch(resolve_uri(root, target.as_str()))
            }
        },
    }
}

} // verus!
