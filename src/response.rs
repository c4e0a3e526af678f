use std::sync::Arc;
use vstd::prelude::*;
use vstd::string::{StrSliceExecFns, StringExecFns};
use vstd::utf8::encode_utf8;

use crate::cache::GetError;
use crate::payload::{ends_with, has_suffix, File};

verus! {

/// Index of the last `.` among the first `end` characters of `s`, or -1.
pub open spec fn last_dot_before(s: Seq<char>, end: int) -> int
    decreases end,
{
    if end <= 0 {
        -1
    } else if s[end - 1] == '.' {
        end - 1
    } else {
        last_dot_before(s, end - 1)
    }
}

/// What follows the last `.` of `path`; all of `path` when it has none.
pub open spec fn extension(path: Seq<char>) -> Seq<char> {
    path.subrange(last_dot_before(path, path.len() as int) + 1, path.len() as int)
}

/// The `Content-Type` that a path is served with.
pub open spec fn mime_of(path: Seq<char>) -> Seq<char> {
    let e = extension(path);
    if e == "pck"@ {
        "application/octet-stream"@
    } else if e == "wasm"@ {
        "application/wasm"@
    } else if e == "js"@ {
        "text/javascript"@
    } else if e == "html"@ {
        "text/html"@
    } else {
        "text"@
    }
}

proof fn lemma_last_dot_step(s: Seq<char>, i: int)
    requires
        0 <= i < s.len(),
        s[i] != '.',
    ensures
        last_dot_before(s, i + 1) == last_dot_before(s, i),
{
}

proof fn lemma_last_dot_range(s: Seq<char>, end: int)
    requires
        0 <= end <= s.len(),
    ensures
        -1 <= last_dot_before(s, end) < end,
    decreases end,
{
    if end > 0 && s[end - 1] != '.' {
        lemma_last_dot_range(s, end - 1);
    }
}

/// Where the extension of `path` starts: just past its last `.`, or 0.
fn extension_start(path: &str) -> (r: usize)
    ensures
        r == last_dot_before(path@, path@.len() as int) + 1,
        r <= path@.len(),
{
    let n = path.unicode_len();
    let mut i: usize = n;
    proof {
        lemma_last_dot_range(path@, n as int);
    }
    while i > 0
        invariant
            i <= n,
            n == path@.len(),
            last_dot_before(path@, n as int) == last_dot_before(path@, i as int),
        decreases i,
    {
        if path.get_char(i - 1) == '.' {
            return i;
        }
        proof {
            lemma_last_dot_step(path@, i - 1);
        }
        i -= 1;
    }
    0
}

/// Whether the extension of `path`, which starts at `start`, is `e`.
fn extension_is(path: &str, start: usize, e: &str) -> (r: bool)
    requires
        start == last_dot_before(path@, path@.len() as int) + 1,
        start <= path@.len(),
    ensures
        r == (extension(path@) == e@),
{
    let n = path.unicode_len();
    let m = e.unicode_len();
    let r = n - start == m && ends_with(path, e);
    proof {
        if n - start == m && has_suffix(path@, e@) {
            assert(extension(path@) == e@);
        }
        if extension(path@) == e@ {
            assert(n - start == m);
        }
    }
    r
}

/// The `Content-Type` for `path`, chosen by its extension.
pub fn mime_type(path: &str) -> (r: &'static str)
    ensures
        r@ == mime_of(path@),
{
    let start = extension_start(path);
    if extension_is(path, start, "pck") {
        "application/octet-stream"
    } else if extension_is(path, start, "wasm") {
        "application/wasm"
    } else if extension_is(path, start, "js") {
        "text/javascript"
    } else if extension_is(path, start, "html") {
        "text/html"
    } else {
        "text"
    }
}

/// The lower-case form of `s`, as `str::to_lowercase` gives it.
pub uninterp spec fn lowercase_of(s: Seq<char>) -> Seq<char>;

/// Relies on `str::to_lowercase`: the result depends on the characters of `s` alone.
#[verifier::external_body]
fn lowercase(s: &str) -> (r: String)
    ensures
        r@ == lowercase_of(s@),
{
    s.to_lowercase()
}

/// `t` occurs in `s` as a contiguous run.
pub open spec fn contains_run(s: Seq<char>, t: Seq<char>) -> bool {
    exists|i: int| 0 <= i && i + t.len() <= s.len() && #[trigger] s.subrange(i, i + t.len()) == t
}

/// Whether `lowered` (an already lower-cased path) contains `game`.
pub fn mentions_game(lowered: &str) -> (r: bool)
    ensures
        r == contains_run(lowered@, "game"@),
{
    proof {
        reveal_strlit("game");
    }
    let n = lowered.unicode_len();
    if n < 4 {
        return false;
    }
    let mut i: usize = 0;
    while i <= n - 4
        invariant
            n == lowered@.len(),
            n >= 4,
            i <= n - 3,
            forall|j: int|
                0 <= j < i ==> #[trigger] lowered@.subrange(j, j + "game"@.len()) != "game"@,
        decreases n - i,
    {
        proof {
            reveal_strlit("game");
        }
        let found = lowered.get_char(i) == 'g' && lowered.get_char(i + 1) == 'a'
            && lowered.get_char(i + 2) == 'm' && lowered.get_char(i + 3) == 'e';
        let ghost window = lowered@.subrange(i as int, i + 4);
        if found {
            assert(window =~= "game"@);
            return true;
        }
        assert(window[0] != 'g' || window[1] != 'a' || window[2] != 'm' || window[3] != 'e');
        i += 1;
    }
    false
}

/// Whether responses for `path` carry the cross-origin isolation headers:
/// exactly when `path`, compared case-insensitively, contains `game`.
pub fn needs_isolation(path: &str) -> (r: bool)
    ensures
        r == contains_run(lowercase_of(path@), "game"@),
{
    let lowered = lowercase(path);
    mentions_game(lowered.as_str())
}

/// The digit character for `d` (below 10).
pub open spec fn digit(d: nat) -> char {
    "0123456789"@[d as int]
}

/// The decimal text of `n`, without leading zeros.
pub open spec fn decimal(n: nat) -> Seq<char>
    decreases n,
{
    if n < 10 {
        seq![digit(n)]
    } else {
        decimal(n / 10).push(digit(n % 10))
    }
}

/// The decimal text of `n`.
pub fn decimal_text(n: usize) -> (r: String)
    ensures
        r@ == decimal(n as nat),
    decreases n,
{
    proof {
        reveal_strlit("0123456789");
    }
    let digits = "0123456789";
    if n < 10 {
        let d = digits.substring_char(n, n + 1);
        let r = String::from_str(d);
        assert(r@ =~= decimal(n as nat));
        r
    } else {
        let mut r = decimal_text(n / 10);
        let d = n % 10;
        r.append(digits.substring_char(d, d + 1));
        assert(r@ =~= decimal(n as nat));
        r
    }
}

/// Index of the first space in `s` at or after `from`, or `s.len()`.
pub open spec fn space_from(s: Seq<char>, from: int) -> int
    decreases s.len() - from,
{
    if from >= s.len() {
        s.len() as int
    } else if s[from] == ' ' {
        from
    } else {
        space_from(s, from + 1)
    }
}

/// The second space-separated field of a request line (`METHOD SP PATH SP
/// VERSION`); `None` when the line has no space.
pub open spec fn request_target_of(line: Seq<char>) -> Option<Seq<char>> {
    let i = space_from(line, 0);
    if i >= line.len() {
        None
    } else {
        Some(line.subrange(i + 1, space_from(line, i + 1)))
    }
}

proof fn lemma_space_from_range(s: Seq<char>, from: int)
    requires
        0 <= from <= s.len(),
    ensures
        from <= space_from(s, from) <= s.len(),
    decreases s.len() - from,
{
    if from < s.len() && s[from] != ' ' {
        lemma_space_from_range(s, from + 1);
    }
}

fn find_space(line: &str, from: usize) -> (r: usize)
    requires
        from <= line@.len(),
    ensures
        r == space_from(line@, from as int),
        from <= r <= line@.len(),
{
    let n = line.unicode_len();
    let mut i = from;
    proof {
        lemma_space_from_range(line@, from as int);
    }
    while i < n
        invariant
            from <= i <= n,
            n == line@.len(),
            space_from(line@, from as int) == space_from(line@, i as int),
        decreases n - i,
    {
        if line.get_char(i) == ' ' {
            return i;
        }
        i += 1;
    }
    n
}

/// The requested path of a request line.
pub fn request_target(line: &str) -> (r: Option<&str>)
    ensures
        match r {
            Some(t) => request_target_of(line@) == Some(t@),
            None => request_target_of(line@) is None,
        },
{
    let n = line.unicode_len();
    let i = find_space(line, 0);
    if i >= n {
        None
    } else {
        let j = find_space(line, i + 1);
        Some(line.substring_char(i + 1, j))
    }
}

/// The resource looked up for a requested path: `/` stands for `index.html`.
pub open spec fn resource_of(target: Seq<char>) -> Seq<char> {
    if target == "/"@ {
        "index.html"@
    } else {
        target
    }
}

pub fn resource_for(target: &str) -> (r: &str)
    ensures
        r@ == resource_of(target@),
{
    proof {
        reveal_strlit("/");
    }
    if target.unicode_len() == 1 && target.get_char(0) == '/' {
        assert(target@ =~= "/"@);
        "index.html"
    } else {
        target
    }
}

/// The three headers that opt a response into cross-origin isolation.
pub open spec fn isolation_lines() -> Seq<char> {
    "Cross-Origin-Embedder-Policy: require-corp\r\n"@
        + "Cross-Origin-Opener-Policy: same-origin\r\n"@
        + "Cross-Origin-Resource-Policy: cross-origin\r\n"@
}

/// Status line and headers of a response, up to and including the blank
/// line that precedes the body.
pub open spec fn head_text(
    found: bool,
    length: nat,
    compressed: bool,
    isolated: bool,
    mime: Seq<char>,
) -> Seq<char> {
    (if found {
        "HTTP/1.1 200 OK\r\n"@
    } else {
        "HTTP/1.1 404 NOT FOUND\r\n"@
    }) + "Content-Length: "@ + decimal(length) + "\r\n"@ + (if compressed {
        "Content-Encoding: br\r\n"@
    } else {
        Seq::empty()
    }) + (if isolated {
        isolation_lines()
    } else {
        Seq::empty()
    }) + "Content-Type: "@ + mime + " \r\n"@ + "\r\n"@
}

/// The status line and headers, in the order `head_text` gives them.
pub fn response_head(
    found: bool,
    length: usize,
    compressed: bool,
    isolated: bool,
    mime: &str,
) -> (r: String)
    ensures
        r@ == head_text(found, length as nat, compressed, isolated, mime@),
{
    let mut head = if found {
        String::from_str("HTTP/1.1 200 OK\r\n")
    } else {
        String::from_str("HTTP/1.1 404 NOT FOUND\r\n")
    };
    head.append("Content-Length: ");
    let digits = decimal_text(length);
    head.append(digits.as_str());
    head.append("\r\n");
    let ghost before_encoding = head@;
    if compressed {
        head.append("Content-Encoding: br\r\n");
    }
    let ghost before_isolation = head@;
    if isolated {
        head.append("Cross-Origin-Embedder-Policy: require-corp\r\n");
        head.append("Cross-Origin-Opener-Policy: same-origin\r\n");
        head.append("Cross-Origin-Resource-Policy: cross-origin\r\n");
        assert(head@ =~= before_isolation + isolation_lines());
    } else {
        assert(head@ =~= before_isolation + Seq::empty());
    }
    if !compressed {
        assert(before_isolation =~= before_encoding + Seq::empty());
    }
    head.append("Content-Type: ");
    head.append(mime);
    head.append(" \r\n");
    head.append("\r\n");
    head
}

/// The head of the response that answers a request for `target` with
/// `payload`: `found` tells a `200 OK` from a `404 NOT FOUND`. Length and
/// encoding come from the payload; type and isolation from the requested path.
pub fn head_for(target: &str, found: bool, payload: &File) -> (r: String)
    ensures
        r@ == head_text(
            found,
            payload.body().len(),
            payload is Br,
            contains_run(lowercase_of(target@), "game"@),
            mime_of(target@),
        ),
{
    let length = payload.bytes().len();
    let compressed = payload.is_compressed();
    let isolated = needs_isolation(target);
    let mime = mime_type(target);
    response_head(found, length, compressed, isolated, mime)
}

/// `path` has a `..` segment (two dots bounded by `/` or by its ends), which
/// would lead out of the resource directory.
pub open spec fn climbs_out(path: Seq<char>) -> bool {
    exists|i: int|
        0 <= i && i + 2 <= path.len() && #[trigger] path.subrange(i, i + 2) == ".."@ && (i == 0
            || path[i - 1] == '/') && (i + 2 == path.len() || path[i + 2] == '/')
}

/// Whether `path` has a `..` segment.
pub fn has_parent_segment(path: &str) -> (r: bool)
    ensures
        r == climbs_out(path@),
{
    let n = path.unicode_len();
    let mut i: usize = 0;
    while i < n && i + 1 < n
        invariant
            n == path@.len(),
            i <= n,
            forall|j: int|
                0 <= j < i && j + 2 <= n ==> !(#[trigger] path@.subrange(j, j + 2) == ".."@ && (
                j == 0 || path@[j - 1] == '/') && (j + 2 == n || path@[j + 2] == '/')),
        decreases n - i,
    {
        proof {
            reveal_strlit("..");
        }
        let ghost window = path@.subrange(i as int, i + 2);
        let dots = path.get_char(i) == '.' && path.get_char(i + 1) == '.';
        let left = i == 0 || path.get_char(i - 1) == '/';
        let right = i + 2 == n || path.get_char(i + 2) == '/';
        if dots && left && right {
            assert(window =~= ".."@);
            return true;
        }
        if !dots {
            assert(window[0] != '.' || window[1] != '.');
            assert(window != ".."@);
        } else {
            assert(window =~= ".."@);
        }
        i += 1;
    }
    false
}

/// The directory that resources are read from.
pub open spec fn resource_dir() -> Seq<char> {
    "res/"@
}

/// Where on disk `resource` is read from; `None` for a path that would leave
/// the resource directory, which is then served as not found.
pub fn disk_path(resource: &str) -> (r: Option<String>)
    ensures
        climbs_out(resource@) ==> r is None,
        !climbs_out(resource@) ==> (r matches Some(p) && p@ == resource_dir() + resource@),
{
    if has_parent_segment(resource) {
        None
    } else {
        let mut p = String::from_str("res/");
        p.append(resource);
        Some(p)
    }
}

/// The full response: the head of `head_for` in UTF-8, then the body.
pub fn response_bytes(target: &str, found: bool, payload: &File) -> (r: Vec<u8>)
    ensures
        r@ == encode_utf8(
            head_text(
                found,
                payload.body().len(),
                payload is Br,
                contains_run(lowercase_of(target@), "game"@),
                mime_of(target@),
            ),
        ) + payload.body(),
{
    let head = head_for(target, found, payload);
    let mut bytes = head.as_str().as_bytes_vec();
    let ghost head_bytes = bytes@;
    bytes.extend_from_slice(payload.bytes().as_slice());
    assert(bytes@ =~= head_bytes + payload.body());
    bytes
}

/// What answering a request takes, once its resource was looked up.
pub enum Answer {
    /// Send these bytes.
    Send(Vec<u8>),
    /// The resource is missing: look up the not-found page and answer with it.
    NotFoundPage,
    /// Send nothing and drop the connection.
    Drop,
}

/// The next step for a request for `target` whose resource lookup gave `outcome`.
pub fn answer(target: &str, outcome: Result<Arc<File>, GetError>) -> (r: Answer)
    ensures
        match outcome {
            Ok(p) => r matches Answer::Send(b) && b@ == encode_utf8(
                head_text(
                    true,
                    p.body().len(),
                    *p is Br,
                    contains_run(lowercase_of(target@), "game"@),
                    mime_of(target@),
                ),
            ) + p.body(),
            Err(GetError::NotFound) => r is NotFoundPage,
            Err(GetError::CompressionFailed) => r is Drop,
        },
{
    match outcome {
        Ok(p) => Answer::Send(response_bytes(target, true, &p)),
        Err(GetError::NotFound) => Answer::NotFoundPage,
        Err(GetError::CompressionFailed) => Answer::Drop,
    }
}

/// The `404 NOT FOUND` response for `target`, carrying the not-found page;
/// `None` when that page itself cannot be served.
pub fn not_found_answer(target: &str, page: Result<Arc<File>, GetError>) -> (r: Option<Vec<u8>>)
    ensures
        match page {
            Ok(p) => r matches Some(b) && b@ == encode_utf8(
                head_text(
                    false,
                    p.body().len(),
                    *p is Br,
                    contains_run(lowercase_of(target@), "game"@),
                    mime_of(target@),
                ),
            ) + p.body(),
            Err(_) => r is None,
        },
{
    match page {
        Ok(p) => Some(response_bytes(target, false, &p)),
        Err(_) => None,
    }
}

} // verus!
