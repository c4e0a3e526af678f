use vstd::prelude::*;
use vstd::string::StrSliceExecFns;

verus! {

/// What the Brotli encoder, at its default settings, gives for `raw`: the
/// compressed stream, or `None` where the encoder reports an error.
pub uninterp spec fn brotli_result(raw: Seq<u8>) -> Option<Seq<u8>>;

/// A file's content, ready to be sent: either verbatim or Brotli-compressed.
/// A payload is never changed once built; it is shared by reference count.
pub enum File {
    Plain(Vec<u8>),
    Br(Vec<u8>),
}

impl File {
    /// The bytes that go on the wire as the response body.
    pub open spec fn body(&self) -> Seq<u8> {
        match self {
            File::Plain(b) => b@,
            File::Br(b) => b@,
        }
    }

    pub fn bytes(&self) -> (r: &Vec<u8>)
        ensures
            r@ == self.body(),
    {
        match self {
            File::Plain(b) => b,
            File::Br(b) => b,
        }
    }

    /// Whether the body is Brotli-encoded (and so sent with `Content-Encoding: br`).
    pub fn is_compressed(&self) -> (r: bool)
        ensures
            r == (self is Br),
    {
        match self {
            File::Plain(_) => false,
            File::Br(_) => true,
        }
    }
}

/// `s` ends with `suffix`.
pub open spec fn has_suffix(s: Seq<char>, suffix: Seq<char>) -> bool {
    suffix.len() <= s.len() && s.subrange(s.len() - suffix.len(), s.len() as int) == suffix
}

/// Paths whose extension is on the allow-list are stored compressed.
pub open spec fn compressible(path: Seq<char>) -> bool {
    has_suffix(path, ".html"@) || has_suffix(path, ".txt"@) || has_suffix(path, ".css"@)
        || has_suffix(path, ".js"@) || has_suffix(path, ".exe"@) || has_suffix(path, ".ttf"@)
        || has_suffix(path, ".otf"@)
}

/// The payload that `path` is served as, when the file holds `raw`.
pub open spec fn served_as(path: Seq<char>, raw: Seq<u8>, f: File) -> bool {
    if compressible(path) {
        f is Br && brotli_result(raw) == Some(f.body())
    } else {
        f is Plain && f.body() == raw
    }
}

/// Two payloads built for one path from the same file content agree, in
/// encoding and in every byte: concurrent misses on a path converge.
pub proof fn lemma_served_as_unique(path: Seq<char>, raw: Seq<u8>, f1: File, f2: File)
    requires
        served_as(path, raw, f1),
        served_as(path, raw, f2),
    ensures
        f1.body() == f2.body(),
        (f1 is Br) == (f2 is Br),
{
}

pub fn ends_with(s: &str, suffix: &str) -> (r: bool)
    ensures
        r == has_suffix(s@, suffix@),
{
    let n = s.unicode_len();
    let m = suffix.unicode_len();
    if m > n {
        return false;
    }
    let off = n - m;
    let mut i: usize = 0;
    while i < m
        invariant
            n == s@.len(),
            m == suffix@.len(),
            off + m == n,
            i <= m,
            forall|j: int| 0 <= j < i ==> s@[off + j] == suffix@[j],
        decreases m - i,
    {
        if s.get_char(off + i) != suffix.get_char(i) {
            assert(s@.subrange(off as int, n as int)[i as int] != suffix@[i as int]);
            return false;
        }
        i += 1;
    }
    assert(s@.subrange(off as int, n as int) =~= suffix@);
    true
}

/// Whether `path` ends with one of `.html .txt .css .js .exe .ttf .otf`.
pub fn should_compress(path: &str) -> (r: bool)
    ensures
        r == compressible(path@),
{
    ends_with(path, ".html") || ends_with(path, ".txt") || ends_with(path, ".css")
        || ends_with(path, ".js") || ends_with(path, ".exe") || ends_with(path, ".ttf")
        || ends_with(path, ".otf")
}

/// Relies on brotlic's `CompressorWriter` (built by `new`, hence the default
/// encoder): writing `raw` into it and finishing the stream with `into_inner`
/// leaves the Brotli encoding of `raw` in the inner `Vec`. An encoder error
/// gives `None`. Both outcomes depend on `raw` alone.
#[verifier::external_body]
fn brotli_compress(raw: &Vec<u8>) -> (r: Option<Vec<u8>>)
    ensures
        match r {
            Some(c) => brotli_result(raw@) == Some(c@),
            None => brotli_result(raw@) is None,
        },
{
    let mut writer = brotlic::CompressorWriter::new(Vec::new());
    match std::io::Write::write_all(&mut writer, raw) {
        Ok(()) => writer.into_inner().ok(),
        Err(_) => None,
    }
}

/// The payload for an encoder outcome: the compressed stream, or nothing.
pub fn compressed_payload(encoded: Option<Vec<u8>>) -> (r: Option<File>)
    ensures
        match encoded {
            Some(c) => r == Some(File::Br(c)),
            None => r is None,
        },
{
    match encoded {
        Some(c) => Some(File::Br(c)),
        None => None,
    }
}

/// Turns the bytes read for `path` into the payload it is served as.
/// Only a failure of the compressor gives `None`; then nothing is served for
/// this request.
pub fn encode_payload(path: &str, contents: Vec<u8>) -> (r: Option<File>)
    ensures
        r matches Some(f) ==> served_as(path@, contents@, f),
        !compressible(path@) ==> r is Some,
        compressible(path@) ==> (r is Some <==> brotli_result(contents@) is Some),
{
    if should_compress(path) {
        compressed_payload(brotli_compress(&contents))
    } else {
        Some(File::Plain(contents))
    }
}

} // verus!
