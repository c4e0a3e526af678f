use std::sync::Arc;
use vstd::prelude::*;

use crate::payload::{
    brotli_result, compressible, encode_payload, lemma_served_as_unique, served_as, File,
};

verus! {

/// The cache after each of `stores` in turn, each one an overwriting insert.
pub open spec fn after_stores(m: Map<Seq<char>, File>, stores: Seq<(Seq<char>, File)>) -> Map<
    Seq<char>,
    File,
>
    decreases stores.len(),
{
    if stores.len() == 0 {
        m
    } else {
        let last = stores.last();
        after_stores(m, stores.drop_last()).insert(last.0, last.1)
    }
}

/// Gets of one path converge: when the entry for `path` and every later store
/// under `path` are payloads built for it from the same content `raw`, the
/// entry keeps its encoding and its bytes, whatever else is stored meanwhile.
pub proof fn lemma_entry_converges(
    m: Map<Seq<char>, File>,
    stores: Seq<(Seq<char>, File)>,
    path: Seq<char>,
    raw: Seq<u8>,
)
    requires
        m.contains_key(path),
        served_as(path, raw, m[path]),
        forall|i: int|
            0 <= i < stores.len() && (#[trigger] stores[i]).0 == path ==> served_as(
                path,
                raw,
                stores[i].1,
            ),
    ensures
        after_stores(m, stores).contains_key(path),
        served_as(path, raw, after_stores(m, stores)[path]),
        after_stores(m, stores)[path].body() == m[path].body(),
        (after_stores(m, stores)[path] is Br) == (m[path] is Br),
    decreases stores.len(),
{
    if stores.len() > 0 {
        let rest = stores.drop_last();
        assert forall|i: int|
            0 <= i < rest.len() && (#[trigger] rest[i]).0 == path implies served_as(
                path,
                raw,
                rest[i].1,
            ) by {
            assert(rest[i] == stores[i]);
        }
        lemma_entry_converges(m, rest, path, raw);
        let last = stores.last();
        if last.0 == path {
            assert(stores[stores.len() - 1] == last);
            lemma_served_as_unique(path, raw, last.1, m[path]);
        }
    }
}

/// The payload behind a shared handle.
pub open spec fn shared(a: Arc<File>) -> File {
    *a
}

/// Relies on `Arc::clone`: the new handle points at the same value.
#[verifier::external_body]
fn share<T>(a: &Arc<T>) -> (r: Arc<T>)
    ensures
        r == *a,
{
    Arc::clone(a)
}

/// Why a path could not be served.
#[derive(Debug, Clone, Copy, PartialEq, Eq, Structural)]
pub enum GetError {
    /// Nothing could be read for the path.
    NotFound,
    /// The file was read, but the compressor failed on it.
    CompressionFailed,
}

/// What a completed miss on `path` yields, given what reading its file gave:
/// `prepared` is that outcome for `read`.
pub open spec fn prepared_for(
    path: Seq<char>,
    read: Option<Vec<u8>>,
    prepared: Result<File, GetError>,
) -> bool {
    match read {
        None => prepared == Err::<File, GetError>(GetError::NotFound),
        Some(raw) => if !compressible(path) || brotli_result(raw@) is Some {
            prepared matches Ok(f) && served_as(path, raw@, f)
        } else {
            prepared == Err::<File, GetError>(GetError::CompressionFailed)
        },
    }
}

/// A miss on a path whose file could not be read is not found and leaves the
/// path out of the cache: `prepared` is what `prepare` gave, and `after` the
/// cache once `settle` took it.
pub proof fn lemma_unreadable_not_cached(
    path: Seq<char>,
    before: Map<Seq<char>, File>,
    prepared: Result<File, GetError>,
    after: Map<Seq<char>, File>,
)
    requires
        prepared_for(path, None, prepared),
        prepared is Err ==> after == before,
        !before.contains_key(path),
    ensures
        prepared == Err::<File, GetError>(GetError::NotFound),
        after == before,
        !after.contains_key(path),
{
}

/// The payload behind a prepared outcome.
pub open spec fn prepared_view(r: Result<Arc<File>, GetError>) -> Result<File, GetError> {
    match r {
        Ok(f) => Ok(*f),
        Err(e) => Err(e),
    }
}

/// Builds the payload for a miss on `path` from what reading its file gave
/// (`None` when it could not be read). Runs outside any lock: compression
/// completes before the payload can be stored.
pub fn prepare(path: &str, read: Option<Vec<u8>>) -> (r: Result<Arc<File>, GetError>)
    ensures
        prepared_for(path@, read, prepared_view(r)),
{
    match read {
        None => Err(GetError::NotFound),
        Some(raw) => match encode_payload(path, raw) {
            None => Err(GetError::CompressionFailed),
            Some(payload) => Ok(Arc::new(payload)),
        },
    }
}

/// The file cache: path-keyed payloads, at most one per path (paths compared
/// exactly, case included). Entries are never removed; a later store under
/// the same path replaces one. Threads share a manager behind a
/// reader/writer lock: hits need only the read side.
pub struct FileManager {
    entries: Vec<(String, Arc<File>)>,
    contents: Ghost<Map<Seq<char>, File>>,
}

impl View for FileManager {
    type V = Map<Seq<char>, File>;

    closed spec fn view(&self) -> Map<Seq<char>, File> {
        self.contents@
    }
}

impl FileManager {
    pub closed spec fn wf(&self) -> bool {
        &&& forall|i: int|
            0 <= i < self.entries@.len() ==> #[trigger] self.contents@.contains_key(
                self.entries@[i].0@,
            ) && self.contents@[self.entries@[i].0@] == *self.entries@[i].1
        &&& forall|k: Seq<char>| #[trigger]
            self.contents@.contains_key(k) ==> exists|i: int|
                0 <= i < self.entries@.len() && #[trigger] self.entries@[i].0@ == k
        &&& forall|i: int, j: int|
            0 <= i < j < self.entries@.len() ==> #[trigger] self.entries@[i].0@
                != #[trigger] self.entries@[j].0@
    }

    /// An empty cache.
    pub fn new() -> (m: Self)
        ensures
            m.wf(),
            m@ == Map::<Seq<char>, File>::empty(),
    {
        FileManager { entries: Vec::new(), contents: Ghost(Map::empty()) }
    }

    fn position(&self, key: &String) -> (r: Option<usize>)
        requires
            self.wf(),
        ensures
            match r {
                Some(i) => i < self.entries@.len() && self.entries@[i as int].0@ == key@,
                None => !self@.contains_key(key@),
            },
    {
        let mut i: usize = 0;
        while i < self.entries.len()
            invariant
                self.wf(),
                i <= self.entries@.len(),
                forall|j: int| 0 <= j < i ==> self.entries@[j].0@ != key@,
            decreases self.entries@.len() - i,
        {
            if self.entries[i].0 == *key {
                return Some(i);
            }
            i += 1;
        }
        None
    }

    /// The payload cached under `path`: `Some` exactly when there is one.
    pub fn cached(&self, path: &str) -> (r: Option<Arc<File>>)
        requires
            self.wf(),
        ensures
            match r {
                Some(f) => self@.contains_key(path@) && *f == self@[path@],
                None => !self@.contains_key(path@),
            },
    {
        let key = path.to_owned();
        match self.position(&key) {
            Some(i) => {
                assert(self.contents@.contains_key(self.entries@[i as int].0@));
                Some(share(&self.entries[i].1))
            },
            None => None,
        }
    }

    /// Puts `f` under `path`, replacing any entry it had.
    pub fn store(&mut self, path: &str, f: Arc<File>)
        requires
            old(self).wf(),
        ensures
            final(self).wf(),
            final(self)@ == old(self)@.insert(path@, *f),
    {
        let key = path.to_owned();
        let ghost k = key@;
        let ghost v = shared(f);
        let ghost at: int;
        match self.position(&key) {
            Some(i) => {
                self.entries.set(i, (key, f));
                proof {
                    at = i as int;
                }
            },
            None => {
                self.entries.push((key, f));
                proof {
                    at = self.entries@.len() - 1;
                }
            },
        }
        self.contents = Ghost(self.contents@.insert(k, v));
        assert forall|k2: Seq<char>| #[trigger]
            self.contents@.contains_key(k2) implies exists|j: int|
                0 <= j < self.entries@.len() && #[trigger] self.entries@[j].0@ == k2 by {
            if k2 != k {
                let j = choose|j: int|
                    0 <= j < old(self).entries@.len() && old(self).entries@[j].0@ == k2;
                assert(self.entries@[j].0@ == k2);
            } else {
                assert(self.entries@[at].0@ == k2);
            }
        }
        assert forall|j: int|
            0 <= j < self.entries@.len() implies #[trigger] self.contents@.contains_key(
            self.entries@[j].0@,
        ) && self.contents@[self.entries@[j].0@] == *self.entries@[j].1 by {
            if j != at {
                assert(old(self).contents@.contains_key(old(self).entries@[j].0@));
            }
        }
    }

    /// Completes a miss on `path` with its prepared outcome: a payload is
    /// stored under `path` (replacing what a racing miss may have put there)
    /// and returned; an error leaves the cache as it was.
    pub fn settle(&mut self, path: &str, prepared: Result<Arc<File>, GetError>) -> (r: Result<
        Arc<File>,
        GetError,
    >)
        requires
            old(self).wf(),
        ensures
            final(self).wf(),
            r == prepared,
            match prepared {
                Ok(f) => final(self)@ == old(self)@.insert(path@, *f),
                Err(_) => final(self)@ == old(self)@,
            },
    {
        match prepared {
            Ok(f) => {
                self.store(path, share(&f));
                Ok(f)
            },
            Err(e) => Err(e),
        }
    }
}

} // verus!
