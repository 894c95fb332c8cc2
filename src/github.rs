//! The catalog client: release data, credentials and the per-endpoint
//! conditional-fetch cache.
//!
//! The client here decides; it does no I/O. Its caller sends the request that
//! [`GitHub::request`] describes and hands the response back to
//! [`GitHub::handle_response`].

use vstd::prelude::*;

verus! {

/// The root of the remote release API.
pub const GITHUB_API_URL: &'static str = "https://api.github.com";

/// HTTP status of a fresh response.
pub const STATUS_OK: u16 = 200;

/// HTTP status of an "unchanged" response to a conditional request.
pub const STATUS_NOT_MODIFIED: u16 = 304;

/// A decoded JSON document, carried through the cache unread.
#[verifier::external_type_specification]
#[verifier::external_body]
pub struct ExValue(serde_json::Value);

/// The error `serde_json` reports for a malformed document.
#[verifier::external_type_specification]
#[verifier::external_body]
pub struct ExJsonError(serde_json::Error);

/// Relies on the derived `Clone` of `serde_json::Value`: the copy equals the value cloned.
pub assume_specification[ <serde_json::Value as Clone>::clone ](v: &serde_json::Value) -> (r:
    serde_json::Value)
    ensures
        r == *v,
;

/// The JSON document that `serde_json` decodes from `b`, or `None` when `b`
/// is not one well-formed document.
pub uninterp spec fn json_of(b: Seq<u8>) -> Option<serde_json::Value>;

/// Relies on `serde_json::from_slice`: it succeeds exactly on the byte
/// strings that decode as a JSON document, and both the outcome and the
/// document depend on the bytes alone.
#[verifier::external_body]
fn parse_json(body: &[u8]) -> (r: Result<serde_json::Value, serde_json::Error>)
    ensures
        r is Ok <==> json_of(body@) is Some,
        r matches Ok(v) ==> json_of(body@) == Some(v),
{
    serde_json::from_slice::<serde_json::Value>(body)
}

/// An instant as Unix time in UTC: whole seconds and the nanoseconds past them.
#[derive(Clone, Copy, Debug, PartialEq, Eq, Structural)]
pub struct Timestamp {
    pub seconds: i64,
    pub nanos: u32,
}

/// One downloadable file attached to a release.
pub struct Asset {
    pub url: String,
    pub id: u32,
    pub name: String,
    pub content_type: String,
    pub size: u64,
    pub browser_download_url: String,
}

/// One published release of a repository.
pub struct Release {
    pub url: String,
    pub id: u32,
    pub tag_name: String,
    pub created_at: Timestamp,
    pub published_at: Timestamp,
    pub assets: Vec<Asset>,
}

/// A catalog: the releases of one repository, in the order the remote API gave.
pub type Releases = Vec<Release>;

/// Basic-authentication credentials sent with every catalog request.
pub struct Credentials {
    pub username: String,
    pub password: String,
}

impl Credentials {
    pub fn new(username: String, password: String) -> (r: Credentials)
        ensures
            r.username == username,
            r.password == password,
    {
        Credentials { username, password }
    }
}

/// The validator of a fresh response and the body it came with.
pub struct EtagCache {
    pub hash: String,
    pub content: serde_json::Value,
}

impl EtagCache {
    pub fn new(hash: String, content: serde_json::Value) -> (r: EtagCache)
        ensures
            r.hash == hash,
            r.content == content,
    {
        EtagCache { hash, content }
    }
}

/// Why a catalog fetch failed.
#[derive(Debug, PartialEq, Eq)]
pub enum CatalogError {
    /// The server answered with a status other than fresh or unchanged.
    Transport { status: u16 },
    /// A fresh body was not a JSON document.
    Decode,
    /// The server reported "unchanged" for an endpoint with no cached body.
    CacheConsistency,
}

/// What to send for one catalog request.
pub struct CatalogRequest {
    pub url: String,
    /// Username and password for HTTP basic authentication.
    pub basic_auth: Option<(String, String)>,
    /// The validator for an `If-None-Match` header.
    pub if_none_match: Option<String>,
}

/// The abstract client: its credentials, and per endpoint the cached
/// validator and body.
pub struct GitHubView {
    pub creds: Option<(Seq<char>, Seq<char>)>,
    pub etags: Map<Seq<char>, (Seq<char>, serde_json::Value)>,
}

/// The catalog client's state: optional credentials and the conditional-fetch
/// cache, one entry per endpoint.
pub struct GitHub {
    creds: Option<Credentials>,
    etags: Vec<(String, EtagCache)>,
}

/// The map that a list of cache entries with distinct keys stands for.
spec fn etag_map(entries: Seq<(String, EtagCache)>) -> Map<Seq<char>, (Seq<char>, serde_json::Value)> {
    Map::new(
        |k: Seq<char>| exists|i: int| 0 <= i < entries.len() && entries[i].0@ == k,
        |k: Seq<char>|
            {
                let i = choose|i: int| 0 <= i < entries.len() && entries[i].0@ == k;
                (entries[i].1.hash@, entries[i].1.content)
            },
    )
}

spec fn keys_distinct(entries: Seq<(String, EtagCache)>) -> bool {
    forall|i: int, j: int|
        0 <= i < j < entries.len() ==> #[trigger] entries[i].0@ != #[trigger] entries[j].0@
}

/// With distinct keys, the map holds the entry at `i` under its key.
proof fn lemma_entry_at(entries: Seq<(String, EtagCache)>, i: int)
    requires
        keys_distinct(entries),
        0 <= i < entries.len(),
    ensures
        etag_map(entries).contains_key(entries[i].0@),
        etag_map(entries)[entries[i].0@] == (entries[i].1.hash@, entries[i].1.content),
{
    let k = entries[i].0@;
    let j = choose|j: int| 0 <= j < entries.len() && entries[j].0@ == k;
    if j < i {
        assert(entries[j].0@ != entries[i].0@);
    } else if i < j {
        assert(entries[i].0@ != entries[j].0@);
    }
}

/// Storing the entry for `key` at position `i`, over the entry for `key` or
/// appended after the rest, inserts it into the map and keeps keys distinct.
proof fn lemma_store_entry(
    before: Seq<(String, EtagCache)>,
    after: Seq<(String, EtagCache)>,
    i: int,
    key: Seq<char>,
    hash: Seq<char>,
    content: serde_json::Value,
)
    requires
        keys_distinct(before),
        0 <= i < after.len(),
        after.len() == before.len() || (after.len() == before.len() + 1 && i == before.len()),
        forall|j: int| 0 <= j < after.len() && j != i ==> after[j] == before[j],
        i < before.len() ==> before[i].0@ == key,
        i == before.len() ==> !etag_map(before).contains_key(key),
        after[i].0@ == key,
        after[i].1.hash@ == hash,
        after[i].1.content == content,
    ensures
        keys_distinct(after),
        etag_map(after) == etag_map(before).insert(key, (hash, content)),
{
    assert forall|j: int, l: int| 0 <= j < l < after.len() implies #[trigger] after[j].0@
        != #[trigger] after[l].0@ by {
        if j != i && l != i {
            assert(before[j].0@ != before[l].0@);
        } else {
            let o = if j == i { l } else { j };
            assert(after[o] == before[o]);
            if i < before.len() {
                if o < i {
                    assert(before[o].0@ != before[i].0@);
                } else {
                    assert(before[i].0@ != before[o].0@);
                }
            } else {
                assert(before[o].0@ != key);
            }
        }
    }
    let target = etag_map(before).insert(key, (hash, content));
    assert forall|k: Seq<char>| #![auto] etag_map(after).contains_key(k) == target.contains_key(k) by {
        if k == key {
            assert(after[i].0@ == k);
        } else {
            if exists|j: int| 0 <= j < after.len() && after[j].0@ == k {
                let j = choose|j: int| 0 <= j < after.len() && after[j].0@ == k;
                assert(before[j] == after[j]);
            }
            if exists|j: int| 0 <= j < before.len() && before[j].0@ == k {
                let j = choose|j: int| 0 <= j < before.len() && before[j].0@ == k;
                assert(before[j] == after[j]);
            }
        }
    }
    assert forall|k: Seq<char>| #[trigger] etag_map(after).contains_key(k) implies etag_map(after)[k]
        == target[k] by {
        let j = choose|j: int| 0 <= j < after.len() && after[j].0@ == k;
        lemma_entry_at(after, j);
        if j != i {
            assert(before[j] == after[j]);
            lemma_entry_at(before, j);
        }
    }
    assert(etag_map(after) =~= target);
}

impl View for GitHub {
    type V = GitHubView;

    closed spec fn view(&self) -> GitHubView {
        GitHubView {
            creds: match self.creds {
                Some(c) => Some((c.username@, c.password@)),
                None => None,
            },
            etags: etag_map(self.etags@),
        }
    }
}

/// `"repos/<owner>/<repo>/releases"`, the endpoint of a repository's catalog.
pub open spec fn releases_endpoint_of(owner: Seq<char>, repo: Seq<char>) -> Seq<char> {
    "repos/"@ + owner + "/"@ + repo + "/releases"@
}

/// The cache after a fresh body `v` for `endpoint`: stored under its
/// validator when the response carried one, replacing any earlier entry.
pub open spec fn cache_after_fresh(
    etags: Map<Seq<char>, (Seq<char>, serde_json::Value)>,
    endpoint: Seq<char>,
    etag: Option<Seq<char>>,
    v: serde_json::Value,
) -> Map<Seq<char>, (Seq<char>, serde_json::Value)> {
    match etag {
        Some(h) => etags.insert(endpoint, (h, v)),
        None => etags,
    }
}

/// The answer to an "unchanged" response for `endpoint`: the cached body, or
/// a consistency error when there is none.
pub open spec fn unchanged_reply(
    etags: Map<Seq<char>, (Seq<char>, serde_json::Value)>,
    endpoint: Seq<char>,
) -> Result<serde_json::Value, CatalogError> {
    if etags.contains_key(endpoint) {
        Ok(etags[endpoint].1)
    } else {
        Err(CatalogError::CacheConsistency)
    }
}

impl GitHub {
    pub closed spec fn wf(&self) -> bool {
        keys_distinct(self.etags@)
    }

    /// A client without credentials and with an empty cache.
    pub fn new() -> (r: GitHub)
        ensures
            r.wf(),
            r@.creds is None,
            r@.etags == Map::<Seq<char>, (Seq<char>, serde_json::Value)>::empty(),
    {
        let r = GitHub { creds: None, etags: Vec::new() };
        assert(r@.etags =~= Map::<Seq<char>, (Seq<char>, serde_json::Value)>::empty());
        r
    }

    /// A client that authenticates every request with `creds`, with an empty cache.
    pub fn with_creds(creds: Credentials) -> (r: GitHub)
        ensures
            r.wf(),
            r@.creds == Some((creds.username@, creds.password@)),
            r@.etags == Map::<Seq<char>, (Seq<char>, serde_json::Value)>::empty(),
    {
        let r = GitHub { creds: Some(creds), etags: Vec::new() };
        assert(r@.etags =~= Map::<Seq<char>, (Seq<char>, serde_json::Value)>::empty());
        r
    }

    /// The catalog endpoint of repository `owner/repo`.
    pub fn releases_endpoint(owner: &str, repo: &str) -> (r: String)
        ensures
            r@ == releases_endpoint_of(owner@, repo@),
    {
        let mut r = String::from_str("repos/");
        r.append(owner);
        r.append("/");
        r.append(repo);
        r.append("/releases");
        r
    }

    /// The position of `key` in the cache.
    fn find_etag(&self, key: &String) -> (r: Option<usize>)
        requires
            self.wf(),
        ensures
            r is Some <==> self@.etags.contains_key(key@),
            r matches Some(i) ==> i < self.etags@.len() && self.etags@[i as int].0@ == key@
                && self@.etags[key@] == (self.etags@[i as int].1.hash@, self.etags@[i as int].1.content),
    {
        let mut i: usize = 0;
        while i < self.etags.len()
            invariant
                0 <= i <= self.etags.len(),
                self.wf(),
                forall|l: int| 0 <= l < i ==> self.etags@[l].0@ != key@,
            decreases self.etags.len() - i,
        {
            if self.etags[i].0 == *key {
                proof {
                    lemma_entry_at(self.etags@, i as int);
                }
                return Some(i);
            }
            i += 1;
        }
        None
    }

    /// The request for `endpoint`: its URL, the credentials if any, and the
    /// cached validator if the endpoint has one.
    pub fn request(&self, endpoint: &str) -> (r: CatalogRequest)
        requires
            self.wf(),
        ensures
            r.url@ == GITHUB_API_URL@ + "/"@ + endpoint@,
            match r.basic_auth {
                Some((u, p)) => self@.creds == Some((u@, p@)),
                None => self@.creds is None,
            },
            match r.if_none_match {
                Some(h) => self@.etags.contains_key(endpoint@) && h@ == self@.etags[endpoint@].0,
                None => !self@.etags.contains_key(endpoint@),
            },
    {
        let mut url = String::from_str(GITHUB_API_URL);
        url.append("/");
        url.append(endpoint);
        let basic_auth = match &self.creds {
            Some(c) => Some((c.username.clone(), c.password.clone())),
            None => None,
        };
        let key = String::from_str(endpoint);
        let if_none_match = match self.find_etag(&key) {
            Some(i) => Some(self.etags[i].1.hash.clone()),
            None => None,
        };
        CatalogRequest { url, basic_auth, if_none_match }
    }

    /// Takes a decoded fresh body for `endpoint`: caches it under `etag` when
    /// the response carried one, replacing any earlier entry, and returns it.
    pub fn accept_fresh(&mut self, endpoint: &str, etag: Option<String>, content: serde_json::Value) -> (r:
        serde_json::Value)
        requires
            old(self).wf(),
        ensures
            final(self).wf(),
            r == content,
            final(self)@.creds == old(self)@.creds,
            final(self)@.etags == cache_after_fresh(old(self)@.etags, endpoint@, etag.deep_view(), content),
    {
        if let Some(hash) = etag {
            let key = String::from_str(endpoint);
            let ghost before = self.etags@;
            let entry = EtagCache::new(hash, content.clone());
            match self.find_etag(&key) {
                Some(i) => {
                    self.etags.set(i, (key, entry));
                    proof {
                        lemma_store_entry(before, self.etags@, i as int, endpoint@, hash@, content);
                    }
                },
                None => {
                    self.etags.push((key, entry));
                    proof {
                        lemma_store_entry(before, self.etags@, before.len() as int, endpoint@, hash@, content);
                    }
                },
            }
        }
        content
    }

    /// Answers an "unchanged" response for `endpoint` with its cached body.
    pub fn revalidated(&self, endpoint: &str) -> (r: Result<serde_json::Value, CatalogError>)
        requires
            self.wf(),
        ensures
            r == unchanged_reply(self@.etags, endpoint@),
    {
        let key = String::from_str(endpoint);
        match self.find_etag(&key) {
            Some(i) => Ok(self.etags[i].1.content.clone()),
            None => Err(CatalogError::CacheConsistency),
        }
    }

    /// Takes the response to a request for `endpoint`: its status, its
    /// validator if it carried one, and its body.
    pub fn handle_response(
        &mut self,
        endpoint: &str,
        status: u16,
        etag: Option<String>,
        body: &[u8],
    ) -> (r: Result<serde_json::Value, CatalogError>)
        requires
            old(self).wf(),
        ensures
            final(self).wf(),
            final(self)@.creds == old(self)@.creds,
            status == STATUS_OK ==> {
                &&& (r is Err <==> json_of(body@) is None)
                &&& (r matches Ok(v) ==> json_of(body@) == Some(v))
                &&& (r is Err ==> r == Err::<serde_json::Value, CatalogError>(CatalogError::Decode)
                    && final(self)@ == old(self)@)
                &&& (r matches Ok(v) ==> final(self)@.etags == cache_after_fresh(
                    old(self)@.etags,
                    endpoint@,
                    etag.deep_view(),
                    v,
                ))
            },
            status == STATUS_NOT_MODIFIED ==> {
                &&& final(self)@ == old(self)@
                &&& r == unchanged_reply(old(self)@.etags, endpoint@)
            },
            status != STATUS_OK && status != STATUS_NOT_MODIFIED ==> final(self)@ == old(self)@
                && r == Err::<serde_json::Value, CatalogError>(CatalogError::Transport { status }),
    {
        if status == STATUS_OK {
            match parse_json(body) {
                Ok(content) => Ok(self.accept_fresh(endpoint, etag, content)),
                Err(_) => Err(CatalogError::Decode),
            }
        } else if status == STATUS_NOT_MODIFIED {
            self.revalidated(endpoint)
        } else {
            Err(CatalogError::Transport { status })
        }
    }
}

} // verus!
