//! Cache keys: the identity under which a response is stored.

use vstd::prelude::*;
use crate::message::RequestParts;

verus! {

/// The default key: method and URI joined by a colon.
pub open spec fn default_key(method: Seq<char>, uri: Seq<char>) -> Seq<char> {
    method + seq![':'] + uri
}

/// Derives the default key of a request.
pub fn default_cache_key(request: &RequestParts) -> (key: String)
    ensures
        key@ == default_key(request@.method, request@.uri),
{
    proof {
        reveal_strlit(":");
    }
    let mut key: String = request.method.clone();
    key.append(":");
    key.append(request.uri.as_str());
    assert(":"@ =~= seq![':']);
    key
}

/// Distinct (method, URI) pairs get distinct default keys, as long as the
/// methods are free of colons (every HTTP method token is).
pub proof fn lemma_default_key_injective(m1: Seq<char>, u1: Seq<char>, m2: Seq<char>, u2: Seq<char>)
    requires
        !m1.contains(':'),
        !m2.contains(':'),
        default_key(m1, u1) == default_key(m2, u2),
    ensures
        m1 == m2,
        u1 == u2,
{
    let k1 = default_key(m1, u1);
    let k2 = default_key(m2, u2);
    assert(k1[m1.len() as int] == ':');
    assert(k2[m2.len() as int] == ':');
    if m1.len() < m2.len() {
        assert(k2[m1.len() as int] == m2[m1.len() as int]);
        assert(m2.contains(m2[m1.len() as int]));
    }
    if m2.len() < m1.len() {
        assert(k1[m2.len() as int] == m1[m2.len() as int]);
        assert(m1.contains(m1[m2.len() as int]));
    }
    assert(m1 =~= k1.subrange(0, m1.len() as int));
    assert(m2 =~= k2.subrange(0, m2.len() as int));
    assert(u1 =~= k1.subrange(m1.len() as int + 1, k1.len() as int));
    assert(u2 =~= k2.subrange(m2.len() as int + 1, k2.len() as int));
}

/// Freshness options of a cache.
#[derive(Clone, Copy, Debug, PartialEq, Eq, Structural)]
pub struct CacheOptions {
    /// Whether the cache serves several users. A shared cache must not
    /// store responses that are private to one of them.
    pub shared: bool,
}

impl Default for CacheOptions {
    fn default() -> (r: Self)
        ensures
            r.shared,
    {
        CacheOptions { shared: true }
    }
}

/// Configuration of a cache: an optional key override and optional
/// freshness options.
pub struct HttpCacheOptions<F: Fn(&RequestParts) -> String> {
    /// When present, replaces the default key for every operation.
    pub cache_key: Option<F>,
    pub cache_options: Option<CacheOptions>,
}

impl<F: Fn(&RequestParts) -> String> Default for HttpCacheOptions<F> {
    /// No key override and no freshness options: default keys, shared cache.
    fn default() -> (r: Self)
        ensures
            r.cache_key is None,
            r.cache_options is None,
    {
        HttpCacheOptions { cache_key: None, cache_options: None }
    }
}

impl<F: Fn(&RequestParts) -> String> HttpCacheOptions<F> {
    /// What `key` must be for `request` under this configuration: whatever
    /// the override returns where there is one, the default key otherwise.
    pub open spec fn is_key_of(&self, request: &RequestParts, key: String) -> bool {
        match self.cache_key {
            Some(f) => f.ensures((request,), key),
            None => key@ == default_key(request@.method, request@.uri),
        }
    }

    /// Whether the cache counts as shared: true unless options say otherwise.
    pub open spec fn is_shared(&self) -> bool {
        match self.cache_options {
            Some(o) => o.shared,
            None => true,
        }
    }

    /// Derives the key of `request`.
    pub fn create_cache_key(&self, request: &RequestParts) -> (key: String)
        requires
            self.cache_key is Some ==> self.cache_key->0.requires((request,)),
        ensures
            self.is_key_of(request, key),
    {
        match &self.cache_key {
            Some(f) => f(request),
            None => default_cache_key(request),
        }
    }

    /// Whether the cache counts as shared.
    pub fn shared(&self) -> (r: bool)
        ensures
            r == self.is_shared(),
    {
        match &self.cache_options {
            Some(o) => o.shared,
            None => true,
        }
    }
}

} // verus!
