//! The decision protocol that a cache follows for each request.
//!
//! Talking to the origin is left to the caller. `begin` looks the request
//! up and says what to do; where that involves the origin, the caller
//! sends the request and hands the response to `complete_forward` or
//! `complete_revalidation`, which update the store and say what to return.

use vstd::prelude::*;
use crate::entry::CacheMap;
use crate::key::HttpCacheOptions;
use crate::manager::{CacheManager, StorageError};
use crate::message::{HttpResponse, RequestParts, RequestView, ResponseView};
use crate::policy::{
    assess_storability, build_conditional_request, conditional_headers, merge_revalidation,
    revalidated, storability, Freshness, FreshnessPolicy, PolicyView,
};

verus! {

/// How the cache treats a request.
#[derive(Clone, Copy, Debug, PartialEq, Eq, Structural)]
pub enum CacheMode {
    /// Serve what is fresh, revalidate or refetch what is stale.
    Default,
    /// Leave the store alone: neither read nor write it.
    NoStore,
    /// Always ask the origin, and store what it answers.
    NoCache,
    /// Serve what is stored, however old; fetch only what is missing.
    ForceCache,
    /// Serve what is stored, however old; never ask the origin.
    OnlyIfCached,
}

/// What to do about a request.
#[derive(Debug)]
pub enum Step {
    /// Return this response. The origin is not contacted.
    Serve(HttpResponse),
    /// Send the request as it is and return the answer. The store plays
    /// no part.
    Bypass,
    /// Send the request as it is and hand the answer to
    /// `complete_forward` together with this key.
    Forward { key: String },
    /// Send `request`, which asks the origin to confirm the stored
    /// response, and hand the answer to `complete_revalidation`.
    Revalidate { key: String, request: RequestParts, stored: HttpResponse, policy: FreshnessPolicy },
    /// Nothing is stored and the mode forbids asking the origin.
    Unavailable,
}

pub enum StepView {
    Serve(ResponseView),
    Bypass,
    Forward { key: Seq<char> },
    Revalidate { key: Seq<char>, request: RequestView, stored: ResponseView, policy: PolicyView },
    Unavailable,
}

impl View for Step {
    type V = StepView;

    open spec fn view(&self) -> StepView {
        match self {
            Step::Serve(r) => StepView::Serve(r@),
            Step::Bypass => StepView::Bypass,
            Step::Forward { key } => StepView::Forward { key: key@ },
            Step::Revalidate { key, request, stored, policy } => StepView::Revalidate {
                key: key@,
                request: request@,
                stored: stored@,
                policy: policy@,
            },
            Step::Unavailable => StepView::Unavailable,
        }
    }
}

/// The request that asks the origin to confirm a response stored with
/// `policy`.
pub open spec fn conditional_request(base: RequestView, policy: PolicyView) -> RequestView {
    RequestView {
        method: base.method,
        uri: base.uri,
        version: base.version,
        headers: conditional_headers(base.headers, policy),
    }
}

/// The step for a request whose key is `key`, given what the store holds
/// under that key.
pub open spec fn decision(
    mode: CacheMode,
    key: Seq<char>,
    found: Option<(ResponseView, PolicyView)>,
    request: RequestView,
    now: u64,
) -> StepView {
    match mode {
        CacheMode::NoStore => StepView::Bypass,
        CacheMode::NoCache => StepView::Forward { key },
        CacheMode::ForceCache => match found {
            Some(pair) => StepView::Serve(pair.0),
            None => StepView::Forward { key },
        },
        CacheMode::OnlyIfCached => match found {
            Some(pair) => StepView::Serve(pair.0),
            None => StepView::Unavailable,
        },
        CacheMode::Default => match found {
            Some(pair) => match pair.1.evaluate(now) {
                Freshness::Fresh => StepView::Serve(pair.0),
                Freshness::Stale { revalidatable } => if revalidatable {
                    StepView::Revalidate {
                        key,
                        request: conditional_request(request, pair.1),
                        stored: pair.0,
                        policy: pair.1,
                    }
                } else {
                    StepView::Forward { key }
                },
            },
            None => StepView::Forward { key },
        },
    }
}

/// The model of a lookup result.
pub open spec fn found_view(found: Option<(HttpResponse, FreshnessPolicy)>) -> Option<
    (ResponseView, PolicyView),
> {
    match found {
        Some(pair) => Some((pair.0@, pair.1@)),
        None => None,
    }
}

/// What a store holds under a key.
pub open spec fn lookup(contents: CacheMap, key: Seq<char>) -> Option<(ResponseView, PolicyView)> {
    if contents.contains_key(key) {
        Some(contents[key])
    } else {
        None
    }
}

/// Decides the step for a request from the outcome of the lookup.
pub fn decide(
    mode: CacheMode,
    key: String,
    found: Option<(HttpResponse, FreshnessPolicy)>,
    request: &RequestParts,
    now: u64,
) -> (step: Step)
    ensures
        step@ == decision(mode, key@, found_view(found), request@, now),
{
    match mode {
        CacheMode::NoStore => Step::Bypass,
        CacheMode::NoCache => Step::Forward { key },
        CacheMode::ForceCache => match found {
            Some(pair) => Step::Serve(pair.0),
            None => Step::Forward { key },
        },
        CacheMode::OnlyIfCached => match found {
            Some(pair) => Step::Serve(pair.0),
            None => Step::Unavailable,
        },
        CacheMode::Default => match found {
            Some(pair) => {
                let (stored, policy) = pair;
                match policy.evaluate(now) {
                    Freshness::Fresh => Step::Serve(stored),
                    Freshness::Stale { revalidatable } => {
                        if revalidatable {
                            let conditional = build_conditional_request(request, &policy);
                            Step::Revalidate { key, request: conditional, stored, policy }
                        } else {
                            Step::Forward { key }
                        }
                    },
                }
            },
            None => Step::Forward { key },
        },
    }
}

/// A failed lookup counts as a miss.
pub fn lookup_or_miss(
    outcome: Result<Option<(HttpResponse, FreshnessPolicy)>, StorageError>,
) -> (found: Option<(HttpResponse, FreshnessPolicy)>)
    ensures
        found == match outcome {
            Ok(o) => o,
            Err(_) => None,
        },
{
    match outcome {
        Ok(o) => o,
        Err(_) => None,
    }
}

/// A cache: a mode, a store and the configuration.
pub struct HttpCache<M: CacheManager, F: Fn(&RequestParts) -> String> {
    pub mode: CacheMode,
    pub manager: M,
    pub options: HttpCacheOptions<F>,
}

/// The store after an answer from the origin has been dealt with: the
/// answer is stored under the key if it may be stored, else nothing
/// changes.
pub open spec fn after_answer(
    before: CacheMap,
    key: Seq<char>,
    request: RequestView,
    answer: ResponseView,
    now: u64,
    shared: bool,
) -> CacheMap {
    match storability(request, answer, now, shared) {
        Some(policy) => before.insert(key, (answer, policy)),
        None => before,
    }
}

/// The response returned after the origin has answered a conditional
/// request: the merged response where the origin confirmed the stored
/// one, the answer itself otherwise.
pub open spec fn revalidation_response(
    request: RequestView,
    stored: ResponseView,
    policy: PolicyView,
    answer: ResponseView,
    now: u64,
) -> ResponseView {
    if answer.status == 304 {
        revalidated(request, stored, policy, answer, now).0
    } else {
        answer
    }
}

/// The store after the answer to a conditional request has been dealt
/// with: it holds the merged entry where the origin confirmed the stored
/// response, and is otherwise as after any other answer.
pub open spec fn revalidation_writes(
    before: CacheMap,
    key: Seq<char>,
    request: RequestView,
    stored: ResponseView,
    policy: PolicyView,
    answer: ResponseView,
    now: u64,
    shared: bool,
) -> CacheMap {
    if answer.status == 304 {
        before.insert(key, revalidated(request, stored, policy, answer, now))
    } else {
        after_answer(before, key, request, answer, now, shared)
    }
}

impl<M: CacheManager, F: Fn(&RequestParts) -> String> HttpCache<M, F> {
    /// Decides the step for `request` under the key `key`.
    ///
    /// The store is read at most once and never written. In mode
    /// `NoStore` it is not read at all. If the lookup fails, the step is
    /// that of a miss.
    pub fn begin_with_key(&self, key: String, request: &RequestParts, now: u64) -> (step: Step)
        requires
            self.manager.wf(),
        ensures
            step@ == decision(self.mode, key@, lookup(self.manager.contents(), key@), request@, now)
                || step@ == decision(self.mode, key@, None, request@, now),
            self.manager.reliable() ==> step@ == decision(
                self.mode,
                key@,
                lookup(self.manager.contents(), key@),
                request@,
                now,
            ),
    {
        match self.mode {
            CacheMode::NoStore => Step::Bypass,
            CacheMode::NoCache => Step::Forward { key },
            _ => {
                let found = lookup_or_miss(self.manager.get(&key));
                decide(self.mode, key, found, request, now)
            },
        }
    }

    /// Decides the step for `request`: derives its key and looks it up.
    pub fn begin(&self, request: &RequestParts, now: u64) -> (step: Step)
        requires
            self.manager.wf(),
            self.options.cache_key is Some ==> self.options.cache_key->0.requires((request,)),
        ensures
            exists|key: String|
                #![trigger self.options.is_key_of(request, key)]
                {
                    &&& self.options.is_key_of(request, key)
                    &&& (step@ == decision(
                        self.mode,
                        key@,
                        lookup(self.manager.contents(), key@),
                        request@,
                        now,
                    ) || step@ == decision(self.mode, key@, None, request@, now))
                    &&& self.manager.reliable() ==> step@ == decision(
                        self.mode,
                        key@,
                        lookup(self.manager.contents(), key@),
                        request@,
                        now,
                    )
                },
    {
        let key = self.options.create_cache_key(request);
        let ghost k = key;
        let step = self.begin_with_key(key, request, now);
        assert(self.options.is_key_of(request, k));
        step
    }

    /// Deals with the origin's answer to a forwarded request: stores it
    /// under `key` if it may be stored, and returns it unchanged. A failed
    /// write leaves the store as it was.
    pub fn complete_forward(
        &mut self,
        request: &RequestParts,
        key: String,
        answer: HttpResponse,
        now: u64,
    ) -> (r: HttpResponse)
        requires
            old(self).manager.wf(),
        ensures
            r@ == answer@,
            final(self).manager.wf(),
            final(self).mode == old(self).mode,
            final(self).options == old(self).options,
            final(self).manager.reliable() == old(self).manager.reliable(),
            final(self).manager.contents() == after_answer(
                old(self).manager.contents(),
                key@,
                request@,
                answer@,
                now,
                old(self).options.is_shared(),
            ) || final(self).manager.contents() == old(self).manager.contents(),
            old(self).manager.reliable() ==> final(self).manager.contents() == after_answer(
                old(self).manager.contents(),
                key@,
                request@,
                answer@,
                now,
                old(self).options.is_shared(),
            ),
    {
        match assess_storability(request, &answer, now, self.options.shared()) {
            Some(policy) => {
                let _ = self.manager.put(key, answer.clone(), policy);
            },
            None => {},
        }
        answer
    }

    /// Deals with the origin's answer to a conditional request. A
    /// `304 Not Modified` confirms the stored response: the answer's
    /// headers are merged into it, the merged entry is stored and
    /// returned. Any other answer replaces the stored response as in
    /// `complete_forward`.
    pub fn complete_revalidation(
        &mut self,
        request: &RequestParts,
        key: String,
        stored: HttpResponse,
        policy: FreshnessPolicy,
        answer: HttpResponse,
        now: u64,
    ) -> (r: HttpResponse)
        requires
            old(self).manager.wf(),
        ensures
            final(self).manager.wf(),
            final(self).mode == old(self).mode,
            final(self).options == old(self).options,
            final(self).manager.reliable() == old(self).manager.reliable(),
            r@ == revalidation_response(request@, stored@, policy@, answer@, now),
            final(self).manager.contents() == revalidation_writes(
                old(self).manager.contents(),
                key@,
                request@,
                stored@,
                policy@,
                answer@,
                now,
                old(self).options.is_shared(),
            ) || final(self).manager.contents() == old(self).manager.contents(),
            old(self).manager.reliable() ==> final(self).manager.contents() == revalidation_writes(
                old(self).manager.contents(),
                key@,
                request@,
                stored@,
                policy@,
                answer@,
                now,
                old(self).options.is_shared(),
            ),
    {
        if answer.status == 304 {
            let (merged, renewed) = merge_revalidation(request, &stored, &policy, &answer, now);
            let _ = self.manager.put(key, merged.clone(), renewed);
            merged
        } else {
            self.complete_forward(request, key, answer, now)
        }
    }

    /// Removes the entry of `request` from the store.
    pub fn delete(&mut self, request: &RequestParts) -> (r: Result<(), StorageError>)
        requires
            old(self).manager.wf(),
            old(self).options.cache_key is Some ==> old(self).options.cache_key->0.requires(
                (request,),
            ),
        ensures
            final(self).manager.wf(),
            final(self).mode == old(self).mode,
            final(self).options == old(self).options,
            old(self).manager.reliable() ==> r is Ok,
            r is Err ==> final(self).manager.contents() == old(self).manager.contents(),
            r is Ok ==> exists|key: String|
                #![trigger old(self).options.is_key_of(request, key)]
                old(self).options.is_key_of(request, key) && final(self).manager.contents() == old(
                    self,
                ).manager.contents().remove(key@),
    {
        let key = self.options.create_cache_key(request);
        let r = self.manager.delete(&key);
        assert(self.options.is_key_of(request, key));
        r
    }
}

/// In mode `NoCache` every request goes to the origin, whatever the store
/// holds: each request costs exactly one origin call.
pub proof fn lemma_no_cache_always_forwards(
    key: Seq<char>,
    found: Option<(ResponseView, PolicyView)>,
    request: RequestView,
    now: u64,
)
    ensures
        decision(CacheMode::NoCache, key, found, request, now) == (StepView::Forward { key }),
{
}

/// An answer that may be stored is in the store once it has been dealt
/// with, under the key of its request.
pub proof fn lemma_answer_is_stored(
    before: CacheMap,
    key: Seq<char>,
    request: RequestView,
    answer: ResponseView,
    now: u64,
    shared: bool,
)
    requires
        storability(request, answer, now, shared) is Some,
    ensures
        lookup(after_answer(before, key, request, answer, now, shared), key) == Some(
            (answer, storability(request, answer, now, shared)->0),
        ),
{
}

/// In mode `Default` a miss goes to the origin, and so does a stale entry
/// that the origin cannot confirm.
pub proof fn lemma_miss_is_forwarded(
    key: Seq<char>,
    response: ResponseView,
    policy: PolicyView,
    request: RequestView,
    now: u64,
)
    ensures
        decision(CacheMode::Default, key, None, request, now) == (StepView::Forward { key }),
        policy.is_stale(now) && !policy.revalidatable() ==> decision(
            CacheMode::Default,
            key,
            Some((response, policy)),
            request,
            now,
        ) == (StepView::Forward { key }),
{
}

/// In mode `Default` a stored response within its freshness lifetime is
/// served as it is, without an origin call.
pub proof fn lemma_fresh_hit_is_served(
    key: Seq<char>,
    response: ResponseView,
    policy: PolicyView,
    request: RequestView,
    now: u64,
)
    requires
        policy.elapsed(now) < policy.lifetime,
    ensures
        decision(CacheMode::Default, key, Some((response, policy)), request, now) == StepView::Serve(
            response,
        ),
{
}

/// In mode `Default`, once a storable answer has been dealt with, a
/// request under the same key within the answer's freshness lifetime is
/// served that answer.
pub proof fn lemma_stored_answer_is_served(
    before: CacheMap,
    key: Seq<char>,
    request: RequestView,
    answer: ResponseView,
    stored_at: u64,
    now: u64,
    shared: bool,
)
    requires
        storability(request, answer, stored_at, shared) is Some,
        storability(request, answer, stored_at, shared)->0.elapsed(now) < storability(
            request,
            answer,
            stored_at,
            shared,
        )->0.lifetime,
    ensures
        decision(
            CacheMode::Default,
            key,
            lookup(after_answer(before, key, request, answer, stored_at, shared), key),
            request,
            now,
        ) == StepView::Serve(answer),
{
}

/// A key is found only under itself: what is stored under one key does
/// not show under another.
pub proof fn lemma_only_under_its_key(
    key: Seq<char>,
    other: Seq<char>,
    request: RequestView,
    answer: ResponseView,
    now: u64,
    shared: bool,
)
    requires
        other != key,
    ensures
        lookup(after_answer(CacheMap::empty(), key, request, answer, now, shared), other) is None,
{
}

} // verus!
