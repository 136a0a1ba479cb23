//! Freshness policies: what is remembered about a response at the moment
//! it is stored, and what follows from it at any later instant.
//!
//! Whether a response may be stored, and for how long it stays fresh, is
//! settled by the `http-cache-semantics` crate when the response arrives.
//! Everything that depends on the passing of time is computed here from
//! that snapshot and the current time.

use vstd::prelude::*;
use http::{Request, Response};
use http_cache_semantics::CachePolicy;
use std::time::{Duration, UNIX_EPOCH};
use crate::message::{
    copy_bytes, copy_headers, get_header, header_value, set_header, with_header, HeaderSeq,
    HttpResponse, RequestParts, RequestView, ResponseView,
};

verus! {

/// Last second of the year 9999. Later instants are not assessed.
pub const MAX_TIMESTAMP: u64 = 253_402_300_799;

/// A write-time snapshot of the freshness inputs of a stored response.
#[derive(Debug, PartialEq, Eq)]
pub struct FreshnessPolicy {
    /// When the response arrived, in seconds since the epoch.
    pub received: u64,
    /// How old the response already was on arrival, in seconds.
    pub initial_age: u64,
    /// For how many seconds after arrival the response stays fresh.
    pub lifetime: u64,
    /// Entity tag of the response, if it carried one.
    pub etag: Option<String>,
    /// Modification date of the response, if it carried one.
    pub last_modified: Option<String>,
    /// Whether the response was assessed for a shared cache.
    pub shared: bool,
}

pub struct PolicyView {
    pub received: u64,
    pub initial_age: u64,
    pub lifetime: u64,
    pub etag: Option<Seq<char>>,
    pub last_modified: Option<Seq<char>>,
    pub shared: bool,
}

/// The model of an optional string.
pub open spec fn text_view(s: Option<String>) -> Option<Seq<char>> {
    match s {
        Some(t) => Some(t@),
        None => None,
    }
}

impl View for FreshnessPolicy {
    type V = PolicyView;

    open spec fn view(&self) -> PolicyView {
        PolicyView {
            received: self.received,
            initial_age: self.initial_age,
            lifetime: self.lifetime,
            etag: text_view(self.etag),
            last_modified: text_view(self.last_modified),
            shared: self.shared,
        }
    }
}

/// The judgement on a stored response at one instant.
#[derive(Clone, Copy, Debug, PartialEq, Eq, Structural)]
pub enum Freshness {
    /// May be served without contacting the origin.
    Fresh,
    /// Must not be served as it is; `revalidatable` tells whether the
    /// origin can be asked to confirm it.
    Stale { revalidatable: bool },
}

impl PolicyView {
    /// Seconds between arrival and `now`; zero for a `now` before arrival.
    pub open spec fn elapsed(self, now: u64) -> int {
        if now >= self.received {
            now - self.received
        } else {
            0
        }
    }

    /// Age of the response at `now`, capped at `u64::MAX`.
    pub open spec fn age(self, now: u64) -> int {
        if self.initial_age + self.elapsed(now) <= u64::MAX {
            self.initial_age + self.elapsed(now)
        } else {
            u64::MAX as int
        }
    }

    /// Seconds of freshness left at `now`.
    pub open spec fn time_to_live(self, now: u64) -> int {
        if self.elapsed(now) < self.lifetime {
            self.lifetime - self.elapsed(now)
        } else {
            0
        }
    }

    pub open spec fn is_stale(self, now: u64) -> bool {
        self.elapsed(now) >= self.lifetime
    }

    /// Whether the origin can confirm the response: it can when the
    /// response carried an entity tag or a modification date.
    pub open spec fn revalidatable(self) -> bool {
        self.etag is Some || self.last_modified is Some
    }

    pub open spec fn evaluate(self, now: u64) -> Freshness {
        if self.is_stale(now) {
            Freshness::Stale { revalidatable: self.revalidatable() }
        } else {
            Freshness::Fresh
        }
    }
}

/// An independent copy of an optional string.
pub fn copy_text(s: &Option<String>) -> (r: Option<String>)
    ensures
        text_view(r) == text_view(*s),
{
    match s {
        Some(t) => Some(t.clone()),
        None => None,
    }
}

impl Clone for FreshnessPolicy {
    fn clone(&self) -> (r: Self)
        ensures
            r@ == self@,
    {
        FreshnessPolicy {
            received: self.received,
            initial_age: self.initial_age,
            lifetime: self.lifetime,
            etag: copy_text(&self.etag),
            last_modified: copy_text(&self.last_modified),
            shared: self.shared,
        }
    }
}

impl FreshnessPolicy {
    /// Age of the response at `now`.
    pub fn age(&self, now: u64) -> (r: u64)
        ensures
            r == self@.age(now),
    {
        let elapsed: u64 = if now >= self.received { now - self.received } else { 0 };
        self.initial_age.saturating_add(elapsed)
    }

    /// Seconds of freshness left at `now`.
    pub fn time_to_live(&self, now: u64) -> (r: u64)
        ensures
            r == self@.time_to_live(now),
    {
        let elapsed: u64 = if now >= self.received { now - self.received } else { 0 };
        if elapsed < self.lifetime { self.lifetime - elapsed } else { 0 }
    }

    /// Whether the response has outlived its freshness lifetime at `now`.
    pub fn is_stale(&self, now: u64) -> (r: bool)
        ensures
            r == self@.is_stale(now),
            r == (self@.time_to_live(now) == 0),
    {
        let elapsed: u64 = if now >= self.received { now - self.received } else { 0 };
        elapsed >= self.lifetime
    }

    /// Whether the origin can be asked to confirm the response.
    pub fn is_revalidatable(&self) -> (r: bool)
        ensures
            r == self@.revalidatable(),
    {
        self.etag.is_some() || self.last_modified.is_some()
    }

    /// Judges the response at `now`. The judgement is recomputed on every
    /// call; it depends on the snapshot and on `now` alone.
    pub fn evaluate(&self, now: u64) -> (r: Freshness)
        ensures
            r == self@.evaluate(now),
    {
        if self.is_stale(now) {
            Freshness::Stale { revalidatable: self.is_revalidatable() }
        } else {
            Freshness::Fresh
        }
    }
}

/// A response stays fresh exactly until its lifetime has elapsed, and its
/// time to live is positive exactly while it is fresh.
pub proof fn lemma_fresh_within_lifetime(p: PolicyView, now: u64)
    ensures
        p.elapsed(now) < p.lifetime <==> p.evaluate(now) == Freshness::Fresh,
        p.evaluate(now) == Freshness::Fresh <==> p.time_to_live(now) > 0,
        p.time_to_live(now) + p.elapsed(now) >= p.lifetime,
{
}

/// Once stale, a response stays stale.
pub proof fn lemma_staleness_is_monotone(p: PolicyView, earlier: u64, later: u64)
    requires
        earlier <= later,
        p.is_stale(earlier),
    ensures
        p.is_stale(later),
        p.age(earlier) <= p.age(later),
{
}

/// The statuses that `http-cache-semantics` understands. A response with
/// any other status is never stored.
pub open spec fn is_understood_status(status: u16) -> bool {
    ||| status == 200
    ||| status == 203
    ||| status == 204
    ||| status == 300
    ||| status == 301
    ||| status == 302
    ||| status == 303
    ||| status == 307
    ||| status == 308
    ||| status == 404
    ||| status == 405
    ||| status == 410
    ||| status == 414
    ||| status == 501
}

/// The methods whose responses `http-cache-semantics` lets a cache store.
pub open spec fn is_cacheable_method(method: Seq<char>) -> bool {
    method == "GET"@ || method == "HEAD"@ || method == "POST"@
}

/// What `http-cache-semantics` finds for a response with the given status
/// and headers, received at `received` in answer to the given request, by
/// a cache that is shared or not: whether the response may be stored, its
/// age in seconds on arrival, and the seconds of freshness it has left on
/// arrival. `None` where `http` rejects the method, the URI, the status or
/// a header of either message.
pub uninterp spec fn semantics_assessment(
    method: Seq<char>,
    uri: Seq<char>,
    request_headers: HeaderSeq,
    status: u16,
    response_headers: HeaderSeq,
    received: u64,
    shared: bool,
) -> Option<(bool, u64, u64)>;

/// Builds the request and the response with `http`'s builders, hands them
/// to `CachePolicy::new_options` of `http-cache-semantics` with
/// `received` as the response time and the crate's default options but
/// for `shared`, and reads the policy's `is_storable`, `age` and
/// `time_to_live` at that same instant.
///
/// Not proved: that the outcome is the function of the arguments that
/// `semantics_assessment` names; that the crate calls a response storable
/// only if it understands the status and the method is `GET`, `HEAD` or
/// `POST`; and that it gives a response that is not storable no freshness
/// at all. The builders report what they reject as an error, which comes
/// back as `None`. Adding `received` seconds to the epoch cannot overflow
/// below `MAX_TIMESTAMP`, and at the instant of arrival no time has been
/// added to the age.
#[verifier::external_body]
fn assess_with_semantics(
    request: &RequestParts,
    status: u16,
    headers: &Vec<(String, String)>,
    received: u64,
    shared: bool,
) -> (r: Option<(bool, u64, u64)>)
    requires
        received <= MAX_TIMESTAMP,
    ensures
        r == semantics_assessment(
            request@.method,
            request@.uri,
            request@.headers,
            status,
            headers.deep_view(),
            received,
            shared,
        ),
        match r {
            Some(found) => if found.0 {
                is_understood_status(status) && is_cacheable_method(request@.method)
            } else {
                found.2 == 0
            },
            None => true,
        },
{
    let mut req = Request::builder().method(request.method.as_str()).uri(&request.uri);
    for (k, v) in &request.headers { req = req.header(k, v); }
    let mut res = Response::builder().status(status);
    for (k, v) in headers { res = res.header(k, v); }
    let at = UNIX_EPOCH + Duration::from_secs(received);
    let opts = http_cache_semantics::CacheOptions { shared, ..Default::default() };
    let p = CachePolicy::new_options(&req.body(()).ok()?, &res.body(()).ok()?, at, opts);
    Some((p.is_storable(), p.age(at).as_secs(), p.time_to_live(at).as_secs()))
}

/// The snapshot taken of a response with the given headers: the assessed
/// figures, and the validators among the headers.
pub open spec fn snapshot(
    headers: HeaderSeq,
    received: u64,
    shared: bool,
    initial_age: u64,
    lifetime: u64,
) -> PolicyView {
    PolicyView {
        received,
        initial_age,
        lifetime,
        etag: header_value(headers, "etag"@),
        last_modified: header_value(headers, "last-modified"@),
        shared,
    }
}

/// Takes the snapshot of a response.
pub fn take_snapshot(
    headers: &Vec<(String, String)>,
    received: u64,
    shared: bool,
    initial_age: u64,
    lifetime: u64,
) -> (r: FreshnessPolicy)
    ensures
        r@ == snapshot(headers.deep_view(), received, shared, initial_age, lifetime),
{
    let etag_name: String = String::from_str("etag");
    let modified_name: String = String::from_str("last-modified");
    let etag: Option<String> = match get_header(headers, &etag_name) {
        Some(v) => Some(v.clone()),
        None => None,
    };
    let last_modified: Option<String> = match get_header(headers, &modified_name) {
        Some(v) => Some(v.clone()),
        None => None,
    };
    FreshnessPolicy { received, initial_age, lifetime, etag, last_modified, shared }
}

/// The model of an optional policy.
pub open spec fn policy_view(p: Option<FreshnessPolicy>) -> Option<PolicyView> {
    match p {
        Some(q) => Some(q@),
        None => None,
    }
}

/// The policy that an assessment yields: none where the assessment failed
/// or forbids storing, else the snapshot with the assessed figures.
pub open spec fn assessed_policy(
    headers: HeaderSeq,
    received: u64,
    shared: bool,
    assessment: Option<(bool, u64, u64)>,
) -> Option<PolicyView> {
    match assessment {
        Some((storable, initial_age, lifetime)) => if storable {
            Some(snapshot(headers, received, shared, initial_age, lifetime))
        } else {
            None
        },
        None => None,
    }
}

/// Turns an assessment of `response` into its policy.
pub fn policy_from_assessment(
    response: &HttpResponse,
    received: u64,
    shared: bool,
    assessment: Option<(bool, u64, u64)>,
) -> (r: Option<FreshnessPolicy>)
    ensures
        policy_view(r) == assessed_policy(response@.headers, received, shared, assessment),
{
    match assessment {
        Some((storable, initial_age, lifetime)) => {
            if storable {
                Some(take_snapshot(&response.headers, received, shared, initial_age, lifetime))
            } else {
                None
            }
        },
        None => None,
    }
}

/// The assessment of a response at an instant that can be assessed.
pub open spec fn assessment_of(
    request: RequestView,
    status: u16,
    headers: HeaderSeq,
    received: u64,
    shared: bool,
) -> Option<(bool, u64, u64)> {
    if received <= MAX_TIMESTAMP {
        semantics_assessment(
            request.method,
            request.uri,
            request.headers,
            status,
            headers,
            received,
            shared,
        )
    } else {
        None
    }
}

/// Whether `response`, received at `received` in answer to `request`, may
/// be stored, and with which policy.
pub open spec fn storability(
    request: RequestView,
    response: ResponseView,
    received: u64,
    shared: bool,
) -> Option<PolicyView> {
    assessed_policy(
        response.headers,
        received,
        shared,
        assessment_of(request, response.status, response.headers, received, shared),
    )
}

/// Assesses a response at an instant; an instant past `MAX_TIMESTAMP` is
/// not assessed.
pub fn assess(
    request: &RequestParts,
    status: u16,
    headers: &Vec<(String, String)>,
    received: u64,
    shared: bool,
) -> (r: Option<(bool, u64, u64)>)
    ensures
        r == assessment_of(request@, status, headers.deep_view(), received, shared),
        match r {
            Some(found) => if found.0 {
                is_understood_status(status) && is_cacheable_method(request@.method)
            } else {
                found.2 == 0
            },
            None => true,
        },
{
    if received <= MAX_TIMESTAMP {
        assess_with_semantics(request, status, headers, received, shared)
    } else {
        None
    }
}

/// Decides at write time whether `response` may be stored. A response
/// that may not, or whose headers cannot be made sense of, has no policy;
/// this never fails otherwise.
pub fn assess_storability(
    request: &RequestParts,
    response: &HttpResponse,
    received: u64,
    shared: bool,
) -> (r: Option<FreshnessPolicy>)
    ensures
        policy_view(r) == storability(request@, response@, received, shared),
        r is Some ==> is_understood_status(response.status) && is_cacheable_method(request@.method),
        r is Some ==> r->0.received == received && r->0.shared == shared,
        received > MAX_TIMESTAMP ==> r is None,
{
    let assessment = assess(request, response.status, &response.headers, received, shared);
    policy_from_assessment(response, received, shared, assessment)
}

/// The headers of a conditional request: the base headers, with the
/// stored entity tag as `if-none-match` and the stored modification date
/// as `if-modified-since`, each where the policy has one.
pub open spec fn conditional_headers(base: HeaderSeq, policy: PolicyView) -> HeaderSeq {
    let tagged = match policy.etag {
        Some(tag) => with_header(base, "if-none-match"@, tag),
        None => base,
    };
    match policy.last_modified {
        Some(date) => with_header(tagged, "if-modified-since"@, date),
        None => tagged,
    }
}

/// Builds the request that asks the origin to confirm a stored response.
pub fn build_conditional_request(base: &RequestParts, policy: &FreshnessPolicy) -> (r: RequestParts)
    ensures
        r@.method == base@.method,
        r@.uri == base@.uri,
        r@.version == base@.version,
        r@.headers == conditional_headers(base@.headers, policy@),
{
    let mut headers: Vec<(String, String)> = copy_headers(&base.headers);
    match &policy.etag {
        Some(tag) => {
            let name: String = String::from_str("if-none-match");
            set_header(&mut headers, &name, tag);
        },
        None => {},
    }
    match &policy.last_modified {
        Some(date) => {
            let name: String = String::from_str("if-modified-since");
            set_header(&mut headers, &name, date);
        },
        None => {},
    }
    RequestParts {
        method: base.method.clone(),
        uri: base.uri.clone(),
        version: base.version,
        headers,
    }
}

/// Stored headers after a revalidation: each keeps its place and name, and
/// takes the value that the confirming response gives that name, if any.
pub open spec fn merged_headers(stored: HeaderSeq, fresh: HeaderSeq) -> HeaderSeq {
    Seq::new(
        stored.len(),
        |i: int|
            (
                stored[i].0,
                match header_value(fresh, stored[i].0) {
                    Some(v) => v,
                    None => stored[i].1,
                },
            ),
    )
}

/// Merges the headers of a confirming response into the stored ones.
pub fn merge_headers(stored: &Vec<(String, String)>, fresh: &Vec<(String, String)>) -> (r: Vec<
    (String, String),
>)
    ensures
        r.deep_view() == merged_headers(stored.deep_view(), fresh.deep_view()),
{
    let ghost want = merged_headers(stored.deep_view(), fresh.deep_view());
    let mut out: Vec<(String, String)> = Vec::new();
    let mut i: usize = 0;
    while i < stored.len()
        invariant
            0 <= i <= stored.len(),
            out.len() == i,
            want == merged_headers(stored.deep_view(), fresh.deep_view()),
            forall|j: int| 0 <= j < i ==> (#[trigger] out@[j]).deep_view() == want[j],
        decreases stored.len() - i,
    {
        proof {
            assert(stored.deep_view()[i as int] == stored@[i as int].deep_view());
        }
        let value: String = match get_header(fresh, &stored[i].0) {
            Some(v) => v.clone(),
            None => stored[i].1.clone(),
        };
        out.push((stored[i].0.clone(), value));
        i += 1;
    }
    assert(out.deep_view() =~= want);
    out
}

/// The stored response after a revalidation: body, status, URL and
/// version stay; the headers are merged.
pub open spec fn merged_response(stored: ResponseView, not_modified: ResponseView) -> ResponseView {
    ResponseView {
        body: stored.body,
        headers: merged_headers(stored.headers, not_modified.headers),
        status: stored.status,
        url: stored.url,
        version: stored.version,
    }
}

/// Merges a confirming response into the stored one.
pub fn merge_response(stored: &HttpResponse, not_modified: &HttpResponse) -> (r: HttpResponse)
    ensures
        r@ == merged_response(stored@, not_modified@),
{
    HttpResponse {
        body: copy_bytes(&stored.body),
        headers: merge_headers(&stored.headers, &not_modified.headers),
        status: stored.status,
        url: stored.url.clone(),
        version: stored.version,
    }
}

/// The policy of a confirmed response: the snapshot of the merged headers
/// at the instant of confirmation. Where the merged response cannot be
/// assessed it is stale from the start.
pub open spec fn confirmed_policy(
    headers: HeaderSeq,
    now: u64,
    shared: bool,
    assessment: Option<(bool, u64, u64)>,
) -> PolicyView {
    match assessment {
        Some((_, initial_age, lifetime)) => snapshot(headers, now, shared, initial_age, lifetime),
        None => snapshot(headers, now, shared, 0, 0),
    }
}

/// Turns an assessment of a merged response into its policy.
pub fn policy_after_revalidation(
    merged: &HttpResponse,
    now: u64,
    shared: bool,
    assessment: Option<(bool, u64, u64)>,
) -> (r: FreshnessPolicy)
    ensures
        r@ == confirmed_policy(merged@.headers, now, shared, assessment),
        r@.received == now,
{
    match assessment {
        Some((_, initial_age, lifetime)) => take_snapshot(
            &merged.headers,
            now,
            shared,
            initial_age,
            lifetime,
        ),
        None => take_snapshot(&merged.headers, now, shared, 0, 0),
    }
}

/// The stored entry after the origin confirmed it at `now`.
pub open spec fn revalidated(
    request: RequestView,
    stored: ResponseView,
    policy: PolicyView,
    not_modified: ResponseView,
    now: u64,
) -> (ResponseView, PolicyView) {
    let merged = merged_response(stored, not_modified);
    (
        merged,
        confirmed_policy(
            merged.headers,
            now,
            policy.shared,
            assessment_of(request, merged.status, merged.headers, now, policy.shared),
        ),
    )
}

/// Merges a `304 Not Modified` response into a stored entry and restarts
/// its freshness clock at `now`.
pub fn merge_revalidation(
    request: &RequestParts,
    stored: &HttpResponse,
    policy: &FreshnessPolicy,
    not_modified: &HttpResponse,
    now: u64,
) -> (r: (HttpResponse, FreshnessPolicy))
    ensures
        (r.0@, r.1@) == revalidated(request@, stored@, policy@, not_modified@, now),
        r.0@.body == stored@.body,
        r.0@.status == stored@.status,
        r.1@.received == now,
{
    let merged = merge_response(stored, not_modified);
    let assessment = assess(request, merged.status, &merged.headers, now, policy.shared);
    let renewed = policy_after_revalidation(&merged, now, policy.shared, assessment);
    (merged, renewed)
}

} // verus!
