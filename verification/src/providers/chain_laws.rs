//! What the records of the providers' health say after each call, and what is
//! done next.
use vstd::prelude::*;
use crate::providers::error::{
    auth_words, bad_request_words, billing_words, kind_of_error, kind_of_lower_text,
    kind_of_status, rate_limit_words, server_words, timeout_words, ChatError, ProviderError,
};
use crate::providers::reliable::{
    cleared, cooling, failed, failures_of, follow, law_cooldown_table, recovered, remaining, scan,
    ChainOutcome, ChainPlan, ChainState, ChainStep, Cooldown, Health,
};
use crate::text::{contains, lowercase};

verus! {

/// The records of a provider are the same in `a` and in `b`.
pub open spec fn same_record(a: Health, b: Health, name: Seq<char>) -> bool {
    &&& a.cooldowns.contains_key(name) == b.cooldowns.contains_key(name)
    &&& a.cooldowns.contains_key(name) ==> a.cooldowns[name] == b.cooldowns[name]
    &&& a.failures.contains_key(name) == b.failures.contains_key(name)
    &&& a.failures.contains_key(name) ==> a.failures[name] == b.failures[name]
}

/// There is no record of a provider.
pub open spec fn no_record(h: Health, name: Seq<char>) -> bool {
    !h.cooldowns.contains_key(name) && !h.failures.contains_key(name)
}

/// The cooldown that a record speaks of has begun and is not over.
pub open spec fn runs(c: Cooldown, now: u64) -> bool {
    now < c.since_ms + c.duration_ms && (now >= c.since_ms || c.duration_ms > 0)
}

/// A provider cools down exactly while its recorded cooldown runs; what is left
/// is the time up to its end.
pub proof fn law_cooling_until_the_end(h: Health, name: Seq<char>, now: u64)
    ensures
        cooling(h, name, now) <==> h.cooldowns.contains_key(name) && runs(h.cooldowns[name], now),
        !cooling(h, name, now) ==> remaining(h, name, now) == 0,
        cooling(h, name, now) && now >= h.cooldowns[name].since_ms ==> remaining(h, name, now)
            == h.cooldowns[name].since_ms + h.cooldowns[name].duration_ms - now,
        cooling(h, name, now) && now < h.cooldowns[name].since_ms ==> remaining(h, name, now)
            == h.cooldowns[name].duration_ms,
{
}

/// After a success there is no record of the provider, after a failure one
/// more failure and a cooldown from now on; asking for a provider drops its
/// record exactly if its cooldown is over. The records of the others stay.
pub proof fn law_records(h: Health, name: Seq<char>, now: u64)
    requires
        h.failures.contains_key(name) ==> h.failures[name] < u32::MAX,
    ensures
        no_record(cleared(h, name), name),
        ({
            let after = failed(h, name, now);
            let n: int = if h.failures.contains_key(name) {
                h.failures[name] + 1
            } else {
                1
            };
            &&& after.failures.contains_key(name)
            &&& after.failures[name] == n
            &&& after.cooldowns.contains_key(name)
            &&& after.cooldowns[name].since_ms == now
            &&& n == 1 ==> after.cooldowns[name].duration_ms == 60_000
            &&& n == 2 ==> after.cooldowns[name].duration_ms == 300_000
            &&& n == 3 ==> after.cooldowns[name].duration_ms == 1_500_000
            &&& n >= 4 ==> after.cooldowns[name].duration_ms == 3_600_000
        }),
        h.cooldowns.contains_key(name) && !runs(h.cooldowns[name], now) ==> no_record(
            recovered(h, name, now),
            name,
        ),
        !(h.cooldowns.contains_key(name) && !runs(h.cooldowns[name], now)) ==> recovered(
            h,
            name,
            now,
        ) == h,
        forall|other: Seq<char>|
            #![trigger same_record(h, cleared(h, name), other)]
            other != name ==> same_record(h, cleared(h, name), other),
        forall|other: Seq<char>|
            #![trigger same_record(h, failed(h, name, now), other)]
            other != name ==> same_record(h, failed(h, name, now), other),
        forall|other: Seq<char>|
            #![trigger same_record(h, recovered(h, name, now), other)]
            other != name ==> same_record(h, recovered(h, name, now), other),
{
    law_cooldown_table(failures_of(h, name) + 1);
    law_cooling_until_the_end(h, name, now);
}

/// The search for a provider changes nothing but that it drops the record of
/// the provider it found; that record speaks of no cooldown that runs.
pub proof fn law_search_only_forgets(h: Health, names: Seq<Seq<char>>, i: int, now: u64)
    requires
        0 <= i,
    ensures
        forall|name: Seq<char>|
            #![trigger scan(h, names, i, now).0.cooldowns.contains_key(name)]
            #![trigger h.cooldowns.contains_key(name)]
            #![trigger same_record(h, scan(h, names, i, now).0, name)]
            {
                ||| same_record(h, scan(h, names, i, now).0, name)
                ||| {
                    &&& no_record(scan(h, names, i, now).0, name)
                    &&& h.cooldowns.contains_key(name)
                    &&& !runs(h.cooldowns[name], now)
                    &&& scan(h, names, i, now).1 matches Some(k) && names[k] == name
                }
            },
    decreases names.len() - i,
{
    if i < names.len() {
        law_cooling_until_the_end(h, names[i], now);
        if cooling(h, names[i], now) {
            law_search_only_forgets(h, names, i + 1, now);
        }
    }
}

/// The provider found is the first from `i` on whose recorded cooldown, if any,
/// does not run; there is none exactly if every one of them runs.
pub proof fn law_search_finds_the_first(h: Health, names: Seq<Seq<char>>, i: int, now: u64)
    requires
        0 <= i,
    ensures
        match scan(h, names, i, now).1 {
            Some(k) => {
                &&& i <= k < names.len()
                &&& !(h.cooldowns.contains_key(names[k]) && runs(h.cooldowns[names[k]], now))
                &&& forall|j: int|
                    #![trigger names[j]]
                    i <= j < k ==> h.cooldowns.contains_key(names[j]) && runs(
                        h.cooldowns[names[j]],
                        now,
                    )
            },
            None => forall|j: int|
                #![trigger names[j]]
                i <= j < names.len() ==> h.cooldowns.contains_key(names[j]) && runs(
                    h.cooldowns[names[j]],
                    now,
                ),
        },
    decreases names.len() - i,
{
    if i < names.len() {
        law_cooling_until_the_end(h, names[i], now);
        if cooling(h, names[i], now) {
            law_search_finds_the_first(h, names, i + 1, now);
        }
    }
}

/// After a call that succeeded the request is over, the provider that answered
/// has neither a cooldown nor a failure on record, so that it does not cool
/// down at any time, and the records of all the others are what they were.
pub proof fn law_success_clears_the_provider_alone(
    c: ChainPlan,
    h: Health,
    state: ChainState,
    now: u64,
    later: u64,
)
    ensures
        ({
            let name = c.names[state.provider as int];
            let (after, next) = follow(c, h, state, ChainOutcome::Success, now);
            &&& next is None
            &&& no_record(after, name)
            &&& !cooling(after, name, later)
            &&& failures_of(after, name) == 0
            &&& forall|other: Seq<char>|
                #![trigger after.cooldowns.contains_key(other)]
                #![trigger after.failures.contains_key(other)]
                other != name ==> same_record(h, after, other)
        }),
{
}

/// Only a failed call begins a cooldown or adds to the failures: a record of a
/// cooldown or of failures that was not there before the call is that of the
/// provider called, the call failed, and not for want of authentication or
/// because the request was malformed.
pub proof fn law_only_a_failure_begins_a_cooldown(
    c: ChainPlan,
    h: Health,
    state: ChainState,
    outcome: ChainOutcome,
    now: u64,
    name: Seq<char>,
)
    ensures
        ({
            let after = follow(c, h, state, outcome, now).0;
            ({
                ||| after.cooldowns.contains_key(name) && !(h.cooldowns.contains_key(name)
                    && h.cooldowns[name] == after.cooldowns[name])
                ||| after.failures.contains_key(name) && !(h.failures.contains_key(name)
                    && h.failures[name] == after.failures[name])
            }) ==> {
                &&& name == c.names[state.provider as int]
                &&& outcome matches ChainOutcome::Failure(e) && !(kind_of_error(e) is AuthError)
                    && !(kind_of_error(e) is BadRequest)
            }
        }),
{
    match outcome {
        ChainOutcome::Success => {},
        ChainOutcome::Failure(e) => {
            let called = c.names[state.provider as int];
            law_search_only_forgets(h, c.names, state.provider + 1, now);
            law_search_only_forgets(failed(h, called, now), c.names, state.provider + 1, now);
            assert(same_record(h, h, name));
            let s1 = scan(h, c.names, state.provider + 1, now).0;
            let s2 = scan(failed(h, called, now), c.names, state.provider + 1, now).0;
            assert(s1.cooldowns.contains_key(name) || !s1.cooldowns.contains_key(name));
            assert(s2.cooldowns.contains_key(name) || !s2.cooldowns.contains_key(name));
        },
    }
}

/// A failure that counts leaves the provider called with one failure more on
/// record and a cooldown that begins now: a rate limit or a billing failure at
/// once, a failure of the server, a timeout or an unknown one when the retries
/// are used up.
pub proof fn law_failure_begins_a_cooldown(
    c: ChainPlan,
    h: Health,
    state: ChainState,
    e: ChatError,
    now: u64,
)
    requires
        ({
            let name = c.names[state.provider as int];
            h.failures.contains_key(name) ==> h.failures[name] < u32::MAX
        }),
        ({
            let kind = kind_of_error(e);
            ||| kind is RateLimit
            ||| kind is Billing
            ||| state.attempt == c.max_retries && (kind is ServerError || kind is Timeout
                || kind is Unknown)
        }),
    ensures
        ({
            let name = c.names[state.provider as int];
            let after = follow(c, h, state, ChainOutcome::Failure(e), now).0;
            let n: int = if h.failures.contains_key(name) {
                h.failures[name] + 1
            } else {
                1
            };
            &&& after.failures.contains_key(name)
            &&& after.failures[name] == n
            &&& after.cooldowns.contains_key(name)
            &&& after.cooldowns[name].since_ms == now
            &&& n == 1 ==> after.cooldowns[name].duration_ms == 60_000
            &&& n == 2 ==> after.cooldowns[name].duration_ms == 300_000
            &&& n == 3 ==> after.cooldowns[name].duration_ms == 1_500_000
            &&& n >= 4 ==> after.cooldowns[name].duration_ms == 3_600_000
        }),
{
    let name = c.names[state.provider as int];
    law_records(h, name, now);
    let mid = failed(h, name, now);
    law_search_only_forgets(mid, c.names, state.provider + 1, now);
    assert(mid.cooldowns.contains_key(name));
    assert(runs(mid.cooldowns[name], now));
}

/// A failed authentication or a malformed request, and a failure that may pass
/// while retries are left, leaves the provider called without a new failure or
/// a new cooldown.
pub proof fn law_other_failures_begin_none(
    c: ChainPlan,
    h: Health,
    state: ChainState,
    e: ChatError,
    now: u64,
)
    requires
        ({
            let kind = kind_of_error(e);
            ||| kind is AuthError
            ||| kind is BadRequest
            ||| state.attempt != c.max_retries && (kind is ServerError || kind is Timeout
                || kind is Unknown)
        }),
    ensures
        ({
            let name = c.names[state.provider as int];
            let after = follow(c, h, state, ChainOutcome::Failure(e), now).0;
            same_record(h, after, name) || no_record(after, name)
        }),
        !(kind_of_error(e) is AuthError) && !(kind_of_error(e) is BadRequest) ==> follow(
            c,
            h,
            state,
            ChainOutcome::Failure(e),
            now,
        ).0 == h,
{
    law_search_only_forgets(h, c.names, state.provider + 1, now);
    let name = c.names[state.provider as int];
    assert(same_record(h, scan(h, c.names, state.provider + 1, now).0, name) || no_record(
        scan(h, c.names, state.provider + 1, now).0,
        name,
    ));
}

/// After a failure that may pass the same provider is called again while
/// retries are left: after the present pause, at most half a minute, with one
/// attempt more counted and a pause twice as long to come.
pub proof fn law_passing_failures_are_retried(
    c: ChainPlan,
    h: Health,
    state: ChainState,
    e: ChatError,
    now: u64,
)
    requires
        state.attempt < c.max_retries,
        ({
            let kind = kind_of_error(e);
            kind is ServerError || kind is Timeout || kind is Unknown
        }),
    ensures
        ({
            let next = follow(c, h, state, ChainOutcome::Failure(e), now).1;
            next matches Some(ChainStep::Call { wait_ms, state: s }) && {
                &&& s.provider == state.provider
                &&& s.attempt == state.attempt + 1
                &&& wait_ms <= state.backoff_ms && wait_ms <= 30_000
                &&& wait_ms == state.backoff_ms || wait_ms == 30_000
                &&& s.backoff_ms == 2 * state.backoff_ms || (2 * state.backoff_ms > u64::MAX
                    && s.backoff_ms == u64::MAX)
            }
        }),
{
}

/// After any other failure the first provider behind the one called is tried
/// whose cooldown does not run, at once and for the first time; the request is
/// given up only if there is none.
pub proof fn law_other_failures_move_on(
    c: ChainPlan,
    h: Health,
    state: ChainState,
    e: ChatError,
    now: u64,
)
    requires
        c.names.len() <= usize::MAX,
        h.failures.contains_key(c.names[state.provider as int])
            ==> h.failures[c.names[state.provider as int]] < u32::MAX,
        ({
            let kind = kind_of_error(e);
            ||| kind is RateLimit
            ||| kind is Billing
            ||| kind is AuthError
            ||| kind is BadRequest
            ||| state.attempt == c.max_retries
        }),
    ensures
        ({
            let called = c.names[state.provider as int];
            let idle = |k: int|
                !(h.cooldowns.contains_key(c.names[k]) && runs(h.cooldowns[c.names[k]], now));
            let next = follow(c, h, state, ChainOutcome::Failure(e), now).1;
            match next {
                Some(ChainStep::Call { wait_ms, state: s }) => {
                    &&& wait_ms == 0
                    &&& s.attempt == 0
                    &&& s.backoff_ms == c.initial_backoff_ms
                    &&& state.provider < s.provider < c.names.len()
                    &&& idle(s.provider as int) || c.names[s.provider as int] == called
                    &&& forall|j: int|
                        #![trigger c.names[j]]
                        state.provider < j < s.provider && c.names[j] != called ==> !idle(j)
                },
                Some(ChainStep::GiveUp) => forall|j: int|
                    #![trigger c.names[j]]
                    state.provider < j < c.names.len() && c.names[j] != called ==> !idle(j),
                None => false,
            }
        }),
{
    let called = c.names[state.provider as int];
    let i = state.provider + 1;
    law_search_finds_the_first(h, c.names, i, now);
    law_search_finds_the_first(failed(h, called, now), c.names, i, now);
    law_records(h, called, now);
}

// ---- the nature of a failure ----

/// What each status says of a failure.
pub proof fn law_status_table(status: u16)
    ensures
        kind_of_status(status) is BadRequest <==> status == 400,
        kind_of_status(status) is AuthError <==> status == 401 || status == 403,
        kind_of_status(status) is Billing <==> status == 402,
        kind_of_status(status) is Timeout <==> status == 408,
        kind_of_status(status) is RateLimit <==> status == 429,
        kind_of_status(status) is ServerError <==> 500 <= status < 600,
{
}

/// The nature of a failure is the one that the provider reported, and else goes
/// by its text without regard to case.
pub proof fn law_kind_is_the_reported_one(p: ProviderError, a: String, b: String)
    ensures
        kind_of_error(ChatError::Provider(p)) == p.kind,
        lowercase(a@) == lowercase(b@) ==> kind_of_error(ChatError::Other(a)) == kind_of_error(
            ChatError::Other(b),
        ),
{
}

/// A text that speaks of too many requests tells of a rate limit, whatever else
/// it says.
pub proof fn law_rate_limit_words(t: Seq<char>)
    ensures
        contains(t, "429"@) ==> kind_of_lower_text(t) is RateLimit,
        contains(t, "rate limit"@) ==> kind_of_lower_text(t) is RateLimit,
        contains(t, "rate_limit"@) ==> kind_of_lower_text(t) is RateLimit,
        contains(t, "ratelimit"@) ==> kind_of_lower_text(t) is RateLimit,
        contains(t, "too many requests"@) ==> kind_of_lower_text(t) is RateLimit,
        contains(t, "exceeded your current quota"@) ==> kind_of_lower_text(t) is RateLimit,
        contains(t, "exceeded quota"@) ==> kind_of_lower_text(t) is RateLimit,
        contains(t, "resource has been exhausted"@) ==> kind_of_lower_text(t) is RateLimit,
        contains(t, "resource_exhausted"@) ==> kind_of_lower_text(t) is RateLimit,
        contains(t, "quota exceeded"@) ==> kind_of_lower_text(t) is RateLimit,
        contains(t, "usage limit"@) ==> kind_of_lower_text(t) is RateLimit,
        contains(t, "overloaded_error"@) ==> kind_of_lower_text(t) is RateLimit,
        contains(t, "overloaded"@) ==> kind_of_lower_text(t) is RateLimit,
{
    let w = rate_limit_words();
    assert(w[0] == "429"@ && w[1] == "rate limit"@ && w[2] == "rate_limit"@ && w[3]
        == "ratelimit"@);
    assert(w[4] == "too many requests"@ && w[5] == "exceeded your current quota"@);
    assert(w[6] == "exceeded quota"@ && w[7] == "resource has been exhausted"@);
    assert(w[8] == "resource_exhausted"@ && w[9] == "quota exceeded"@ && w[10] == "usage limit"@);
    assert(w[11] == "overloaded_error"@ && w[12] == "overloaded"@);
}

/// A text that speaks of payment tells of a billing failure, unless it also
/// speaks of a rate limit.
pub proof fn law_billing_words(t: Seq<char>)
    requires
        !(kind_of_lower_text(t) is RateLimit),
    ensures
        contains(t, "402"@) ==> kind_of_lower_text(t) is Billing,
        contains(t, "payment required"@) ==> kind_of_lower_text(t) is Billing,
        contains(t, "insufficient credits"@) ==> kind_of_lower_text(t) is Billing,
        contains(t, "credit balance"@) ==> kind_of_lower_text(t) is Billing,
        contains(t, "plans & billing"@) ==> kind_of_lower_text(t) is Billing,
        contains(t, "insufficient balance"@) ==> kind_of_lower_text(t) is Billing,
        contains(t, "billing"@) ==> kind_of_lower_text(t) is Billing,
{
    let w = billing_words();
    assert(w[0] == "402"@ && w[1] == "payment required"@ && w[2] == "insufficient credits"@);
    assert(w[3] == "credit balance"@ && w[4] == "plans & billing"@);
    assert(w[5] == "insufficient balance"@ && w[6] == "billing"@);
}

/// A text that speaks of a timeout tells of one, unless it also speaks of a
/// rate limit or of payment.
pub proof fn law_timeout_words(t: Seq<char>)
    requires
        !(kind_of_lower_text(t) is RateLimit),
        !(kind_of_lower_text(t) is Billing),
    ensures
        contains(t, "408"@) ==> kind_of_lower_text(t) is Timeout,
        contains(t, "timeout"@) ==> kind_of_lower_text(t) is Timeout,
        contains(t, "timed out"@) ==> kind_of_lower_text(t) is Timeout,
        contains(t, "deadline exceeded"@) ==> kind_of_lower_text(t) is Timeout,
        contains(t, "context deadline exceeded"@) ==> kind_of_lower_text(t) is Timeout,
        contains(t, "request timeout"@) ==> kind_of_lower_text(t) is Timeout,
        contains(t, "connection timed out"@) ==> kind_of_lower_text(t) is Timeout,
{
    let w = timeout_words();
    assert(w[0] == "408"@ && w[1] == "timeout"@ && w[2] == "timed out"@);
    assert(w[3] == "deadline exceeded"@ && w[4] == "context deadline exceeded"@);
    assert(w[5] == "request timeout"@ && w[6] == "connection timed out"@);
}

/// A text that speaks of credentials tells of a failed authentication, unless
/// it also speaks of a rate limit, of payment or of a timeout.
pub proof fn law_auth_words(t: Seq<char>)
    requires
        !(kind_of_lower_text(t) is RateLimit),
        !(kind_of_lower_text(t) is Billing),
        !(kind_of_lower_text(t) is Timeout),
    ensures
        contains(t, "401"@) ==> kind_of_lower_text(t) is AuthError,
        contains(t, "403"@) ==> kind_of_lower_text(t) is AuthError,
        contains(t, "invalid api key"@) ==> kind_of_lower_text(t) is AuthError,
        contains(t, "invalid_api_key"@) ==> kind_of_lower_text(t) is AuthError,
        contains(t, "incorrect api key"@) ==> kind_of_lower_text(t) is AuthError,
        contains(t, "invalid token"@) ==> kind_of_lower_text(t) is AuthError,
        contains(t, "authentication"@) ==> kind_of_lower_text(t) is AuthError,
        contains(t, "re-authenticate"@) ==> kind_of_lower_text(t) is AuthError,
        contains(t, "oauth token refresh failed"@) ==> kind_of_lower_text(t) is AuthError,
        contains(t, "unauthorized"@) ==> kind_of_lower_text(t) is AuthError,
        contains(t, "forbidden"@) ==> kind_of_lower_text(t) is AuthError,
        contains(t, "access denied"@) ==> kind_of_lower_text(t) is AuthError,
        contains(t, "expired"@) ==> kind_of_lower_text(t) is AuthError,
        contains(t, "token has expired"@) ==> kind_of_lower_text(t) is AuthError,
        contains(t, "no credentials found"@) ==> kind_of_lower_text(t) is AuthError,
        contains(t, "no api key found"@) ==> kind_of_lower_text(t) is AuthError,
{
    let w = auth_words();
    assert(w[0] == "401"@ && w[1] == "403"@ && w[2] == "invalid api key"@);
    assert(w[3] == "invalid_api_key"@ && w[4] == "incorrect api key"@ && w[5] == "invalid token"@);
    assert(w[6] == "authentication"@ && w[7] == "re-authenticate"@);
    assert(w[8] == "oauth token refresh failed"@ && w[9] == "unauthorized"@);
    assert(w[10] == "forbidden"@ && w[11] == "access denied"@ && w[12] == "expired"@);
    assert(w[13] == "token has expired"@ && w[14] == "no credentials found"@);
    assert(w[15] == "no api key found"@);
}

/// A text that speaks of a malformed request, or else of a failure of the
/// server, tells of it, unless it speaks of anything above; one that holds none
/// of these words tells nothing.
pub proof fn law_request_and_server_words(t: Seq<char>)
    requires
        !(kind_of_lower_text(t) is RateLimit),
        !(kind_of_lower_text(t) is Billing),
        !(kind_of_lower_text(t) is Timeout),
        !(kind_of_lower_text(t) is AuthError),
    ensures
        contains(t, "400"@) ==> kind_of_lower_text(t) is BadRequest,
        contains(t, "bad request"@) ==> kind_of_lower_text(t) is BadRequest,
        contains(t, "invalid request"@) ==> kind_of_lower_text(t) is BadRequest,
        contains(t, "invalid_request_error"@) ==> kind_of_lower_text(t) is BadRequest,
        contains(t, "string should match pattern"@) ==> kind_of_lower_text(t) is BadRequest,
        contains(t, "tool_use.id"@) ==> kind_of_lower_text(t) is BadRequest,
        contains(t, "tool_use_id"@) ==> kind_of_lower_text(t) is BadRequest,
        contains(t, "invalid request format"@) ==> kind_of_lower_text(t) is BadRequest,
        !(kind_of_lower_text(t) is BadRequest) ==> {
            &&& contains(t, "500"@) ==> kind_of_lower_text(t) is ServerError
            &&& contains(t, "502"@) ==> kind_of_lower_text(t) is ServerError
            &&& contains(t, "503"@) ==> kind_of_lower_text(t) is ServerError
            &&& contains(t, "521"@) ==> kind_of_lower_text(t) is ServerError
            &&& contains(t, "522"@) ==> kind_of_lower_text(t) is ServerError
            &&& contains(t, "523"@) ==> kind_of_lower_text(t) is ServerError
            &&& contains(t, "524"@) ==> kind_of_lower_text(t) is ServerError
            &&& contains(t, "529"@) ==> kind_of_lower_text(t) is ServerError
            &&& contains(t, "internal server error"@) ==> kind_of_lower_text(t) is ServerError
            &&& contains(t, "service unavailable"@) ==> kind_of_lower_text(t) is ServerError
            &&& contains(t, "bad gateway"@) ==> kind_of_lower_text(t) is ServerError
        },
{
    let w = bad_request_words();
    assert(w[0] == "400"@ && w[1] == "bad request"@ && w[2] == "invalid request"@);
    assert(w[3] == "invalid_request_error"@ && w[4] == "string should match pattern"@);
    assert(w[5] == "tool_use.id"@ && w[6] == "tool_use_id"@ && w[8] == "invalid request format"@);
    let v = server_words();
    assert(v[0] == "500"@ && v[1] == "502"@ && v[2] == "503"@ && v[3] == "521"@);
    assert(v[4] == "522"@ && v[5] == "523"@ && v[6] == "524"@ && v[7] == "529"@);
    assert(v[8] == "internal server error"@ && v[9] == "service unavailable"@);
    assert(v[10] == "bad gateway"@);
}

/// A text tells of a failure of some nature only if one of the words for it
/// occurs.
pub proof fn law_kinds_have_words(t: Seq<char>)
    ensures
        kind_of_lower_text(t) is RateLimit ==> exists|i: int|
            0 <= i < rate_limit_words().len() && contains(t, #[trigger] rate_limit_words()[i]),
        kind_of_lower_text(t) is Billing ==> exists|i: int|
            0 <= i < billing_words().len() && contains(t, #[trigger] billing_words()[i]),
        kind_of_lower_text(t) is Timeout ==> exists|i: int|
            0 <= i < timeout_words().len() && contains(t, #[trigger] timeout_words()[i]),
        kind_of_lower_text(t) is AuthError ==> exists|i: int|
            0 <= i < auth_words().len() && contains(t, #[trigger] auth_words()[i]),
        kind_of_lower_text(t) is BadRequest ==> exists|i: int|
            0 <= i < bad_request_words().len() && contains(t, #[trigger] bad_request_words()[i]),
        kind_of_lower_text(t) is ServerError ==> exists|i: int|
            0 <= i < server_words().len() && contains(t, #[trigger] server_words()[i]),
{
}

} // verus!
