//! Keeping a chain of providers available: retries with growing pauses and
//! cooldowns after failures.
use vstd::prelude::*;
use crate::model::provider::ProviderCapabilities;
use crate::providers::error::{
    classify_error, counts, kind_of_error, retryable, ChatError, ProviderErrorKind,
};
use crate::strmap::StrMap;
use crate::text::{cat3, nat_text, u64_text};

verus! {

/// How often a provider is tried again after its first failure.
pub const MAX_RETRIES: u32 = 3;

/// The first pause before a retry, in milliseconds.
pub const INITIAL_BACKOFF_MS: u64 = 1000;

/// How much each pause is longer than the one before.
pub const BACKOFF_MULTIPLIER: u64 = 2;

/// The longest pause, in milliseconds.
pub const MAX_BACKOFF_MS: u64 = 30000;

/// The cooldown after the first failure, in seconds.
pub const COOLDOWN_BASE_SECS: u64 = 60;

/// The longest cooldown, in seconds.
pub const COOLDOWN_MAX_SECS: u64 = 3600;

/// Five to the power `n`.
pub open spec fn pow5(n: nat) -> nat
    decreases n,
{
    if n == 0 {
        1
    } else {
        5 * pow5((n - 1) as nat)
    }
}

/// The cooldown after so many failures, in seconds: a minute, five times as
/// long after each further failure, up to the fourth, and at most an hour.
pub open spec fn cooldown_secs(failures: nat) -> nat {
    let n = if failures == 0 {
        1
    } else {
        failures
    };
    let exp = if n - 1 <= 3 {
        (n - 1) as nat
    } else {
        3
    };
    let secs = COOLDOWN_BASE_SECS as nat * pow5(exp);
    if secs <= COOLDOWN_MAX_SECS {
        secs
    } else {
        COOLDOWN_MAX_SECS as nat
    }
}

/// The cooldowns are 1, 5 and 25 minutes, and from the fourth failure on an
/// hour.
pub proof fn law_cooldown_table(failures: nat)
    ensures
        failures <= 1 ==> cooldown_secs(failures) == 60,
        failures == 2 ==> cooldown_secs(failures) == 300,
        failures == 3 ==> cooldown_secs(failures) == 1500,
        failures >= 4 ==> cooldown_secs(failures) == 3600,
{
    assert(pow5(1) == 5 * pow5(0));
    assert(pow5(2) == 5 * pow5(1));
    assert(pow5(3) == 5 * pow5(2));
}

/// More failures never shorten the cooldown, which is never longer than an
/// hour.
pub proof fn law_cooldown_grows(a: nat, b: nat)
    requires
        a <= b,
    ensures
        cooldown_secs(a) <= cooldown_secs(b) <= COOLDOWN_MAX_SECS,
{
    law_cooldown_table(a);
    law_cooldown_table(b);
}

/// When a cooldown began and how long it lasts, in milliseconds.
#[derive(Clone, Copy, Debug, PartialEq, Eq, Structural)]
pub struct Cooldown {
    pub since_ms: u64,
    pub duration_ms: u64,
}

/// How much of a cooldown is left at time `now`.
pub open spec fn left_of(c: Cooldown, now: u64) -> nat {
    let elapsed = if now >= c.since_ms {
        now - c.since_ms
    } else {
        0
    };
    if elapsed < c.duration_ms {
        (c.duration_ms - elapsed) as nat
    } else {
        0
    }
}

/// What is known of the health of providers.
pub struct Health {
    pub cooldowns: Map<Seq<char>, Cooldown>,
    pub failures: Map<Seq<char>, u32>,
}

/// How much of the cooldown of a provider is left.
pub open spec fn remaining(h: Health, name: Seq<char>, now: u64) -> nat {
    if h.cooldowns.contains_key(name) {
        left_of(h.cooldowns[name], now)
    } else {
        0
    }
}

/// Whether a provider is cooling down.
pub open spec fn cooling(h: Health, name: Seq<char>, now: u64) -> bool {
    remaining(h, name, now) > 0
}

/// The health after a provider whose cooldown is over has been asked for: its
/// record is cleared.
pub open spec fn recovered(h: Health, name: Seq<char>, now: u64) -> Health {
    if h.cooldowns.contains_key(name) && !cooling(h, name, now) {
        cleared(h, name)
    } else {
        h
    }
}

/// The health without any record of a provider.
pub open spec fn cleared(h: Health, name: Seq<char>) -> Health {
    Health { cooldowns: h.cooldowns.remove(name), failures: h.failures.remove(name) }
}

pub open spec fn failures_of(h: Health, name: Seq<char>) -> nat {
    if h.failures.contains_key(name) {
        h.failures[name] as nat
    } else {
        0
    }
}

/// The health after a failure of a provider.
pub open spec fn failed(h: Health, name: Seq<char>, now: u64) -> Health {
    let n = failures_of(h, name) + 1;
    Health {
        cooldowns: h.cooldowns.insert(
            name,
            Cooldown { since_ms: now, duration_ms: (1000 * cooldown_secs(n)) as u64 },
        ),
        failures: h.failures.insert(name, n as u32),
    }
}

/// No provider has failed as often as can be counted.
pub open spec fn countable(h: Health) -> bool {
    forall|name: Seq<char>| #[trigger] failures_of(h, name) < u32::MAX
}

/// The health of each provider.
#[derive(Debug)]
pub struct CooldownTracker {
    pub cooldowns: StrMap<Cooldown>,
    pub failure_counts: StrMap<u32>,
}

impl View for CooldownTracker {
    type V = Health;

    open spec fn view(&self) -> Health {
        Health { cooldowns: self.cooldowns@, failures: self.failure_counts@ }
    }
}

impl CooldownTracker {
    pub fn new() -> (r: CooldownTracker)
        ensures
            r@.cooldowns == Map::<Seq<char>, Cooldown>::empty(),
            r@.failures == Map::<Seq<char>, u32>::empty(),
    {
        CooldownTracker { cooldowns: StrMap::new(), failure_counts: StrMap::new() }
    }

    /// The cooldown after so many failures, in seconds.
    pub fn calculate_cooldown(failure_count: u32) -> (r: u64)
        ensures
            r == cooldown_secs(failure_count as nat),
    {
        proof {
            law_cooldown_table(failure_count as nat);
        }
        if failure_count <= 1 {
            60
        } else if failure_count == 2 {
            300
        } else if failure_count == 3 {
            1500
        } else {
            3600
        }
    }

    /// Whether a provider is cooling down at time `now`, in milliseconds; a
    /// cooldown that is over is forgotten together with the failures.
    pub fn is_in_cooldown(&mut self, provider_name: &str, now: u64) -> (r: bool)
        ensures
            r == cooling(old(self)@, provider_name@, now),
            final(self)@ == recovered(old(self)@, provider_name@, now),
    {
        let over: bool = match self.cooldowns.get(provider_name) {
            Some(c) => {
                let elapsed: u64 = if now >= c.since_ms {
                    now - c.since_ms
                } else {
                    0
                };
                if elapsed < c.duration_ms {
                    return true;
                }
                true
            },
            None => false,
        };
        if over {
            self.cooldowns.remove(provider_name);
            self.failure_counts.remove(provider_name);
        }
        false
    }

    /// How many milliseconds of the cooldown of a provider are left.
    pub fn cooldown_remaining(&self, provider_name: &str, now: u64) -> (r: u64)
        ensures
            r == remaining(self@, provider_name@, now),
    {
        match self.cooldowns.get(provider_name) {
            Some(c) => {
                let elapsed: u64 = if now >= c.since_ms {
                    now - c.since_ms
                } else {
                    0
                };
                if elapsed < c.duration_ms {
                    c.duration_ms - elapsed
                } else {
                    0
                }
            },
            None => 0,
        }
    }

    /// Notes a failure of a provider: its cooldown begins anew, longer with
    /// each failure.
    pub fn record_failure(&mut self, provider_name: &str, now: u64)
        requires
            failures_of(old(self)@, provider_name@) < u32::MAX,
        ensures
            final(self)@ == failed(old(self)@, provider_name@, now),
    {
        let count: u32 = match self.failure_counts.get(provider_name) {
            Some(c) => *c + 1,
            None => 1,
        };
        proof {
            law_cooldown_table(count as nat);
        }
        let duration_ms: u64 = Self::calculate_cooldown(count) * 1000;
        self.failure_counts.insert(provider_name, count);
        self.cooldowns.insert(provider_name, Cooldown { since_ms: now, duration_ms });
    }

    /// Notes a success of a provider: its record is cleared.
    pub fn record_success(&mut self, provider_name: &str)
        ensures
            final(self)@ == cleared(old(self)@, provider_name@),
    {
        self.failure_counts.remove(provider_name);
        self.cooldowns.remove(provider_name);
    }
}

/// A provider that failed cools down from then on, one that succeeded does
/// not.
pub proof fn law_failure_opens_success_closes(h: Health, name: Seq<char>, now: u64)
    ensures
        cooling(failed(h, name, now), name, now),
        !cooling(cleared(h, name), name, now),
        failures_of(cleared(h, name), name) == 0,
{
    law_cooldown_table(failures_of(h, name) + 1);
}

/// What happens to one provider leaves the others as they were.
pub proof fn law_providers_are_independent(
    h: Health,
    name: Seq<char>,
    other: Seq<char>,
    now: u64,
    later: u64,
)
    requires
        name != other,
    ensures
        remaining(failed(h, name, now), other, later) == remaining(h, other, later),
        failures_of(failed(h, name, now), other) == failures_of(h, other),
        remaining(cleared(h, name), other, later) == remaining(h, other, later),
        failures_of(cleared(h, name), other) == failures_of(h, other),
        remaining(recovered(h, name, now), other, later) == remaining(h, other, later),
        failures_of(recovered(h, name, now), other) == failures_of(h, other),
{
}

/// A provider is available again once its cooldown is over, and its failures
/// are forgotten when it is asked for.
pub proof fn law_auto_recovery(h: Health, name: Seq<char>, now: u64, later: u64)
    requires
        later >= now + 1000 * cooldown_secs(failures_of(h, name) + 1),
    ensures
        !cooling(failed(h, name, now), name, later),
        failures_of(recovered(failed(h, name, now), name, later), name) == 0,
{
    law_cooldown_table(failures_of(h, name) + 1);
}

// ---- the chain ----

/// A provider as the chain knows it.
#[derive(Debug)]
pub struct ChainProvider {
    pub name: String,
    pub capabilities: ProviderCapabilities,
}

pub open spec fn provider_names(s: Seq<ChainProvider>) -> Seq<Seq<char>> {
    Seq::new(s.len(), |i: int| s[i].name@)
}

/// Asks for the providers from position `i` on, one after the other, up to the
/// first that is not cooling down: that one, and the health afterwards.
pub open spec fn scan(h: Health, names: Seq<Seq<char>>, i: int, now: u64) -> (Health, Option<int>)
    decreases names.len() - i,
{
    if i < 0 || i >= names.len() {
        (h, None)
    } else if !cooling(h, names[i], now) {
        (recovered(h, names[i], now), Some(i))
    } else {
        scan(h, names, i + 1, now)
    }
}

/// Where a request stands: which provider is being tried, how often it has
/// been tried before and the pause before the next retry.
#[derive(Clone, Copy, Debug, PartialEq, Eq, Structural)]
pub struct ChainState {
    pub provider: usize,
    pub attempt: u32,
    pub backoff_ms: u64,
}

/// What is to be done next.
#[derive(Debug)]
pub enum ChainStep {
    /// Wait so many milliseconds and send the request to the provider.
    Call { wait_ms: u64, state: ChainState },
    /// Every provider has failed or is cooling down: report the last failure.
    GiveUp,
}

/// How a request to a provider ended.
#[derive(Debug)]
pub enum ChainOutcome {
    Success,
    Failure(ChatError),
}

/// What stays the same about a chain: its providers in order, how often each is
/// tried again and the first pause.
pub struct ChainPlan {
    pub names: Seq<Seq<char>>,
    pub max_retries: u32,
    pub initial_backoff_ms: u64,
}

/// The first available provider from position `i` on is tried for the first
/// time; if there is none the request is given up.
pub open spec fn moved_on(c: ChainPlan, h: Health, i: int, now: u64) -> ChainStep {
    match scan(h, c.names, i, now).1 {
        Some(k) => ChainStep::Call {
            wait_ms: 0,
            state: ChainState {
                provider: k as usize,
                attempt: 0,
                backoff_ms: c.initial_backoff_ms,
            },
        },
        None => ChainStep::GiveUp,
    }
}

pub open spec fn min_u64(a: u64, b: u64) -> u64 {
    if a <= b {
        a
    } else {
        b
    }
}

/// Twice the pause, as far as it can be represented.
pub open spec fn doubled(ms: u64) -> u64 {
    if 2 * ms <= u64::MAX {
        (2 * ms) as u64
    } else {
        u64::MAX
    }
}

/// Providers that are tried in order, each several times if the failure may
/// pass, until one answers.
#[derive(Debug)]
pub struct ReliabilityChain {
    pub providers: Vec<ChainProvider>,
    pub tracker: CooldownTracker,
    pub max_retries: u32,
    pub initial_backoff_ms: u64,
}

/// The health after a failed attempt: a failure that may pass counts once the
/// retries are used up, one that does not pass counts at once, and one that
/// says nothing about availability does not count.
pub open spec fn health_after_failure(
    h: Health,
    name: Seq<char>,
    kind: ProviderErrorKind,
    last_attempt: bool,
    now: u64,
) -> Health {
    if counts(kind) && (!retryable(kind) || last_attempt) {
        failed(h, name, now)
    } else {
        h
    }
}

/// What follows when a request to a provider ended: the health afterwards, and
/// what is to be done next, which after a success is nothing.
pub open spec fn follow(
    c: ChainPlan,
    h: Health,
    state: ChainState,
    outcome: ChainOutcome,
    now: u64,
) -> (Health, Option<ChainStep>) {
    let name = c.names[state.provider as int];
    match outcome {
        ChainOutcome::Success => (cleared(h, name), None),
        ChainOutcome::Failure(e) => {
            let kind = kind_of_error(e);
            let last = state.attempt == c.max_retries;
            let after = health_after_failure(h, name, kind, last, now);
            if retryable(kind) && !last {
                (
                    after,
                    Some(
                        ChainStep::Call {
                            wait_ms: min_u64(state.backoff_ms, MAX_BACKOFF_MS),
                            state: ChainState {
                                provider: state.provider,
                                attempt: (state.attempt + 1) as u32,
                                backoff_ms: doubled(state.backoff_ms),
                            },
                        },
                    ),
                )
            } else {
                (
                    scan(after, c.names, state.provider + 1, now).0,
                    Some(moved_on(c, after, state.provider + 1, now)),
                )
            }
        },
    }
}

impl ReliabilityChain {
    pub fn new(providers: Vec<ChainProvider>) -> (r: ReliabilityChain)
        ensures
            r.providers == providers,
            r.tracker@.cooldowns == Map::<Seq<char>, Cooldown>::empty(),
            r.tracker@.failures == Map::<Seq<char>, u32>::empty(),
            r.max_retries == MAX_RETRIES,
            r.initial_backoff_ms == INITIAL_BACKOFF_MS,
    {
        ReliabilityChain {
            providers,
            tracker: CooldownTracker::new(),
            max_retries: MAX_RETRIES,
            initial_backoff_ms: INITIAL_BACKOFF_MS,
        }
    }

    pub fn with_max_retries(self, retries: u32) -> (r: ReliabilityChain)
        ensures
            r == (ReliabilityChain { max_retries: retries, ..self }),
    {
        ReliabilityChain { max_retries: retries, ..self }
    }

    /// Has no effect: every failure that counts begins a cooldown.
    pub fn with_circuit_threshold(self, _threshold: u32) -> (r: ReliabilityChain)
        ensures
            r == self,
    {
        self
    }

    pub open spec fn names(&self) -> Seq<Seq<char>> {
        provider_names(self.providers@)
    }

    pub open spec fn plan(&self) -> ChainPlan {
        ChainPlan {
            names: self.names(),
            max_retries: self.max_retries,
            initial_backoff_ms: self.initial_backoff_ms,
        }
    }

    /// The position of the first provider from `from` on that is available.
    fn next_available(&mut self, from: usize, now: u64) -> (r: Option<usize>)
        ensures
            match r {
                Some(k) => scan(old(self).tracker@, old(self).names(), from as int, now).1 == Some(
                    k as int,
                ) && k < old(self).providers@.len(),
                None => scan(old(self).tracker@, old(self).names(), from as int, now).1 is None,
            },
            final(self).tracker@ == scan(old(self).tracker@, old(self).names(), from as int, now).0,
            final(self).providers == old(self).providers,
            final(self).max_retries == old(self).max_retries,
            final(self).initial_backoff_ms == old(self).initial_backoff_ms,
    {
        let mut i: usize = from;
        while i < self.providers.len()
            invariant
                self.providers == old(self).providers,
                self.max_retries == old(self).max_retries,
                self.initial_backoff_ms == old(self).initial_backoff_ms,
                self.tracker@ == old(self).tracker@,
                scan(old(self).tracker@, old(self).names(), from as int, now) == scan(
                    old(self).tracker@,
                    old(self).names(),
                    i as int,
                    now,
                ),
            decreases self.providers.len() - i,
        {
            let name = self.providers[i].name.clone();
            proof {
                assert(old(self).names()[i as int] == name@);
            }
            if !self.tracker.is_in_cooldown(name.as_str(), now) {
                return Some(i);
            }
            i = i + 1;
        }
        None
    }

    /// Whether some provider is available.
    pub fn has_available_provider(&mut self, now: u64) -> (r: bool)
        ensures
            r == scan(old(self).tracker@, old(self).names(), 0, now).1 is Some,
            final(self).tracker@ == scan(old(self).tracker@, old(self).names(), 0, now).0,
            final(self).providers == old(self).providers,
            final(self).max_retries == old(self).max_retries,
            final(self).initial_backoff_ms == old(self).initial_backoff_ms,
    {
        self.next_available(0, now).is_some()
    }

    /// What the chain can do: what its first available provider can, else what
    /// its first provider can, else nothing.
    pub fn capabilities(&mut self, now: u64) -> (r: ProviderCapabilities)
        ensures
            r == match scan(old(self).tracker@, old(self).names(), 0, now).1 {
                Some(k) => old(self).providers@[k].capabilities,
                None => if old(self).providers@.len() > 0 {
                    old(self).providers@[0].capabilities
                } else {
                    ProviderCapabilities {
                        native_tool_calling: false,
                        vision: false,
                        streaming: false,
                    }
                },
            },
            final(self).tracker@ == scan(old(self).tracker@, old(self).names(), 0, now).0,
            final(self).providers == old(self).providers,
            final(self).max_retries == old(self).max_retries,
            final(self).initial_backoff_ms == old(self).initial_backoff_ms,
    {
        match self.next_available(0, now) {
            Some(k) => self.providers[k].capabilities,
            None => if self.providers.len() > 0 {
                self.providers[0].capabilities
            } else {
                ProviderCapabilities { native_tool_calling: false, vision: false, streaming: false }
            },
        }
    }

    /// Begins a request: the first provider to try, or the message for the
    /// case that all of them are cooling down.
    pub fn begin(&mut self, now: u64) -> (r: Result<ChainState, String>)
        ensures
            match r {
                Ok(state) => state.provider < old(self).providers@.len() && moved_on(
                    old(self).plan(),
                    old(self).tracker@,
                    0,
                    now,
                ) == (ChainStep::Call { wait_ms: 0, state }),
                Err(e) => moved_on(old(self).plan(), old(self).tracker@, 0, now) is GiveUp && e@
                    == "All "@ + nat_text(old(self).providers@.len()) + COOLDOWN_MESSAGE@,
            },
            final(self).tracker@ == scan(old(self).tracker@, old(self).names(), 0, now).0,
            final(self).providers == old(self).providers,
            final(self).max_retries == old(self).max_retries,
            final(self).initial_backoff_ms == old(self).initial_backoff_ms,
    {
        match self.next_available(0, now) {
            Some(k) => Ok(
                ChainState { provider: k, attempt: 0, backoff_ms: self.initial_backoff_ms },
            ),
            None => {
                let n = u64_text(self.providers.len() as u64);
                Err(cat3("All ", n.as_str(), COOLDOWN_MESSAGE))
            },
        }
    }

    /// Takes note of how a request to a provider ended and tells what is to be
    /// done next; `None` after a success, which ends the request.
    pub fn chat(&mut self, state: ChainState, outcome: &ChainOutcome, now: u64) -> (r: Option<
        ChainStep,
    >)
        requires
            state.provider < old(self).providers@.len(),
            state.attempt <= old(self).max_retries,
            countable(old(self).tracker@),
        ensures
            final(self).providers == old(self).providers,
            final(self).max_retries == old(self).max_retries,
            final(self).initial_backoff_ms == old(self).initial_backoff_ms,
            (final(self).tracker@, r) == follow(
                old(self).plan(),
                old(self).tracker@,
                state,
                *outcome,
                now,
            ),
    {
        let name = self.providers[state.provider].name.clone();
        proof {
            assert(self.names()[state.provider as int] == name@);
        }
        let e = match outcome {
            ChainOutcome::Success => {
                self.tracker.record_success(name.as_str());
                return None;
            },
            ChainOutcome::Failure(e) => e,
        };
        let kind = classify_error(e);
        if kind.is_retryable() {
            if state.attempt < self.max_retries {
                let wait_ms: u64 = if state.backoff_ms <= MAX_BACKOFF_MS {
                    state.backoff_ms
                } else {
                    MAX_BACKOFF_MS
                };
                let backoff_ms: u64 = if state.backoff_ms <= u64::MAX / BACKOFF_MULTIPLIER {
                    state.backoff_ms * BACKOFF_MULTIPLIER
                } else {
                    u64::MAX
                };
                return Some(
                    ChainStep::Call {
                        wait_ms,
                        state: ChainState {
                            provider: state.provider,
                            attempt: state.attempt + 1,
                            backoff_ms,
                        },
                    },
                );
            }
        }
        if kind.counts_as_circuit_failure() {
            proof {
                assert(failures_of(self.tracker@, name@) < u32::MAX);
            }
            self.tracker.record_failure(name.as_str(), now);
        }
        let n: usize = self.providers.len();
        match self.next_available(state.provider + 1, now) {
            Some(k) => Some(
                ChainStep::Call {
                    wait_ms: 0,
                    state: ChainState {
                        provider: k,
                        attempt: 0,
                        backoff_ms: self.initial_backoff_ms,
                    },
                },
            ),
            None => Some(ChainStep::GiveUp),
        }
    }
}

pub const COOLDOWN_MESSAGE: &'static str =
    " provider(s) in the ReliabilityChain are currently in circuit-breaker cooldown. Please wait before retrying.";

/// No cooldown lasts longer than an hour.
pub open spec fn within_an_hour(h: Health) -> bool {
    forall|name: Seq<char>|
        h.cooldowns.contains_key(name) ==> (#[trigger] h.cooldowns[name]).duration_ms <= 3_600_000
}

/// No cooldown ever lasts longer than an hour: there is none at first, and
/// neither failures nor successes nor recoveries nor the search for a provider
/// make one; so there is never more than an hour left of one.
pub proof fn law_cooldowns_last_at_most_an_hour(
    h: Health,
    name: Seq<char>,
    names: Seq<Seq<char>>,
    i: int,
    now: u64,
)
    requires
        within_an_hour(h),
    ensures
        within_an_hour(Health { cooldowns: Map::empty(), failures: Map::empty() }),
        within_an_hour(failed(h, name, now)),
        within_an_hour(cleared(h, name)),
        within_an_hour(recovered(h, name, now)),
        within_an_hour(scan(h, names, i, now).0),
        remaining(h, name, now) <= 3_600_000,
    decreases names.len() - i,
{
    law_cooldown_table(failures_of(h, name) + 1);
    if 0 <= i < names.len() && cooling(h, names[i], now) {
        law_cooldowns_last_at_most_an_hour(h, name, names, i + 1, now);
    }
}

/// What is done after a request to a provider keeps every cooldown within an
/// hour.
pub proof fn law_requests_keep_cooldowns_within_an_hour(
    c: ChainPlan,
    h: Health,
    state: ChainState,
    outcome: ChainOutcome,
    now: u64,
)
    requires
        within_an_hour(h),
    ensures
        within_an_hour(follow(c, h, state, outcome, now).0),
{
    let name = c.names[state.provider as int];
    law_cooldowns_last_at_most_an_hour(h, name, c.names, state.provider + 1, now);
    law_cooldowns_last_at_most_an_hour(
        failed(h, name, now),
        name,
        c.names,
        state.provider + 1,
        now,
    );
}

/// A failed authentication or a malformed request never begins a cooldown.
pub proof fn law_auth_and_bad_request_do_not_count(
    h: Health,
    name: Seq<char>,
    last_attempt: bool,
    now: u64,
)
    ensures
        health_after_failure(h, name, ProviderErrorKind::AuthError, last_attempt, now) == h,
        health_after_failure(h, name, ProviderErrorKind::BadRequest, last_attempt, now) == h,
{
}

/// After a rate limit or a billing failure the provider cools down at once.
pub proof fn law_rate_limit_and_billing_count_at_once(
    h: Health,
    name: Seq<char>,
    last_attempt: bool,
    now: u64,
)
    ensures
        cooling(
            health_after_failure(h, name, ProviderErrorKind::RateLimit, last_attempt, now),
            name,
            now,
        ),
        cooling(
            health_after_failure(h, name, ProviderErrorKind::Billing, last_attempt, now),
            name,
            now,
        ),
{
    law_failure_opens_success_closes(h, name, now);
}

/// A request is given up only if every provider behind the one that failed is
/// cooling down.
pub proof fn law_gives_up_only_when_none_is_left(
    h: Health,
    names: Seq<Seq<char>>,
    i: int,
    now: u64,
)
    requires
        0 <= i,
        scan(h, names, i, now).1 is None,
    ensures
        forall|k: int| i <= k < names.len() ==> cooling(h, #[trigger] names[k], now),
    decreases names.len() - i,
{
    if i < names.len() {
        law_gives_up_only_when_none_is_left(h, names, i + 1, now);
    }
}

/// The provider tried next is the first one that is available.
pub proof fn law_tries_first_available(h: Health, names: Seq<Seq<char>>, i: int, now: u64)
    requires
        0 <= i,
        scan(h, names, i, now).1 is Some,
    ensures
        ({
            let k = scan(h, names, i, now).1->0;
            &&& i <= k < names.len()
            &&& !cooling(h, names[k], now)
            &&& forall|j: int| i <= j < k ==> cooling(h, #[trigger] names[j], now)
        }),
    decreases names.len() - i,
{
    if i < names.len() && cooling(h, names[i], now) {
        law_tries_first_available(h, names, i + 1, now);
    }
}

} // verus!
