//! What holds of a whole request to a chain of providers, whatever the outcomes
//! of its calls and whatever other requests do to the health of the providers
//! in the meantime.
use vstd::arithmetic::power2::{lemma_pow2_pos, lemma_pow2_unfold, pow2};
use vstd::prelude::*;
use crate::providers::error::{kind_of_error, retryable};
use crate::providers::reliable::{
    cooling, doubled, follow, health_after_failure, law_gives_up_only_when_none_is_left,
    law_tries_first_available, min_u64, moved_on, scan, ChainOutcome, ChainPlan, ChainState,
    ChainStep, Health, MAX_BACKOFF_MS,
};

verus! {

/// A chain, and the health of its providers when a request begins, and when
/// that is.
pub struct Start {
    pub plan: ChainPlan,
    pub health: Health,
    pub now: u64,
}

/// One call of a request: how it ended, the health of the providers when that
/// is noted, and when that is.
pub struct Turn {
    pub health: Health,
    pub outcome: ChainOutcome,
    pub now: u64,
}

/// Where a request stands.
pub enum Standing {
    /// A provider is called after a pause.
    Calling { wait_ms: u64, state: ChainState },
    Answered,
    GivenUp,
}

pub open spec fn standing_of(step: ChainStep) -> Standing {
    match step {
        ChainStep::Call { wait_ms, state } => Standing::Calling { wait_ms, state },
        ChainStep::GiveUp => Standing::GivenUp,
    }
}

/// Where a request stands after some calls.
pub open spec fn standing(b: Start, turns: Seq<Turn>) -> Standing
    decreases turns.len(),
{
    if turns.len() == 0 {
        standing_of(moved_on(b.plan, b.health, 0, b.now))
    } else {
        let t = turns.last();
        match standing(b, turns.drop_last()) {
            Standing::Calling { wait_ms, state } => match follow(
                b.plan,
                t.health,
                state,
                t.outcome,
                t.now,
            ).1 {
                Some(step) => standing_of(step),
                None => Standing::Answered,
            },
            ended => ended,
        }
    }
}

/// The state in which call number `i` is made.
pub open spec fn state_at(b: Start, turns: Seq<Turn>, i: int) -> ChainState {
    standing(b, turns.take(i))->state
}

/// Whether the request was still open before each of its calls.
pub open spec fn is_request(b: Start, turns: Seq<Turn>) -> bool {
    &&& b.plan.names.len() <= usize::MAX
    &&& forall|i: int| 0 <= i < turns.len() ==> standing(b, #[trigger] turns.take(i)) is Calling
}

/// Call number `j` was the last one to provider `q`: it failed, and either the
/// failure does not pass or the provider had been tried as often as it may be.
pub open spec fn tried_out(b: Start, turns: Seq<Turn>, j: int, q: int) -> bool {
    &&& 0 <= j < turns.len()
    &&& state_at(b, turns, j).provider == q
    &&& turns[j].outcome matches ChainOutcome::Failure(e) && (!retryable(kind_of_error(e))
        || state_at(b, turns, j).attempt == b.plan.max_retries)
}

/// Provider `q` was cooling down when a provider was looked for after call
/// number `j`.
pub open spec fn found_cooling(b: Start, turns: Seq<Turn>, j: int, q: int) -> bool {
    let s = state_at(b, turns, j);
    &&& 0 <= j < turns.len()
    &&& s.provider < q
    &&& turns[j].outcome matches ChainOutcome::Failure(e) && cooling(
        health_after_failure(
            turns[j].health,
            b.plan.names[s.provider as int],
            kind_of_error(e),
            s.attempt == b.plan.max_retries,
            turns[j].now,
        ),
        b.plan.names[q],
        turns[j].now,
    )
}

/// Provider `q` was cooling down when it was its turn, or was tried out.
pub open spec fn accounted(b: Start, turns: Seq<Turn>, q: int) -> bool {
    ||| cooling(b.health, b.plan.names[q], b.now)
    ||| exists|j: int| #[trigger] tried_out(b, turns, j, q)
    ||| exists|j: int| #[trigger] found_cooling(b, turns, j, q)
}

proof fn lemma_request_before(b: Start, turns: Seq<Turn>)
    requires
        is_request(b, turns),
        turns.len() > 0,
    ensures
        is_request(b, turns.drop_last()),
        turns.take(turns.len() - 1) == turns.drop_last(),
        standing(b, turns.drop_last()) is Calling,
        forall|i: int|
            0 <= i < turns.len() ==> (#[trigger] turns.take(i)) == turns.drop_last().take(i),
{
    let head = turns.drop_last();
    assert(turns.take(turns.len() - 1) =~= head);
    assert forall|i: int| 0 <= i < turns.len() implies (#[trigger] turns.take(i)) == head.take(
        i,
    ) by {
        assert(turns.take(i) =~= head.take(i));
    }
    assert forall|i: int| 0 <= i < head.len() implies standing(
        b,
        #[trigger] head.take(i),
    ) is Calling by {
        assert(turns.take(i) == head.take(i));
    }
}

proof fn lemma_accounted_stays(b: Start, turns: Seq<Turn>, q: int)
    requires
        is_request(b, turns),
        turns.len() > 0,
        accounted(b, turns.drop_last(), q),
    ensures
        accounted(b, turns, q),
{
    let head = turns.drop_last();
    lemma_request_before(b, turns);
    if cooling(b.health, b.plan.names[q], b.now) {
    } else if exists|j: int| #[trigger] tried_out(b, head, j, q) {
        let j = choose|j: int| #[trigger] tried_out(b, head, j, q);
        assert(turns.take(j) == head.take(j));
        assert(tried_out(b, turns, j, q));
    } else {
        let j = choose|j: int| #[trigger] found_cooling(b, head, j, q);
        assert(turns.take(j) == head.take(j));
        assert(found_cooling(b, turns, j, q));
    }
}

/// A call is to a provider that there is, no oftener than allowed, and all
/// providers before it are accounted for; a request that is given up has all
/// of them accounted for.
proof fn lemma_accounted(b: Start, turns: Seq<Turn>)
    requires
        is_request(b, turns),
    ensures
        match standing(b, turns) {
            Standing::Calling { wait_ms, state } => state.provider < b.plan.names.len()
                && state.attempt <= b.plan.max_retries && forall|q: int|
                0 <= q < state.provider ==> #[trigger] accounted(b, turns, q),
            Standing::GivenUp => forall|q: int|
                0 <= q < b.plan.names.len() ==> #[trigger] accounted(b, turns, q),
            Standing::Answered => turns.len() > 0,
        },
    decreases turns.len(),
{
    let c = b.plan;
    if turns.len() == 0 {
        if scan(b.health, c.names, 0, b.now).1 is Some {
            law_tries_first_available(b.health, c.names, 0, b.now);
        } else {
            law_gives_up_only_when_none_is_left(b.health, c.names, 0, b.now);
        }
    } else {
        let head = turns.drop_last();
        let t = turns.last();
        let n = turns.len() - 1;
        lemma_request_before(b, turns);
        lemma_accounted(b, head);
        let s = standing(b, head)->state;
        assert(state_at(b, turns, n) == s);
        assert(turns[n] == t);
        assert forall|q: int| 0 <= q < s.provider implies #[trigger] accounted(b, turns, q) by {
            lemma_accounted_stays(b, turns, q);
        }
        if let ChainOutcome::Failure(e) = t.outcome {
            let kind = kind_of_error(e);
            let last = s.attempt == c.max_retries;
            let h = health_after_failure(
                t.health,
                c.names[s.provider as int],
                kind,
                last,
                t.now,
            );
            if !(retryable(kind) && !last) {
                assert(tried_out(b, turns, n, s.provider as int));
                let from = s.provider + 1;
                if scan(h, c.names, from, t.now).1 is Some {
                    law_tries_first_available(h, c.names, from, t.now);
                    let k = scan(h, c.names, from, t.now).1->0;
                    assert forall|q: int| 0 <= q < k implies #[trigger] accounted(b, turns, q) by {
                        if q > s.provider {
                            assert(cooling(h, c.names[q], t.now));
                            assert(found_cooling(b, turns, n, q));
                        }
                    }
                } else {
                    law_gives_up_only_when_none_is_left(h, c.names, from, t.now);
                    assert forall|q: int| 0 <= q < c.names.len() implies #[trigger] accounted(
                        b,
                        turns,
                        q,
                    ) by {
                        if q > s.provider {
                            assert(cooling(h, c.names[q], t.now));
                            assert(found_cooling(b, turns, n, q));
                        }
                    }
                }
            }
        }
    }
}

/// A request fails only if every provider was cooling down when it was its turn
/// or was tried out, and no call succeeded.
pub proof fn law_fails_only_if_every_provider_does(b: Start, turns: Seq<Turn>)
    requires
        is_request(b, turns),
        standing(b, turns) is GivenUp,
    ensures
        forall|q: int| 0 <= q < b.plan.names.len() ==> #[trigger] accounted(b, turns, q),
        forall|j: int| 0 <= j < turns.len() ==> (#[trigger] turns[j]).outcome is Failure,
{
    lemma_accounted(b, turns);
    assert forall|j: int| 0 <= j < turns.len() implies (#[trigger] turns[j]).outcome is Failure by {
        let upto = turns.take(j + 1);
        assert(upto.drop_last() =~= turns.take(j));
        assert(upto.last() == turns[j]);
        assert(standing(b, turns.take(j)) is Calling);
        if j + 1 < turns.len() {
            assert(standing(b, turns.take(j + 1)) is Calling);
        } else {
            assert(upto =~= turns);
        }
    }
}

/// A request is answered by the first success, and every provider before the
/// one that answers was cooling down when it was its turn or was tried out.
pub proof fn law_answer_comes_from_the_first_that_can(b: Start, turns: Seq<Turn>)
    requires
        is_request(b, turns),
        standing(b, turns) is Answered,
    ensures
        turns.len() > 0,
        turns.last().outcome is Success,
        forall|j: int| 0 <= j < turns.len() - 1 ==> (#[trigger] turns[j]).outcome is Failure,
        ({
            let p = state_at(b, turns, turns.len() - 1).provider;
            &&& p < b.plan.names.len()
            &&& forall|q: int| 0 <= q < p ==> #[trigger] accounted(b, turns, q)
        }),
{
    lemma_accounted(b, turns);
    lemma_request_before(b, turns);
    let head = turns.drop_last();
    lemma_accounted(b, head);
    let p = state_at(b, turns, turns.len() - 1).provider;
    assert forall|q: int| 0 <= q < p implies #[trigger] accounted(b, turns, q) by {
        lemma_accounted_stays(b, turns, q);
    }
    assert forall|j: int| 0 <= j < turns.len() - 1 implies (#[trigger] turns[j]).outcome is Failure by {
        let upto = turns.take(j + 1);
        assert(upto.drop_last() =~= turns.take(j));
        assert(upto.last() == turns[j]);
        assert(standing(b, turns.take(j)) is Calling);
        assert(standing(b, turns.take(j + 1)) is Calling);
    }
}

/// The calls to a provider come one after the other, and `attempt` counts
/// those before the current one: the current provider has been called
/// `attempt` times, at most `max_retries`, and all calls before those were to
/// providers before it.
pub proof fn law_attempts_are_calls(b: Start, turns: Seq<Turn>)
    requires
        is_request(b, turns),
        standing(b, turns) is Calling,
    ensures
        ({
            let s = standing(b, turns)->state;
            let n = turns.len() as int;
            &&& s.attempt <= b.plan.max_retries
            &&& s.attempt <= n
            &&& forall|i: int|
                n - s.attempt <= i < n ==> (#[trigger] state_at(b, turns, i)).provider
                    == s.provider && state_at(b, turns, i).attempt == i - (n - s.attempt)
            &&& forall|i: int|
                0 <= i < n - s.attempt ==> (#[trigger] state_at(b, turns, i)).provider
                    < s.provider
        }),
    decreases turns.len(),
{
    lemma_accounted(b, turns);
    if turns.len() > 0 {
        let head = turns.drop_last();
        let n = turns.len() as int;
        let t = turns.last();
        lemma_request_before(b, turns);
        law_attempts_are_calls(b, head);
        lemma_accounted(b, head);
        let before = standing(b, head)->state;
        let s = standing(b, turns)->state;
        assert(state_at(b, turns, n - 1) == before);
        assert forall|i: int| 0 <= i < n - 1 implies #[trigger] state_at(b, turns, i) == state_at(
            b,
            head,
            i,
        ) by {
            assert(turns.take(i) == head.take(i));
        }
        lemma_next_state(b, before, t);
    }
}

/// The provider of the next call is the same one, tried once more, or a later
/// one, tried for the first time.
proof fn lemma_next_state(b: Start, before: ChainState, t: Turn)
    requires
        b.plan.names.len() <= usize::MAX,
        before.provider < b.plan.names.len(),
        before.attempt <= b.plan.max_retries,
    ensures
        follow(b.plan, t.health, before, t.outcome, t.now).1 matches Some(
            ChainStep::Call { wait_ms, state: s },
        ) ==> {
            ||| s.provider == before.provider && s.attempt == before.attempt + 1 && s.backoff_ms
                == doubled(before.backoff_ms) && wait_ms == min_u64(
                before.backoff_ms,
                MAX_BACKOFF_MS,
            )
            ||| s.provider > before.provider && s.attempt == 0 && s.backoff_ms
                == b.plan.initial_backoff_ms && wait_ms == 0
        },
{
    if let ChainOutcome::Failure(e) = t.outcome {
        let h = health_after_failure(
            t.health,
            b.plan.names[before.provider as int],
            kind_of_error(e),
            before.attempt == b.plan.max_retries,
            t.now,
        );
        let from = before.provider + 1;
        if scan(h, b.plan.names, from, t.now).1 is Some {
            law_tries_first_available(h, b.plan.names, from, t.now);
        }
    }
}

/// A first call comes at once; before each retry the pause is twice as long as
/// the one before, and at most half a minute.
pub proof fn law_pauses_double(b: Start, turns: Seq<Turn>)
    requires
        is_request(b, turns),
        standing(b, turns) is Calling,
    ensures
        ({
            let s = standing(b, turns)->state;
            let wait = standing(b, turns)->wait_ms;
            if s.attempt == 0 {
                wait == 0
            } else {
                let pause = b.plan.initial_backoff_ms * pow2((s.attempt - 1) as nat);
                wait == if pause <= 30_000 {
                    pause as int
                } else {
                    30_000
                }
            }
        }),
{
    lemma_backoff(b, turns);
}

/// `ms` doubled `n` times, as far as it can be represented.
spec fn grown(ms: u64, n: nat) -> int {
    if ms * pow2(n) <= u64::MAX {
        ms * pow2(n)
    } else {
        u64::MAX as int
    }
}

proof fn lemma_grown(ms: u64, n: nat)
    ensures
        grown(ms, 0) == ms,
        doubled(grown(ms, n) as u64) == grown(ms, n + 1),
        0 <= grown(ms, n) <= u64::MAX,
{
    lemma_pow2_unfold(n + 1);
    lemma_pow2_pos(n);
    vstd::arithmetic::power2::lemma2_to64();
    let p = pow2(n) as int;
    let q = pow2(n + 1) as int;
    assert(ms * q == 2 * (ms * p)) by (nonlinear_arith)
        requires
            q == 2 * p,
    ;
    assert(0 <= ms * p) by (nonlinear_arith)
        requires
            0 < p,
            0 <= ms,
    ;
    assert(ms * pow2(0) == ms) by (nonlinear_arith)
        requires
            pow2(0) == 1,
    ;
}

proof fn lemma_backoff(b: Start, turns: Seq<Turn>)
    requires
        is_request(b, turns),
        standing(b, turns) is Calling,
    ensures
        ({
            let s = standing(b, turns)->state;
            let wait = standing(b, turns)->wait_ms;
            &&& s.backoff_ms == grown(b.plan.initial_backoff_ms, s.attempt as nat)
            &&& s.attempt == 0 ==> wait == 0
            &&& s.attempt > 0 ==> wait == min_u64(
                grown(b.plan.initial_backoff_ms, (s.attempt - 1) as nat) as u64,
                MAX_BACKOFF_MS,
            )
        }),
    decreases turns.len(),
{
    lemma_grown(b.plan.initial_backoff_ms, 0);
    lemma_accounted(b, turns);
    if turns.len() > 0 {
        let head = turns.drop_last();
        lemma_request_before(b, turns);
        lemma_accounted(b, head);
        lemma_backoff(b, head);
        let before = standing(b, head)->state;
        lemma_next_state(b, before, turns.last());
        lemma_grown(b.plan.initial_backoff_ms, before.attempt as nat);
    }
}

/// A request makes at most one call and `max_retries` more to each provider.
pub proof fn law_request_ends(b: Start, turns: Seq<Turn>)
    requires
        is_request(b, turns),
    ensures
        turns.len() <= b.plan.names.len() * (b.plan.max_retries + 1),
{
    let m = b.plan.max_retries + 1;
    if turns.len() > 0 {
        let head = turns.drop_last();
        lemma_request_before(b, turns);
        lemma_accounted(b, head);
        lemma_calls(b, head);
        let s = standing(b, head)->state;
        let k = b.plan.names.len() as int;
        assert(s.provider * m + m <= k * m) by (nonlinear_arith)
            requires
                s.provider + 1 <= k,
                0 <= m,
        ;
    } else {
        assert(0 <= b.plan.names.len() * m) by (nonlinear_arith)
            requires
                0 <= m,
        ;
    }
}

proof fn lemma_calls(b: Start, turns: Seq<Turn>)
    requires
        is_request(b, turns),
        standing(b, turns) is Calling,
    ensures
        ({
            let s = standing(b, turns)->state;
            turns.len() <= s.provider * (b.plan.max_retries + 1) + s.attempt
        }),
    decreases turns.len(),
{
    let m = b.plan.max_retries + 1;
    let s = standing(b, turns)->state;
    if turns.len() > 0 {
        let head = turns.drop_last();
        lemma_request_before(b, turns);
        lemma_accounted(b, head);
        lemma_calls(b, head);
        let before = standing(b, head)->state;
        lemma_next_state(b, before, turns.last());
        if s.provider > before.provider {
            assert(before.provider * m + m <= s.provider * m) by (nonlinear_arith)
                requires
                    before.provider + 1 <= s.provider,
                    0 <= m,
            ;
        }
    } else {
        assert(0 <= s.provider * m) by (nonlinear_arith)
            requires
                0 <= m,
                0 <= s.provider,
        ;
    }
}

} // verus!
