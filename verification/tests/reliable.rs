use adaclaw::model::provider::ProviderCapabilities;
use adaclaw::providers::error::{ChatError, ProviderError, ProviderErrorKind};
use adaclaw::providers::reliable::{
    ChainOutcome, ChainProvider, ChainStep, Cooldown, CooldownTracker, ReliabilityChain,
};

#[test]
fn test_cooldown_formula_1_failure() {
    assert_eq!(CooldownTracker::calculate_cooldown(1), 60);
}

#[test]
fn test_cooldown_formula_2_failures() {
    assert_eq!(CooldownTracker::calculate_cooldown(2), 300);
}

#[test]
fn test_cooldown_formula_3_failures() {
    assert_eq!(CooldownTracker::calculate_cooldown(3), 1500);
}

#[test]
fn test_cooldown_formula_4plus_failures_capped() {
    assert_eq!(CooldownTracker::calculate_cooldown(4), 3600);
    assert_eq!(CooldownTracker::calculate_cooldown(10), 3600);
}

#[test]
fn test_cooldown_tracker_not_in_cooldown_initially() {
    let mut tracker = CooldownTracker::new();
    assert!(!tracker.is_in_cooldown("openai", 1000));
}

#[test]
fn test_cooldown_tracker_opens_after_first_failure() {
    let mut tracker = CooldownTracker::new();
    tracker.record_failure("openai", 1000);
    assert!(tracker.is_in_cooldown("openai", 1000));
}

#[test]
fn test_cooldown_tracker_success_resets() {
    let mut tracker = CooldownTracker::new();
    tracker.record_failure("openai", 1000);
    assert!(tracker.is_in_cooldown("openai", 1000));
    tracker.record_success("openai");
    assert!(!tracker.is_in_cooldown("openai", 1000));
}

#[test]
fn test_cooldown_tracker_independent_providers() {
    let mut tracker = CooldownTracker::new();
    tracker.record_failure("openai", 1000);
    assert!(tracker.is_in_cooldown("openai", 1000));
    assert!(!tracker.is_in_cooldown("anthropic", 1000));
}

#[test]
fn test_cooldown_tracker_auto_recovery() {
    let mut tracker = CooldownTracker::new();
    let now: u64 = 5000;
    tracker.cooldowns.insert("openai", Cooldown { since_ms: now - 100, duration_ms: 50 });
    assert!(!tracker.is_in_cooldown("openai", now));
}

#[test]
fn test_cooldown_remaining() {
    let mut tracker = CooldownTracker::new();
    assert_eq!(tracker.cooldown_remaining("openai", 1000), 0);
    tracker.record_failure("openai", 1000);
    let remaining = tracker.cooldown_remaining("openai", 1001);
    assert!(remaining > 58_000);
    assert!(remaining <= 60_000);
    assert_eq!(remaining, 59_999);
}

#[test]
fn test_error_kind_retryable_server() {
    let e = ProviderError::from_status(500, "internal server error", None);
    assert!(e.kind.is_retryable());
    assert!(e.kind.counts_as_circuit_failure());
}

#[test]
fn test_error_kind_retryable_timeout() {
    let e = ProviderError::from_status(408, "request timeout", None);
    assert!(e.kind.is_retryable());
    assert!(e.kind.counts_as_circuit_failure());
}

#[test]
fn test_error_kind_not_retryable_auth() {
    let e = ProviderError::from_status(401, "unauthorized", None);
    assert!(!e.kind.is_retryable());
    assert!(!e.kind.counts_as_circuit_failure());
}

#[test]
fn test_error_kind_not_retryable_bad_request() {
    let e = ProviderError::from_status(400, "bad request", None);
    assert!(!e.kind.is_retryable());
    assert!(!e.kind.counts_as_circuit_failure());
}

#[test]
fn test_error_kind_billing_not_retryable_but_counts_failure() {
    let e = ProviderError::from_status(402, "payment required", None);
    assert_eq!(e.kind, ProviderErrorKind::Billing);
    assert!(!e.kind.is_retryable());
    assert!(e.kind.counts_as_circuit_failure());
}

#[test]
fn test_error_kind_rate_limit_not_retryable_but_counts_failure() {
    let e = ProviderError::from_status(429, "too many requests", Some(30));
    assert_eq!(e.kind, ProviderErrorKind::RateLimit);
    assert!(!e.kind.is_retryable());
    assert!(e.kind.counts_as_circuit_failure());
    assert_eq!(e.retry_after_secs, Some(30));
}

#[test]
fn test_has_available_provider_empty() {
    let mut chain = ReliabilityChain::new(vec![]);
    assert!(!chain.has_available_provider(0));
}

fn provider(name: &str) -> ChainProvider {
    ChainProvider {
        name: name.to_string(),
        capabilities: ProviderCapabilities {
            native_tool_calling: false,
            vision: false,
            streaming: false,
        },
    }
}

fn chain_of(names: &[&str], retries: u32) -> ReliabilityChain {
    ReliabilityChain::new(names.iter().map(|n| provider(n)).collect()).with_max_retries(retries)
}

/// Runs one request: each provider answers with its status, 200 for success.
/// Returns the provider that answered and the number of requests sent.
fn run(chain: &mut ReliabilityChain, statuses: &[u16], now: u64) -> Result<(usize, u32), String> {
    let mut state = chain.begin(now)?;
    let mut sent: u32 = 0;
    loop {
        let p = state.provider;
        sent += 1;
        let outcome = if statuses[p] == 200 {
            ChainOutcome::Success
        } else {
            ChainOutcome::Failure(ChatError::Provider(ProviderError::from_status(
                statuses[p],
                "mock error",
                None,
            )))
        };
        match chain.chat(state, &outcome, now) {
            None => return Ok((p, sent)),
            Some(ChainStep::Call { wait_ms: _, state: next }) => state = next,
            Some(ChainStep::GiveUp) => return Err("gave up".to_string()),
        }
    }
}

#[test]
fn test_chain_falls_back_to_second_provider() {
    let mut chain = chain_of(&["p1", "p2"], 0);
    assert_eq!(run(&mut chain, &[500, 200], 0), Ok((1, 2)));
}

#[test]
fn test_auth_error_skips_provider_without_circuit() {
    let mut chain = chain_of(&["p1", "p2"], 3);
    assert_eq!(run(&mut chain, &[401, 200], 0), Ok((1, 2)));
    assert!(!chain.tracker.is_in_cooldown("p1", 0));
}

#[test]
fn test_bad_request_skips_provider_without_circuit() {
    let mut chain = chain_of(&["p1", "p2"], 3);
    assert_eq!(run(&mut chain, &[400, 200], 0), Ok((1, 2)));
    assert!(!chain.tracker.is_in_cooldown("p1", 0));
}

#[test]
fn test_rate_limit_skips_provider_and_counts_failure() {
    let mut chain = chain_of(&["p1", "p2"], 3);
    assert_eq!(run(&mut chain, &[429, 200], 0), Ok((1, 2)));
    assert!(chain.tracker.is_in_cooldown("p1", 0));
}

#[test]
fn test_billing_error_skips_provider_and_counts_failure() {
    let mut chain = chain_of(&["p1", "p2"], 3);
    assert_eq!(run(&mut chain, &[402, 200], 0), Ok((1, 2)));
    assert!(chain.tracker.is_in_cooldown("p1", 0));
}

#[test]
fn test_timeout_error_is_retryable() {
    let mut chain = chain_of(&["p1", "p2"], 0);
    assert_eq!(run(&mut chain, &[408, 200], 0), Ok((1, 2)));
    assert!(chain.tracker.is_in_cooldown("p1", 0));
}

#[test]
fn test_all_providers_fail_returns_error() {
    let mut chain = chain_of(&["p1", "p2"], 0);
    assert!(run(&mut chain, &[500, 500], 0).is_err());
}

#[test]
fn test_all_providers_in_cooldown_returns_clear_error() {
    let mut chain = chain_of(&["p1"], 0);
    let _ = run(&mut chain, &[500], 0);
    let result = run(&mut chain, &[500], 0);
    let err_msg = result.unwrap_err();
    assert!(err_msg.contains("circuit-breaker cooldown"));
    assert!(err_msg.starts_with("All 1 provider(s)"));
}

#[test]
fn retries_double_the_pause_up_to_a_limit() {
    let mut chain = chain_of(&["p1"], 4);
    chain.initial_backoff_ms = 20_000;
    let mut state = chain.begin(0).unwrap();
    let mut waits = Vec::new();
    loop {
        let failure = ChainOutcome::Failure(ChatError::Other("connection reset".to_string()));
        match chain.chat(state, &failure, 0) {
            Some(ChainStep::Call { wait_ms, state: next }) => {
                waits.push(wait_ms);
                state = next;
            }
            _ => break,
        }
    }
    assert_eq!(waits, vec![20_000, 30_000, 30_000, 30_000]);
    assert!(chain.tracker.is_in_cooldown("p1", 59_999));
    assert!(!chain.tracker.is_in_cooldown("p1", 60_000));
}

#[test]
fn repeated_failures_lengthen_the_cooldown() {
    let mut tracker = CooldownTracker::new();
    let mut seen = Vec::new();
    for _ in 0..5 {
        tracker.record_failure("p", 0);
        seen.push(tracker.cooldown_remaining("p", 0));
    }
    assert_eq!(seen, vec![60_000, 300_000, 1_500_000, 3_600_000, 3_600_000]);
}

#[test]
fn capabilities_follow_the_first_available_provider() {
    let mut p2 = provider("p2");
    p2.capabilities.vision = true;
    let mut chain = ReliabilityChain::new(vec![provider("p1"), p2]);
    assert!(!chain.capabilities(0).vision);
    chain.tracker.record_failure("p1", 0);
    assert!(chain.capabilities(0).vision);
    chain.tracker.record_failure("p2", 0);
    assert!(!chain.capabilities(0).vision);
    assert!(chain.capabilities(60_000).streaming == false);
}

#[test]
fn a_request_tries_each_provider_with_growing_pauses() {
    let mut chain = ReliabilityChain::new(vec![provider("p1"), provider("p2"), provider("p3")]);
    chain.tracker.record_failure("p2", 0);
    let mut state = chain.begin(0).unwrap();
    let mut calls = vec![(state.provider, 0)];
    loop {
        let failure = ChainOutcome::Failure(ChatError::Other("connection reset".to_string()));
        match chain.chat(state, &failure, 0) {
            Some(ChainStep::Call { wait_ms, state: next }) => {
                calls.push((next.provider, wait_ms));
                state = next;
            }
            _ => break,
        }
    }
    assert_eq!(
        calls,
        vec![
            (0, 0),
            (0, 1_000),
            (0, 2_000),
            (0, 4_000),
            (2, 0),
            (2, 1_000),
            (2, 2_000),
            (2, 4_000),
        ]
    );
}
