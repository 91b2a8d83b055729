use staking_keeper::claim::{
    contains_bytes, on_simulation_error, ClaimStakesPlan, ClaimStep, SimulationFailureAction,
    MAX_SIMULATION_ATTEMPTS,
};

fn sent(step: ClaimStep) -> Vec<u8> {
    match step {
        ClaimStep::Send { indices } => indices,
        ClaimStep::Postpone { .. } => vec![],
    }
}

#[test]
fn new_plan_claims_every_slot_at_once() {
    let plan = ClaimStakesPlan::new();
    assert_eq!(plan.indices_to_claim(), (0..32).collect::<Vec<u8>>());
    assert!(!plan.is_finished());
}

#[test]
fn light_simulation_sends_all_remaining_slots() {
    let mut plan = ClaimStakesPlan::new();
    let step = plan.record_simulation(500_000);
    assert_eq!(sent(step), (0..32).collect::<Vec<u8>>());
    assert!(plan.is_finished());
}

#[test]
fn heavy_simulation_postpones_the_last_slot() {
    let mut plan = ClaimStakesPlan::new();
    let step = plan.record_simulation(1_000_000);
    assert!(matches!(step, ClaimStep::Postpone { index: 31 }));
    assert_eq!(plan.indices_to_claim(), (0..31).collect::<Vec<u8>>());
    let step = plan.record_simulation(2_000_000);
    assert!(matches!(step, ClaimStep::Postpone { index: 30 }));
    let step = plan.record_simulation(999_999);
    assert_eq!(sent(step), (0..30).collect::<Vec<u8>>());
    assert_eq!(plan.indices_to_claim(), vec![31, 30]);
    let step = plan.record_simulation(10);
    assert_eq!(sent(step), vec![31, 30]);
    assert!(plan.is_finished());
}

#[test]
fn zero_compute_units_counts_as_too_heavy() {
    let mut plan = ClaimStakesPlan::new();
    let step = plan.record_simulation(0);
    assert!(matches!(step, ClaimStep::Postpone { index: 31 }));
}

#[test]
fn every_slot_is_sent_exactly_once() {
    let mut plan = ClaimStakesPlan::new();
    let mut all_sent: Vec<u8> = vec![];
    let mut rounds = 0;
    while !plan.is_finished() {
        // Claims of more than 8 slots are too heavy.
        let cu = if plan.indices_to_claim().len() > 8 { 1_200_000 } else { 200_000 };
        all_sent.extend(sent(plan.record_simulation(cu)));
        rounds += 1;
        assert!(rounds < 1_000);
    }
    all_sent.sort();
    assert_eq!(all_sent, (0..32).collect::<Vec<u8>>());
}

#[test]
fn missing_blockhash_pauses_and_counts() {
    let text = b"RPC error: BlockhashNotFound while simulating";
    assert_eq!(on_simulation_error(0, text), (1, SimulationFailureAction::PauseThenRetry));
    assert_eq!(on_simulation_error(48, text), (49, SimulationFailureAction::PauseThenRetry));
    assert_eq!(
        on_simulation_error(MAX_SIMULATION_ATTEMPTS - 1, text),
        (MAX_SIMULATION_ATTEMPTS, SimulationFailureAction::PauseThenGiveUp)
    );
}

#[test]
fn other_simulation_errors_are_retried_without_counting() {
    assert_eq!(on_simulation_error(7, b"connection reset"), (7, SimulationFailureAction::RetryNow));
    assert_eq!(on_simulation_error(7, b"BlockhashNotFoun"), (7, SimulationFailureAction::RetryNow));
}

#[test]
fn contains_bytes_finds_runs() {
    assert!(contains_bytes(b"abcdef", b"cde"));
    assert!(contains_bytes(b"abcdef", b""));
    assert!(contains_bytes(b"abc", b"abc"));
    assert!(!contains_bytes(b"abc", b"abcd"));
    assert!(!contains_bytes(b"abcabd", b"abe"));
    assert!(contains_bytes(b"aaab", b"aab"));
}
