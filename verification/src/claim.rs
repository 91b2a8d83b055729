use vstd::prelude::*;
use vstd::seq_lib::lemma_multiset_commutative;
use vstd::string::StringSliceAdditionalSpecFns;

verus! {

/// The locked-stake slots that a claim covers are `0..LOCKED_STAKE_SLOTS`.
pub const LOCKED_STAKE_SLOTS: u8 = 32;

/// A simulated claim that consumes this many compute units or more is judged
/// too heavy to land.
pub const MAX_CLAIM_COMPUTE_UNITS: u64 = 1_000_000;

/// Simulations that fail for a missing blockhash are tried this many times.
pub const MAX_SIMULATION_ATTEMPTS: u32 = 50;

/// Whether a simulated claim may be sent: it consumed some compute units,
/// fewer than `MAX_CLAIM_COMPUTE_UNITS`.
pub open spec fn compute_units_acceptable(simulated_compute_units: u64) -> bool {
    simulated_compute_units < MAX_CLAIM_COMPUTE_UNITS && simulated_compute_units != 0
}

/// The slots still to claim for one `UserStaking` account: those of the next
/// transaction, and those postponed to a later one.
pub struct ClaimStakesPlan {
    remaining: Vec<u8>,
    postponed: Vec<u8>,
}

/// The mathematical value of a `ClaimStakesPlan`.
pub struct ClaimStakesPlanView {
    pub remaining: Seq<u8>,
    pub postponed: Seq<u8>,
}

impl View for ClaimStakesPlan {
    type V = ClaimStakesPlanView;

    closed spec fn view(&self) -> ClaimStakesPlanView {
        ClaimStakesPlanView { remaining: self.remaining@, postponed: self.postponed@ }
    }
}

/// What to do after a claim transaction was simulated.
pub enum ClaimStep {
    /// The transaction was too heavy: the slot `index` was moved to a later
    /// transaction; simulate again.
    Postpone { index: u8 },
    /// Send the claim of these slots.
    Send { indices: Vec<u8> },
}

/// The slots that a step sends.
pub open spec fn sent_indices(step: ClaimStep) -> Seq<u8> {
    match step {
        ClaimStep::Postpone { .. } => Seq::empty(),
        ClaimStep::Send { indices } => indices@,
    }
}

/// The slots a plan starts with: every slot, in increasing order.
pub open spec fn all_slots() -> Seq<u8> {
    Seq::new(LOCKED_STAKE_SLOTS as nat, |i: int| i as u8)
}

/// The plan after a simulation that consumed `simulated_compute_units`, and
/// the slots sent. A heavy simulation moves the last remaining slot to the end
/// of the postponed ones; an acceptable one sends the remaining slots and
/// makes the postponed ones the remaining ones.
pub open spec fn claim_transition(
    plan: ClaimStakesPlanView,
    simulated_compute_units: u64,
) -> (ClaimStakesPlanView, Seq<u8>) {
    if compute_units_acceptable(simulated_compute_units) {
        (ClaimStakesPlanView { remaining: plan.postponed, postponed: Seq::empty() }, plan.remaining)
    } else {
        (
            ClaimStakesPlanView {
                remaining: plan.remaining.drop_last(),
                postponed: plan.postponed.push(plan.remaining.last()),
            },
            Seq::empty(),
        )
    }
}

/// The slots a plan still holds.
pub open spec fn pending(plan: ClaimStakesPlanView) -> Seq<u8> {
    plan.remaining + plan.postponed
}

impl ClaimStakesPlan {
    /// A plan that claims every slot in one transaction, if it is light enough.
    pub fn new() -> (plan: ClaimStakesPlan)
        ensures
            plan@.remaining == all_slots(),
            plan@.postponed == Seq::<u8>::empty(),
    {
        let mut remaining: Vec<u8> = Vec::new();
        let mut i: u8 = 0;
        while i < LOCKED_STAKE_SLOTS
            invariant
                0 <= i <= LOCKED_STAKE_SLOTS,
                remaining@ == all_slots().take(i as int),
            decreases LOCKED_STAKE_SLOTS - i,
        {
            remaining.push(i);
            proof {
                assert(all_slots().take(i + 1) =~= all_slots().take(i as int).push(i));
            }
            i = i + 1;
        }
        proof {
            assert(all_slots().take(i as int) =~= all_slots());
        }
        ClaimStakesPlan { remaining, postponed: Vec::new() }
    }

    /// Whether every slot has been sent.
    pub fn is_finished(&self) -> (finished: bool)
        ensures
            finished == (self@.remaining.len() == 0 && self@.postponed.len() == 0),
    {
        self.remaining.len() == 0 && self.postponed.len() == 0
    }

    /// The slots that the next transaction claims.
    pub fn indices_to_claim(&self) -> (indices: Vec<u8>)
        ensures
            indices@ == self@.remaining,
    {
        let mut indices: Vec<u8> = Vec::new();
        let mut i: usize = 0;
        while i < self.remaining.len()
            invariant
                0 <= i <= self.remaining@.len(),
                indices@ == self.remaining@.take(i as int),
            decreases self.remaining@.len() - i,
        {
            indices.push(self.remaining[i]);
            proof {
                assert(self.remaining@.take(i + 1) =~= self.remaining@.take(i as int).push(
                    self.remaining@[i as int],
                ));
            }
            i = i + 1;
        }
        proof {
            assert(self.remaining@.take(i as int) =~= self.remaining@);
        }
        indices
    }

    /// Takes the outcome of simulating the claim of the remaining slots and
    /// says what to do next. A heavy simulation needs a slot to postpone.
    pub fn record_simulation(&mut self, simulated_compute_units: u64) -> (step: ClaimStep)
        requires
            compute_units_acceptable(simulated_compute_units) || old(self)@.remaining.len() > 0,
        ensures
            (final(self)@, sent_indices(step)) == claim_transition(
                old(self)@,
                simulated_compute_units,
            ),
            compute_units_acceptable(simulated_compute_units) <==> step is Send,
            step matches ClaimStep::Postpone { index } ==> index == old(self)@.remaining.last(),
            !compute_units_acceptable(simulated_compute_units) ==> {
                &&& final(self)@.remaining == old(self)@.remaining.drop_last()
                &&& final(self)@.postponed == old(self)@.postponed.push(old(self)@.remaining.last())
            },
            compute_units_acceptable(simulated_compute_units) ==> {
                &&& step matches ClaimStep::Send { indices }
                &&& indices@ == old(self)@.remaining
                &&& final(self)@.remaining == old(self)@.postponed
                &&& final(self)@.postponed.len() == 0
            },
            compute_units_acceptable(simulated_compute_units) <==> (simulated_compute_units
                < 1_000_000 && simulated_compute_units != 0),
    {
        if simulated_compute_units >= MAX_CLAIM_COMPUTE_UNITS || simulated_compute_units == 0 {
            let index = self.remaining.pop().unwrap();
            self.postponed.push(index);
            ClaimStep::Postpone { index }
        } else {
            let mut indices: Vec<u8> = Vec::new();
            let mut postponed: Vec<u8> = Vec::new();
            std::mem::swap(&mut indices, &mut self.remaining);
            std::mem::swap(&mut postponed, &mut self.postponed);
            self.remaining = postponed;
            ClaimStep::Send { indices }
        }
    }
}

/// A step neither loses nor duplicates a slot: the slots pending before it
/// are, counted with multiplicity, those pending after it and those it sent.
pub proof fn lemma_claim_step_conserves_slots(plan: ClaimStakesPlanView, simulated_compute_units: u64)
    requires
        compute_units_acceptable(simulated_compute_units) || plan.remaining.len() > 0,
    ensures
        ({
            let (next, sent) = claim_transition(plan, simulated_compute_units);
            pending(plan).to_multiset() == pending(next).to_multiset().add(sent.to_multiset())
        }),
{
    broadcast use vstd::multiset::group_multiset_axioms;

    let (next, sent) = claim_transition(plan, simulated_compute_units);
    if compute_units_acceptable(simulated_compute_units) {
        assert(pending(next) =~= plan.postponed);
        assert(sent == plan.remaining);
        lemma_multiset_commutative(plan.remaining, plan.postponed);
        assert(pending(plan).to_multiset() =~= pending(next).to_multiset().add(
            sent.to_multiset(),
        ));
    } else {
        let r = plan.remaining;
        let last = r.last();
        assert(r =~= r.drop_last().push(last));
        assert(sent =~= Seq::<u8>::empty());
        vstd::seq_lib::to_multiset_len(sent);
        vstd::multiset::lemma_multiset_empty_len(sent.to_multiset());
        lemma_multiset_commutative(r, plan.postponed);
        lemma_multiset_commutative(r.drop_last(), plan.postponed.push(last));
        r.drop_last().to_multiset_ensures();
        plan.postponed.to_multiset_ensures();
        assert(pending(plan).to_multiset() =~= pending(next).to_multiset().add(
            sent.to_multiset(),
        ));
    }
}

/// The plan and the slots sent, in order, after the simulations of a run
/// consumed `compute_units`, one step each.
pub open spec fn run_claims(plan: ClaimStakesPlanView, compute_units: Seq<u64>) -> (
    ClaimStakesPlanView,
    Seq<u8>,
)
    decreases compute_units.len(),
{
    if compute_units.len() == 0 {
        (plan, Seq::empty())
    } else {
        let (before_last, sent) = run_claims(plan, compute_units.drop_last());
        let (next, last_sent) = claim_transition(before_last, compute_units.last());
        (next, sent + last_sent)
    }
}

/// Whether every step of a run had a slot to postpone where it needed one.
pub open spec fn run_is_possible(plan: ClaimStakesPlanView, compute_units: Seq<u64>) -> bool
    decreases compute_units.len(),
{
    if compute_units.len() == 0 {
        true
    } else {
        let (before_last, _) = run_claims(plan, compute_units.drop_last());
        &&& run_is_possible(plan, compute_units.drop_last())
        &&& (compute_units_acceptable(compute_units.last()) || before_last.remaining.len() > 0)
    }
}

/// Over a whole run, the slots pending at the start are, counted with
/// multiplicity, those still pending and those sent.
pub proof fn lemma_run_conserves_slots(plan: ClaimStakesPlanView, compute_units: Seq<u64>)
    requires
        run_is_possible(plan, compute_units),
    ensures
        ({
            let (last, sent) = run_claims(plan, compute_units);
            pending(plan).to_multiset() == pending(last).to_multiset().add(sent.to_multiset())
        }),
    decreases compute_units.len(),
{
    broadcast use vstd::multiset::group_multiset_axioms;

    if compute_units.len() == 0 {
        let sent = Seq::<u8>::empty();
        vstd::seq_lib::to_multiset_len(sent);
        vstd::multiset::lemma_multiset_empty_len(sent.to_multiset());
        assert(pending(plan).to_multiset() =~= pending(plan).to_multiset().add(sent.to_multiset()));
    } else {
        let rest = compute_units.drop_last();
        lemma_run_conserves_slots(plan, rest);
        let (before_last, sent) = run_claims(plan, rest);
        lemma_claim_step_conserves_slots(before_last, compute_units.last());
        let (next, last_sent) = claim_transition(before_last, compute_units.last());
        lemma_multiset_commutative(sent, last_sent);
        assert(pending(plan).to_multiset() =~= pending(next).to_multiset().add(
            (sent + last_sent).to_multiset(),
        ));
    }
}

/// A run that starts from a new plan and finishes has sent every slot exactly
/// once.
pub proof fn lemma_finished_run_claims_every_slot_once(compute_units: Seq<u64>)
    requires
        run_is_possible(ClaimStakesPlanView { remaining: all_slots(), postponed: Seq::empty() }, compute_units),
        ({
            let (last, _) = run_claims(
                ClaimStakesPlanView { remaining: all_slots(), postponed: Seq::empty() },
                compute_units,
            );
            last.remaining.len() == 0 && last.postponed.len() == 0
        }),
    ensures
        ({
            let (_, sent) = run_claims(
                ClaimStakesPlanView { remaining: all_slots(), postponed: Seq::empty() },
                compute_units,
            );
            sent.to_multiset() == all_slots().to_multiset()
        }),
{
    broadcast use vstd::multiset::group_multiset_axioms;

    let start = ClaimStakesPlanView { remaining: all_slots(), postponed: Seq::empty() };
    lemma_run_conserves_slots(start, compute_units);
    let (last, sent) = run_claims(start, compute_units);
    assert(pending(start) =~= all_slots());
    assert(pending(last) =~= Seq::<u8>::empty());
    vstd::seq_lib::to_multiset_len(pending(last));
    vstd::multiset::lemma_multiset_empty_len(pending(last).to_multiset());
    assert(sent.to_multiset() =~= all_slots().to_multiset());
}

// ---------------------------------------------------------------------------
// Simulation retries.
// ---------------------------------------------------------------------------

/// Whether `needle` occurs as a contiguous run of bytes in `haystack`.
pub open spec fn occurs_in(needle: Seq<u8>, haystack: Seq<u8>) -> bool {
    exists|i: int|
        0 <= i && i + needle.len() <= haystack.len() && #[trigger] haystack.subrange(
            i,
            i + needle.len(),
        ) == needle
}

/// Whether `needle` occurs as a contiguous run of bytes in `haystack`.
pub fn contains_bytes(haystack: &[u8], needle: &[u8]) -> (found: bool)
    ensures
        found == occurs_in(needle@, haystack@),
{
    if needle.len() > haystack.len() {
        proof {
            assert forall|i: int|
                0 <= i && i + needle@.len() <= haystack@.len() implies #[trigger] haystack@.subrange(
                i,
                i + needle@.len(),
            ) != needle@ by {}
        }
        return false;
    }
    let last_start = haystack.len() - needle.len();
    let mut start: usize = 0;
    while start <= last_start
        invariant
            last_start + needle@.len() == haystack@.len(),
            haystack@.len() <= usize::MAX,
            0 <= start <= last_start + 1,
            forall|i: int|
                0 <= i < start ==> #[trigger] haystack@.subrange(i, i + needle@.len()) != needle@,
        decreases last_start + 1 - start,
    {
        let mut j: usize = 0;
        let mut matched = true;
        while j < needle.len()
            invariant
                0 <= j <= needle@.len(),
                start + needle@.len() <= haystack@.len(),
                haystack@.len() <= usize::MAX,
                matched == (forall|k: int| 0 <= k < j ==> haystack@[start + k] == needle@[k]),
            decreases needle@.len() - j,
        {
            if haystack[start + j] != needle[j] {
                matched = false;
            }
            j = j + 1;
        }
        if matched {
            proof {
                assert(haystack@.subrange(start as int, start + needle@.len()) =~= needle@);
            }
            return true;
        }
        proof {
            let k = choose|k: int| 0 <= k < needle@.len() && haystack@[start + k] != needle@[k];
            assert(haystack@.subrange(start as int, start + needle@.len())[k] != needle@[k]);
        }
        start = start + 1;
    }
    proof {
        assert forall|i: int|
            0 <= i && i + needle@.len() <= haystack@.len() implies #[trigger] haystack@.subrange(
            i,
            i + needle@.len(),
        ) != needle@ by {}
    }
    false
}

/// The text that marks a simulation that failed for a missing blockhash.
pub open spec fn blockhash_not_found() -> Seq<u8> {
    "BlockhashNotFound".spec_bytes()
}

/// The marker is the 17 ASCII bytes of `BlockhashNotFound`, nothing more.
pub proof fn lemma_blockhash_not_found_is_the_literal()
    ensures
        blockhash_not_found() == seq![
            66u8, 108, 111, 99, 107, 104, 97, 115, 104, 78, 111, 116, 70, 111, 117, 110, 100,
        ],
{
    reveal_strlit("BlockhashNotFound");
    vstd::string::is_ascii_spec_bytes("BlockhashNotFound");
    assert(blockhash_not_found() =~= seq![
        66u8, 108, 111, 99, 107, 104, 97, 115, 104, 78, 111, 116, 70, 111, 117, 110, 100,
    ]);
}

/// The marker is found wherever it stands in an error text, also at its very
/// end: any text made of a prefix, the 17 bytes of `BlockhashNotFound` and a
/// suffix contains the marker.
pub proof fn lemma_blockhash_not_found_found_anywhere(prefix: Seq<u8>, suffix: Seq<u8>)
    ensures
        occurs_in(
            blockhash_not_found(),
            prefix + seq![
                66u8, 108, 111, 99, 107, 104, 97, 115, 104, 78, 111, 116, 70, 111, 117, 110, 100,
            ] + suffix,
        ),
{
    lemma_blockhash_not_found_is_the_literal();
    let marker = seq![
        66u8, 108, 111, 99, 107, 104, 97, 115, 104, 78, 111, 116, 70, 111, 117, 110, 100,
    ];
    let text = prefix + marker + suffix;
    let i = prefix.len() as int;
    assert(text.subrange(i, i + marker.len()) =~= marker);
}

/// What to do after a simulation request failed.
#[derive(Clone, Copy, Debug, PartialEq, Eq)]
pub enum SimulationFailureAction {
    /// Pause briefly and simulate again.
    PauseThenRetry,
    /// Pause briefly, then give up with the error.
    PauseThenGiveUp,
    /// Simulate again at once.
    RetryNow,
}

/// Decides what follows a failed simulation, given the attempts already
/// counted and the error's text: a missing blockhash counts one more attempt
/// and pauses, and the attempts run out at `MAX_SIMULATION_ATTEMPTS`; any other
/// error is retried at once without being counted.
pub fn on_simulation_error(attempts: u32, error_text: &[u8]) -> (outcome: (
    u32,
    SimulationFailureAction,
))
    requires
        attempts < u32::MAX,
    ensures
        occurs_in(blockhash_not_found(), error_text@) ==> {
            &&& outcome.0 == attempts + 1
            &&& outcome.1 == if attempts + 1 >= MAX_SIMULATION_ATTEMPTS {
                SimulationFailureAction::PauseThenGiveUp
            } else {
                SimulationFailureAction::PauseThenRetry
            }
        },
        !occurs_in(blockhash_not_found(), error_text@) ==> outcome == (
            attempts,
            SimulationFailureAction::RetryNow,
        ),
        occurs_in(
            seq![66u8, 108, 111, 99, 107, 104, 97, 115, 104, 78, 111, 116, 70, 111, 117, 110, 100],
            error_text@,
        ) <==> outcome.0 == attempts + 1,
        occurs_in(
            seq![66u8, 108, 111, 99, 107, 104, 97, 115, 104, 78, 111, 116, 70, 111, 117, 110, 100],
            error_text@,
        ) <==> outcome.1 != SimulationFailureAction::RetryNow,
{
    proof {
        lemma_blockhash_not_found_is_the_literal();
    }
    let marker = "BlockhashNotFound".as_bytes();
    if contains_bytes(error_text, marker) {
        let attempts = attempts + 1;
        if attempts >= MAX_SIMULATION_ATTEMPTS {
            (attempts, SimulationFailureAction::PauseThenGiveUp)
        } else {
            (attempts, SimulationFailureAction::PauseThenRetry)
        }
    } else {
        (attempts, SimulationFailureAction::RetryNow)
    }
}

} // verus!
