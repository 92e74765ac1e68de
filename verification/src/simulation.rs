//! A simulation: a fixed set of nodes, a threshold, and a schedule of rounds.

use crate::decimal::{label, labelled, lemma_label_injective};
use crate::entropy::Draw;
use crate::node::{fake_value, Node};
use crate::round::{
    ascending_ids, ballots_given, honest_nodes_endorse, honest_upto, in_id_order,
    lemma_honest_endorsements_decide, lemma_outcome_given_is_orderly,
    lemma_possible_outcome_is_orderly, outcome_given, outcome_of_votes, possible_outcome,
    RoundEvaluator, RoundResult, RoundView,
};
use crate::vote::VoteView;
use vstd::prelude::*;

verus! {

/// Why a simulation cannot be set up.
#[derive(Debug, Clone, Copy, PartialEq, Eq, Structural)]
pub enum ConfigurationError {
    /// There are no nodes at all.
    NoNodes,
    /// There are nodes, but fewer than `3f + 1` for `f` faulty ones.
    TooManyFaulty,
}

/// The parameters of a [`Simulation`].
pub struct SimulationView {
    /// How many nodes there are.
    pub total: nat,
    /// How many of them are faulty.
    pub faulty: nat,
    /// How many rounds follow the initial one.
    pub rounds: nat,
}

/// A simulation that has been set up. Its nodes and its threshold never
/// change.
#[derive(Debug)]
pub struct Simulation {
    nodes: Vec<Node>,
    faulty: usize,
    threshold: usize,
    rounds: u32,
}

/// Whether `n` nodes can bear `f` faulty ones: `n >= 3f + 1`.
pub open spec fn valid_config(n: nat, f: nat) -> bool {
    n >= 3 * f + 1
}

/// The error for `n` nodes of which `f` are faulty, where these are no valid
/// configuration.
pub open spec fn config_error(n: nat, f: nat) -> ConfigurationError {
    if n == 0 {
        ConfigurationError::NoNodes
    } else {
        ConfigurationError::TooManyFaulty
    }
}

/// The number of honest endorsements that make a quorum with `f` faulty
/// nodes: `2f + 1`.
pub open spec fn quorum_threshold(f: nat) -> nat {
    2 * f + 1
}

/// The nodes of a simulation: identities `0 .. n` in ascending order, the
/// first `f` of them faulty.
pub open spec fn roster(n: nat, f: nat) -> Seq<Node> {
    Seq::new(n, |i: int| Node { id: i as usize, byzantine: i < f })
}

/// The number in the proposal of round `k`. Round `0` is the initial round.
pub open spec fn round_number(k: nat) -> nat {
    if k == 0 {
        42
    } else {
        43 + k
    }
}

/// The proposal of round `k`: the text `BLOCK-` followed by the round's
/// number in decimal.
pub open spec fn round_proposal(k: nat) -> Seq<char> {
    label("BLOCK-"@, round_number(k))
}

/// The outcomes of all rounds of a simulation, the initial round first, when
/// node `i` draws `draws[k][i]` in round `k`.
pub open spec fn run_outcome(config: SimulationView, draws: Seq<Seq<Draw>>) -> Seq<RoundView> {
    Seq::new(
        config.rounds + 1,
        |k: int|
            outcome_given(
                round_proposal(k as nat),
                roster(config.total, config.faulty),
                quorum_threshold(config.faulty),
                draws[k],
            ),
    )
}

/// The results, each by its value.
pub open spec fn round_views(results: Seq<RoundResult>) -> Seq<RoundView> {
    Seq::new(results.len(), |k: int| results[k]@)
}

/// The draws of all rounds, each round's by its value.
pub open spec fn draw_views(draws: Seq<Vec<Draw>>) -> Seq<Seq<Draw>> {
    Seq::new(draws.len(), |k: int| draws[k]@)
}

/// What holds of every round of a simulation of `n` nodes with `f` faulty
/// ones, whatever the faulty nodes vote: the `n - f` honest nodes endorse the
/// proposal, which makes a quorum, and the votes stand in ascending order of
/// identity.
pub open spec fn decided(result: RoundView, n: nat, f: nat) -> bool {
    &&& result.honest_accept_count == n - f
    &&& result.threshold == quorum_threshold(f)
    &&& result.quorum_reached
    &&& in_id_order(result.votes)
}

/// The proposal of round `k`.
pub fn proposal_for_round(k: u32) -> (proposal: String)
    ensures
        proposal@ == round_proposal(k as nat),
{
    if k == 0 {
        labelled("BLOCK-", 42)
    } else {
        labelled("BLOCK-", 43 + k as u64)
    }
}

impl View for Simulation {
    type V = SimulationView;

    closed spec fn view(&self) -> SimulationView {
        SimulationView {
            total: self.nodes@.len(),
            faulty: self.faulty as nat,
            rounds: self.rounds as nat,
        }
    }
}

impl Simulation {
    #[verifier::type_invariant]
    spec fn well_formed(&self) -> bool {
        &&& valid_config(self.nodes@.len(), self.faulty as nat)
        &&& self.nodes@.len() <= usize::MAX
        &&& self.nodes@ == roster(self.nodes@.len(), self.faulty as nat)
        &&& self.threshold == quorum_threshold(self.faulty as nat)
    }

    /// Sets up a simulation of `n` nodes, the first `f` of them faulty, that
    /// runs an initial round and `rounds` more.
    ///
    /// Fails, before any round runs, unless `n >= 3f + 1`.
    pub fn new(n: usize, f: usize, rounds: u32) -> (made: Result<Simulation, ConfigurationError>)
        ensures
            match made {
                Ok(simulation) => valid_config(n as nat, f as nat) && simulation@ == (SimulationView {
                    total: n as nat,
                    faulty: f as nat,
                    rounds: rounds as nat,
                }),
                Err(error) => !valid_config(n as nat, f as nat) && error == config_error(
                    n as nat,
                    f as nat,
                ),
            },
    {
        if n == 0 {
            return Err(ConfigurationError::NoNodes);
        }
        // `n < 3f + 1`, written so that nothing overflows.
        if f > (n - 1) / 3 {
            return Err(ConfigurationError::TooManyFaulty);
        }
        let threshold: usize = 2 * f + 1;
        let mut nodes: Vec<Node> = Vec::new();
        let mut i: usize = 0;
        while i < n
            invariant
                i <= n,
                nodes@ == roster(i as nat, f as nat),
            decreases n - i,
        {
            nodes.push(Node::new(i, i < f));
            i += 1;
        }
        Ok(Simulation { nodes, faulty: f, threshold, rounds })
    }

    /// The nodes, in ascending order of identity.
    pub fn nodes(&self) -> (nodes: &Vec<Node>)
        ensures
            nodes@ == roster(self@.total, self@.faulty),
            ascending_ids(nodes@),
    {
        proof {
            use_type_invariant(self);
            lemma_roster_ascending(self@.total, self@.faulty);
        }
        &self.nodes
    }

    /// How many of the nodes are faulty.
    pub fn faulty(&self) -> (f: usize)
        ensures
            f == self@.faulty,
            valid_config(self@.total, self@.faulty),
    {
        proof {
            use_type_invariant(self);
        }
        self.faulty
    }

    /// How many honest endorsements make a quorum: `2f + 1`.
    pub fn threshold(&self) -> (threshold: usize)
        ensures
            threshold == quorum_threshold(self@.faulty),
    {
        proof {
            use_type_invariant(self);
        }
        self.threshold
    }

    /// How many rounds follow the initial one.
    pub fn rounds(&self) -> (rounds: u32)
        ensures
            rounds == self@.rounds,
    {
        self.rounds
    }

    /// Runs round `k` with the nodes' draws given: node `i` draws `draws[i]`.
    pub fn round_with(&self, k: u32, draws: &Vec<Draw>) -> (result: RoundResult)
        requires
            draws@.len() == self@.total,
        ensures
            result@ == outcome_given(
                round_proposal(k as nat),
                roster(self@.total, self@.faulty),
                quorum_threshold(self@.faulty),
                draws@,
            ),
            decided(result@, self@.total, self@.faulty),
    {
        proof {
            use_type_invariant(self);
            lemma_valid_round_given_is_decided(
                round_proposal(k as nat),
                self@.total,
                self@.faulty,
                draws@,
            );
        }
        let proposal = proposal_for_round(k);
        RoundEvaluator::evaluate_with(proposal.as_str(), &self.nodes, self.threshold, draws)
    }

    /// Runs round `k`, the faulty nodes voting at random. The round reaches
    /// quorum whatever they vote.
    pub fn round(&self, k: u32) -> (result: RoundResult)
        ensures
            possible_outcome(
                result@,
                round_proposal(k as nat),
                roster(self@.total, self@.faulty),
                quorum_threshold(self@.faulty),
            ),
            decided(result@, self@.total, self@.faulty),
    {
        proof {
            use_type_invariant(self);
        }
        let proposal = proposal_for_round(k);
        let result = RoundEvaluator::evaluate(proposal.as_str(), &self.nodes, self.threshold);
        proof {
            lemma_valid_round_is_decided(
                result@,
                round_proposal(k as nat),
                self@.total,
                self@.faulty,
            );
        }
        result
    }

    /// Runs the initial round and then the others, in order, with the nodes'
    /// draws given: in round `k`, node `i` draws `draws[k][i]`.
    ///
    /// Each result is that of its own round alone.
    pub fn run_with(&self, draws: &Vec<Vec<Draw>>) -> (results: Vec<RoundResult>)
        requires
            draws@.len() == self@.rounds + 1,
            forall|k: int| 0 <= k < draws@.len() ==> (#[trigger] draws@[k])@.len() == self@.total,
        ensures
            round_views(results@) == run_outcome(self@, draw_views(draws@)),
            forall|k: int|
                0 <= k < results@.len() ==> decided(
                    (#[trigger] results@[k])@,
                    self@.total,
                    self@.faulty,
                ),
    {
        let mut results: Vec<RoundResult> = Vec::new();
        let mut k: usize = 0;
        while k < draws.len()
            invariant
                k <= draws@.len(),
                draws@.len() == self@.rounds + 1,
                forall|j: int|
                    0 <= j < draws@.len() ==> (#[trigger] draws@[j])@.len() == self@.total,
                results@.len() == k,
                forall|j: int|
                    0 <= j < k ==> (#[trigger] results@[j])@ == outcome_given(
                        round_proposal(j as nat),
                        roster(self@.total, self@.faulty),
                        quorum_threshold(self@.faulty),
                        draws@[j]@,
                    ) && decided(results@[j]@, self@.total, self@.faulty),
            decreases draws@.len() - k,
        {
            let result = self.round_with(k as u32, &draws[k]);
            results.push(result);
            k += 1;
        }
        assert(round_views(results@) =~= run_outcome(self@, draw_views(draws@)));
        results
    }

    /// Runs the initial round and then the others, in order, the faulty nodes
    /// voting at random.
    ///
    /// Each result is a possible outcome of its own round alone, and every
    /// round reaches quorum.
    pub fn run(&self) -> (results: Vec<RoundResult>)
        ensures
            results@.len() == self@.rounds + 1,
            forall|k: int|
                0 <= k < results@.len() ==> possible_outcome(
                    (#[trigger] results@[k])@,
                    round_proposal(k as nat),
                    roster(self@.total, self@.faulty),
                    quorum_threshold(self@.faulty),
                ) && decided(results@[k]@, self@.total, self@.faulty),
    {
        let mut results: Vec<RoundResult> = Vec::new();
        let mut k: u64 = 0;
        while k <= self.rounds as u64
            invariant
                k <= self@.rounds + 1,
                self.rounds == self@.rounds,
                results@.len() == k,
                forall|j: int|
                    0 <= j < k ==> possible_outcome(
                        (#[trigger] results@[j])@,
                        round_proposal(j as nat),
                        roster(self@.total, self@.faulty),
                        quorum_threshold(self@.faulty),
                    ) && decided(results@[j]@, self@.total, self@.faulty),
            decreases self@.rounds + 1 - k,
        {
            let result = self.round(k as u32);
            results.push(result);
            k += 1;
        }
        results
    }
}

/// Sets up a simulation of `n` nodes, the first `f` of them faulty, and runs
/// its initial round and `rounds` more, the faulty nodes voting at random.
///
/// Fails, before any round runs, unless `n >= 3f + 1`.
pub fn run(n: usize, f: usize, rounds: u32) -> (outcome: Result<
    Vec<RoundResult>,
    ConfigurationError,
>)
    ensures
        match outcome {
            Ok(results) => {
                &&& valid_config(n as nat, f as nat)
                &&& results@.len() == rounds + 1
                &&& forall|k: int|
                    0 <= k < results@.len() ==> possible_outcome(
                        (#[trigger] results@[k])@,
                        round_proposal(k as nat),
                        roster(n as nat, f as nat),
                        quorum_threshold(f as nat),
                    ) && decided(results@[k]@, n as nat, f as nat)
            },
            Err(error) => !valid_config(n as nat, f as nat) && error == config_error(
                n as nat,
                f as nat,
            ),
        },
{
    match Simulation::new(n, f, rounds) {
        Ok(simulation) => Ok(simulation.run()),
        Err(error) => Err(error),
    }
}

/// Among the first `m` nodes of a roster, those after the first `f` are
/// honest.
pub proof fn lemma_roster_honest_upto(n: nat, f: nat, m: nat)
    requires
        m <= n,
    ensures
        honest_upto(roster(n, f), m) == if m <= f {
            0
        } else {
            m - f
        },
    decreases m,
{
    if m > 0 {
        lemma_roster_honest_upto(n, f, (m - 1) as nat);
    }
}

/// The identities of a roster strictly ascend.
pub proof fn lemma_roster_ascending(n: nat, f: nat)
    requires
        n <= usize::MAX,
    ensures
        ascending_ids(roster(n, f)),
{
}

/// In a valid configuration, votes in which the honest nodes endorse the
/// proposal make a quorum, whatever the faulty nodes voted: `n - f` honest
/// nodes endorse, and `n - f >= 2f + 1`.
pub proof fn lemma_honest_endorsements_make_quorum(
    proposal: Seq<char>,
    n: nat,
    f: nat,
    votes: Seq<(usize, VoteView)>,
)
    requires
        valid_config(n, f),
        honest_nodes_endorse(proposal, roster(n, f), votes),
    ensures
        outcome_of_votes(proposal, roster(n, f), quorum_threshold(f), votes).honest_accept_count
            == n - f,
        outcome_of_votes(proposal, roster(n, f), quorum_threshold(f), votes).quorum_reached,
{
    lemma_honest_endorsements_decide(proposal, roster(n, f), quorum_threshold(f), votes);
    lemma_roster_honest_upto(n, f, n);
}

/// In a valid configuration every outcome that a round can have is decided.
pub proof fn lemma_valid_round_is_decided(result: RoundView, proposal: Seq<char>, n: nat, f: nat)
    requires
        valid_config(n, f),
        n <= usize::MAX,
        possible_outcome(result, proposal, roster(n, f), quorum_threshold(f)),
    ensures
        decided(result, n, f),
{
    lemma_possible_outcome_is_orderly(result, proposal, roster(n, f), quorum_threshold(f));
    lemma_honest_endorsements_make_quorum(proposal, n, f, result.votes);
    lemma_roster_ascending(n, f);
}

/// In a valid configuration the outcome of a round by its draws is decided,
/// whatever is drawn.
pub proof fn lemma_valid_round_given_is_decided(
    proposal: Seq<char>,
    n: nat,
    f: nat,
    draws: Seq<Draw>,
)
    requires
        valid_config(n, f),
        n <= usize::MAX,
    ensures
        decided(outcome_given(proposal, roster(n, f), quorum_threshold(f), draws), n, f),
{
    lemma_outcome_given_is_orderly(proposal, roster(n, f), quorum_threshold(f), draws);
    lemma_honest_endorsements_make_quorum(
        proposal,
        n,
        f,
        ballots_given(proposal, roster(n, f), draws),
    );
    lemma_roster_ascending(n, f);
}

/// Distinct rounds have distinct proposals.
pub proof fn lemma_round_proposals_distinct(j: nat, k: nat)
    requires
        j != k,
    ensures
        round_proposal(j) != round_proposal(k),
{
    if round_proposal(j) == round_proposal(k) {
        lemma_label_injective("BLOCK-"@, round_number(j), round_number(k));
    }
}

/// No fake value is the proposal of a round: a faulty node of a simulation
/// never endorses what was proposed.
pub proof fn lemma_fake_value_is_no_round_proposal(k: nat, round: nat)
    ensures
        fake_value(k) != round_proposal(round),
{
    reveal_strlit("fake-");
    reveal_strlit("BLOCK-");
    assert(fake_value(k)[0] == 'f');
    assert(round_proposal(round)[0] == 'B');
}

/// The outcome of a round depends on no other round: two runs of one
/// simulation whose draws agree in round `k` have the same outcome in round
/// `k`, whatever was drawn, and voted, in the other rounds.
pub proof fn lemma_rounds_independent(
    config: SimulationView,
    first: Seq<Seq<Draw>>,
    second: Seq<Seq<Draw>>,
    k: int,
)
    requires
        0 <= k <= config.rounds,
        first[k] == second[k],
    ensures
        run_outcome(config, first)[k] == run_outcome(config, second)[k],
{
}

} // verus!
