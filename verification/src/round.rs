//! One round: every node votes on the proposal, the honest endorsements of
//! the proposal are counted, and the count is held against the threshold.

use crate::entropy::Draw;
use crate::node::{lemma_possible_vote_has_draw, lemma_vote_given_is_possible, Node};
use crate::vote::{Vote, VoteView};
use vstd::prelude::*;
use vstd::std_specs::cmp::PartialEqSpecImpl;

verus! {

/// The mathematical value of a [`RoundResult`].
pub struct RoundView {
    /// The value that was voted on.
    pub proposal: Seq<char>,
    /// One pair of node identity and vote per node, in the order of the nodes.
    pub votes: Seq<(usize, VoteView)>,
    /// How many honest nodes endorsed the proposal.
    pub honest_accept_count: nat,
    /// How many such endorsements make a quorum.
    pub threshold: nat,
    /// Whether the count reached the threshold.
    pub quorum_reached: bool,
}

/// The outcome of one round. It is made by [`RoundEvaluator`] and never
/// changes afterwards.
#[derive(Debug, Eq)]
pub struct RoundResult {
    proposal: String,
    votes: Vec<(usize, Vote)>,
    honest_accept_count: usize,
    threshold: usize,
    quorum_reached: bool,
}

/// The pairs of identity and vote, each vote by its value.
pub open spec fn ballots_view(votes: Seq<(usize, Vote)>) -> Seq<(usize, VoteView)> {
    Seq::new(votes.len(), |i: int| (votes[i].0, votes[i].1@))
}

/// Whether `vote`, cast by `node`, counts toward the quorum on `proposal`:
/// the node is honest and the vote endorses exactly the proposal.
pub open spec fn counts(node: Node, proposal: Seq<char>, vote: VoteView) -> bool {
    !node.byzantine && vote == VoteView::Accept(proposal)
}

/// The number of positions below `n` whose vote counts toward the quorum.
pub open spec fn tally_upto(
    proposal: Seq<char>,
    nodes: Seq<Node>,
    votes: Seq<(usize, VoteView)>,
    n: nat,
) -> nat
    decreases n,
{
    if n == 0 {
        0
    } else {
        let before = tally_upto(proposal, nodes, votes, (n - 1) as nat);
        if counts(nodes[n - 1], proposal, votes[n - 1].1) {
            before + 1
        } else {
            before
        }
    }
}

/// The number of votes that count toward the quorum on `proposal`, where
/// `votes[i]` is the vote of `nodes[i]`.
pub open spec fn tally(proposal: Seq<char>, nodes: Seq<Node>, votes: Seq<(usize, VoteView)>) -> nat {
    tally_upto(proposal, nodes, votes, nodes.len())
}

/// The positions below `n` whose vote counts toward the quorum.
pub open spec fn counted_below(
    proposal: Seq<char>,
    nodes: Seq<Node>,
    votes: Seq<(usize, VoteView)>,
    n: nat,
) -> Set<int> {
    Set::new(|i: int| 0 <= i < n && counts(nodes[i], proposal, votes[i].1))
}

/// The number of honest nodes among the first `n`.
pub open spec fn honest_upto(nodes: Seq<Node>, n: nat) -> nat
    decreases n,
{
    if n == 0 {
        0
    } else if nodes[n - 1].byzantine {
        honest_upto(nodes, (n - 1) as nat)
    } else {
        honest_upto(nodes, (n - 1) as nat) + 1
    }
}

/// The number of honest nodes.
pub open spec fn honest_count(nodes: Seq<Node>) -> nat {
    honest_upto(nodes, nodes.len())
}

/// The votes of `nodes` on `proposal` when `nodes[i]` draws `draws[i]`, each
/// paired with the identity of its node.
pub open spec fn ballots_given(proposal: Seq<char>, nodes: Seq<Node>, draws: Seq<Draw>) -> Seq<
    (usize, VoteView),
> {
    Seq::new(nodes.len(), |i: int| (nodes[i].id, nodes[i].vote_given(proposal, draws[i])))
}

/// The round that `votes` decide: the tally of the votes, held against the
/// threshold.
pub open spec fn outcome_of_votes(
    proposal: Seq<char>,
    nodes: Seq<Node>,
    threshold: nat,
    votes: Seq<(usize, VoteView)>,
) -> RoundView {
    RoundView {
        proposal,
        votes,
        honest_accept_count: tally(proposal, nodes, votes),
        threshold,
        quorum_reached: tally(proposal, nodes, votes) >= threshold,
    }
}

/// The outcome of the round on `proposal` when `nodes[i]` draws `draws[i]`.
pub open spec fn outcome_given(
    proposal: Seq<char>,
    nodes: Seq<Node>,
    threshold: nat,
    draws: Seq<Draw>,
) -> RoundView {
    outcome_of_votes(proposal, nodes, threshold, ballots_given(proposal, nodes, draws))
}

/// Whether `result` is an outcome that the round on `proposal` can have,
/// whatever the faulty nodes draw.
pub open spec fn possible_outcome(
    result: RoundView,
    proposal: Seq<char>,
    nodes: Seq<Node>,
    threshold: nat,
) -> bool {
    &&& result.votes.len() == nodes.len()
    &&& forall|i: int|
        0 <= i < nodes.len() ==> (#[trigger] result.votes[i]).0 == nodes[i].id
            && nodes[i].may_vote(proposal, result.votes[i].1)
    &&& result == outcome_of_votes(proposal, nodes, threshold, result.votes)
}

/// Whether every honest node endorses exactly the proposal in `votes`.
pub open spec fn honest_nodes_endorse(
    proposal: Seq<char>,
    nodes: Seq<Node>,
    votes: Seq<(usize, VoteView)>,
) -> bool {
    forall|i: int|
        0 <= i < nodes.len() && !nodes[i].byzantine ==> (#[trigger] votes[i]).1
            == VoteView::Accept(proposal)
}

/// Whether the identities of `nodes` strictly ascend.
pub open spec fn ascending_ids(nodes: Seq<Node>) -> bool {
    forall|i: int, j: int| 0 <= i < j < nodes.len() ==> nodes[i].id < nodes[j].id
}

/// Whether `votes` stand in strictly ascending order of node identity.
pub open spec fn in_id_order(votes: Seq<(usize, VoteView)>) -> bool {
    forall|i: int, j: int| 0 <= i < j < votes.len() ==> votes[i].0 < votes[j].0
}

impl RoundView {
    /// What holds of every round result: the count is at most the number of
    /// votes, and the quorum is reached exactly when the count is at least
    /// the threshold.
    pub open spec fn consistent(self) -> bool {
        &&& self.honest_accept_count <= self.votes.len()
        &&& self.quorum_reached == (self.honest_accept_count >= self.threshold)
    }
}

impl View for RoundResult {
    type V = RoundView;

    closed spec fn view(&self) -> RoundView {
        RoundView {
            proposal: self.proposal@,
            votes: ballots_view(self.votes@),
            honest_accept_count: self.honest_accept_count as nat,
            threshold: self.threshold as nat,
            quorum_reached: self.quorum_reached,
        }
    }
}

impl RoundResult {
    #[verifier::type_invariant]
    spec fn well_formed(&self) -> bool {
        self@.consistent()
    }

    /// The value that was voted on.
    pub fn proposal(&self) -> (proposal: &str)
        ensures
            proposal@ == self@.proposal,
    {
        self.proposal.as_str()
    }

    /// The votes, each with the identity of the node that cast it, in the
    /// order of the nodes.
    pub fn votes(&self) -> (votes: &Vec<(usize, Vote)>)
        ensures
            ballots_view(votes@) == self@.votes,
    {
        &self.votes
    }

    /// How many honest nodes endorsed the proposal.
    pub fn honest_accept_count(&self) -> (count: usize)
        ensures
            count == self@.honest_accept_count,
            count <= self@.votes.len(),
    {
        proof {
            use_type_invariant(self);
        }
        self.honest_accept_count
    }

    /// How many honest endorsements make a quorum.
    pub fn threshold(&self) -> (threshold: usize)
        ensures
            threshold == self@.threshold,
    {
        self.threshold
    }

    /// Whether the honest endorsements reached the threshold.
    pub fn quorum_reached(&self) -> (reached: bool)
        ensures
            reached == self@.quorum_reached,
            reached == (self@.honest_accept_count >= self@.threshold),
    {
        proof {
            use_type_invariant(self);
        }
        self.quorum_reached
    }
}

impl PartialEq for RoundResult {
    /// Two results are equal when they hold the same proposal, the same
    /// votes in the same order, the same count, threshold and decision.
    fn eq(&self, other: &RoundResult) -> (equal: bool) {
        if !(self.proposal == other.proposal) || self.honest_accept_count
            != other.honest_accept_count || self.threshold != other.threshold
            || self.quorum_reached != other.quorum_reached {
            return false;
        }
        if self.votes.len() != other.votes.len() {
            assert(self@.votes.len() != other@.votes.len());
            return false;
        }
        let mut i: usize = 0;
        while i < self.votes.len()
            invariant
                i <= self.votes@.len(),
                self.votes@.len() == other.votes@.len(),
                forall|j: int|
                    0 <= j < i ==> ballots_view(self.votes@)[j] == ballots_view(other.votes@)[j],
            decreases self.votes@.len() - i,
        {
            if self.votes[i].0 != other.votes[i].0 || !(self.votes[i].1 == other.votes[i].1) {
                assert(ballots_view(self.votes@)[i as int] != ballots_view(other.votes@)[i as int]);
                return false;
            }
            i += 1;
        }
        assert(ballots_view(self.votes@) =~= ballots_view(other.votes@));
        true
    }
}

impl PartialEqSpecImpl for RoundResult {
    open spec fn obeys_eq_spec() -> bool {
        true
    }

    open spec fn eq_spec(&self, other: &RoundResult) -> bool {
        self@ == other@
    }
}

/// Runs single rounds.
pub struct RoundEvaluator;

impl RoundEvaluator {
    /// Counts the votes that were collected from `nodes` and decides the
    /// round.
    fn conclude(proposal: &str, nodes: &Vec<Node>, votes: Vec<(usize, Vote)>, threshold: usize) -> (result:
        RoundResult)
        requires
            votes@.len() == nodes@.len(),
        ensures
            result@ == outcome_of_votes(
                proposal@,
                nodes@,
                threshold as nat,
                ballots_view(votes@),
            ),
    {
        let wanted = proposal.to_owned();
        let ghost ballots = ballots_view(votes@);
        let mut count: usize = 0;
        let mut i: usize = 0;
        while i < nodes.len()
            invariant
                i <= nodes@.len(),
                votes@.len() == nodes@.len(),
                wanted@ == proposal@,
                ballots == ballots_view(votes@),
                count <= i,
                count == tally_upto(proposal@, nodes@, ballots, i as nat),
            decreases nodes@.len() - i,
        {
            if !nodes[i].byzantine && votes[i].1.endorses(&wanted) {
                count += 1;
            }
            i += 1;
        }
        RoundResult {
            proposal: wanted,
            votes,
            honest_accept_count: count,
            threshold,
            quorum_reached: count >= threshold,
        }
    }

    /// Runs one round on `proposal` in which `nodes[i]` draws `draws[i]`.
    ///
    /// The nodes vote in the order given, which is the order of their
    /// identities where these ascend. The result is a function of the
    /// arguments: the same arguments give the same result.
    pub fn evaluate_with(proposal: &str, nodes: &Vec<Node>, threshold: usize, draws: &Vec<Draw>) -> (result:
        RoundResult)
        requires
            draws@.len() == nodes@.len(),
        ensures
            result@ == outcome_given(proposal@, nodes@, threshold as nat, draws@),
            result@.consistent(),
            ascending_ids(nodes@) ==> in_id_order(result@.votes),
            nodes@.len() == 0 ==> result@.quorum_reached == (threshold == 0),
    {
        let mut votes: Vec<(usize, Vote)> = Vec::new();
        let mut i: usize = 0;
        while i < nodes.len()
            invariant
                i <= nodes@.len(),
                draws@.len() == nodes@.len(),
                votes@.len() == i,
                forall|j: int|
                    0 <= j < i ==> (#[trigger] votes@[j]).0 == nodes@[j].id && votes@[j].1@
                        == nodes@[j].vote_given(proposal@, draws@[j]),
            decreases nodes@.len() - i,
        {
            let vote = nodes[i].cast_vote_with(proposal, draws[i]);
            votes.push((nodes[i].id, vote));
            i += 1;
        }
        assert(ballots_view(votes@) =~= ballots_given(proposal@, nodes@, draws@));
        let result = Self::conclude(proposal, nodes, votes, threshold);
        proof {
            lemma_outcome_given_is_orderly(proposal@, nodes@, threshold as nat, draws@);
        }
        result
    }

    /// Runs one round on `proposal`: every node casts its vote, the faulty
    /// ones at random.
    ///
    /// The nodes vote in the order given, which is the order of their
    /// identities where these ascend. Calls may differ in the votes of faulty
    /// nodes and in nothing else.
    pub fn evaluate(proposal: &str, nodes: &Vec<Node>, threshold: usize) -> (result: RoundResult)
        ensures
            possible_outcome(result@, proposal@, nodes@, threshold as nat),
            result@.consistent(),
            ascending_ids(nodes@) ==> in_id_order(result@.votes),
            nodes@.len() == 0 ==> result@.quorum_reached == (threshold == 0),
    {
        let mut votes: Vec<(usize, Vote)> = Vec::new();
        let mut i: usize = 0;
        while i < nodes.len()
            invariant
                i <= nodes@.len(),
                votes@.len() == i,
                forall|j: int|
                    0 <= j < i ==> (#[trigger] votes@[j]).0 == nodes@[j].id
                        && nodes@[j].may_vote(proposal@, votes@[j].1@),
            decreases nodes@.len() - i,
        {
            let vote = nodes[i].cast_vote(proposal);
            votes.push((nodes[i].id, vote));
            i += 1;
        }
        let result = Self::conclude(proposal, nodes, votes, threshold);
        proof {
            lemma_possible_outcome_is_orderly(result@, proposal@, nodes@, threshold as nat);
        }
        result
    }
}

/// The tally over the first `n` positions is at most `n`.
pub proof fn lemma_tally_bounded(
    proposal: Seq<char>,
    nodes: Seq<Node>,
    votes: Seq<(usize, VoteView)>,
    n: nat,
)
    ensures
        tally_upto(proposal, nodes, votes, n) <= n,
    decreases n,
{
    if n > 0 {
        lemma_tally_bounded(proposal, nodes, votes, (n - 1) as nat);
    }
}

/// The tally over the first `n` positions is the number of those positions
/// at which an honest node endorses exactly the proposal.
pub proof fn lemma_tally_counts_positions(
    proposal: Seq<char>,
    nodes: Seq<Node>,
    votes: Seq<(usize, VoteView)>,
    n: nat,
)
    ensures
        counted_below(proposal, nodes, votes, n).finite(),
        tally_upto(proposal, nodes, votes, n) == counted_below(proposal, nodes, votes, n).len(),
    decreases n,
{
    let here = counted_below(proposal, nodes, votes, n);
    if n == 0 {
        assert(here =~= Set::empty());
    } else {
        let before = counted_below(proposal, nodes, votes, (n - 1) as nat);
        lemma_tally_counts_positions(proposal, nodes, votes, (n - 1) as nat);
        if counts(nodes[n - 1], proposal, votes[n - 1].1) {
            assert(here =~= before.insert(n - 1));
        } else {
            assert(here =~= before);
        }
    }
}

/// The votes of faulty nodes never count: two lists of votes that agree at
/// the honest nodes have the same tally, whatever the faulty nodes voted.
pub proof fn lemma_tally_ignores_faulty_votes(
    proposal: Seq<char>,
    nodes: Seq<Node>,
    votes: Seq<(usize, VoteView)>,
    other: Seq<(usize, VoteView)>,
    n: nat,
)
    requires
        forall|i: int| 0 <= i < n && !nodes[i].byzantine ==> votes[i].1 == other[i].1,
    ensures
        tally_upto(proposal, nodes, votes, n) == tally_upto(proposal, nodes, other, n),
    decreases n,
{
    if n > 0 {
        lemma_tally_ignores_faulty_votes(proposal, nodes, votes, other, (n - 1) as nat);
    }
}

/// Where the honest nodes among the first `n` endorse exactly the proposal,
/// the tally over these is their number, whatever the faulty nodes voted.
pub proof fn lemma_tally_of_honest_endorsements(
    proposal: Seq<char>,
    nodes: Seq<Node>,
    votes: Seq<(usize, VoteView)>,
    n: nat,
)
    requires
        forall|i: int|
            0 <= i < n && !nodes[i].byzantine ==> (#[trigger] votes[i]).1 == VoteView::Accept(
                proposal,
            ),
    ensures
        tally_upto(proposal, nodes, votes, n) == honest_upto(nodes, n),
    decreases n,
{
    if n > 0 {
        lemma_tally_of_honest_endorsements(proposal, nodes, votes, (n - 1) as nat);
    }
}

/// Where every honest node endorses exactly the proposal, the count is the
/// number of honest nodes, and the quorum is reached exactly when that number
/// is at least the threshold. The votes of the faulty nodes change neither.
pub proof fn lemma_honest_endorsements_decide(
    proposal: Seq<char>,
    nodes: Seq<Node>,
    threshold: nat,
    votes: Seq<(usize, VoteView)>,
)
    requires
        honest_nodes_endorse(proposal, nodes, votes),
    ensures
        outcome_of_votes(proposal, nodes, threshold, votes).honest_accept_count == honest_count(
            nodes,
        ),
        outcome_of_votes(proposal, nodes, threshold, votes).quorum_reached == (honest_count(nodes)
            >= threshold),
{
    lemma_tally_of_honest_endorsements(proposal, nodes, votes, nodes.len());
}

/// In every outcome that a round can have, the honest nodes endorse exactly
/// the proposal, the count is at most the number of votes, and the votes
/// stand in ascending order of identity where the nodes do.
pub proof fn lemma_possible_outcome_is_orderly(
    result: RoundView,
    proposal: Seq<char>,
    nodes: Seq<Node>,
    threshold: nat,
)
    requires
        possible_outcome(result, proposal, nodes, threshold),
    ensures
        honest_nodes_endorse(proposal, nodes, result.votes),
        result.consistent(),
        ascending_ids(nodes) ==> in_id_order(result.votes),
{
    lemma_tally_bounded(proposal, nodes, result.votes, nodes.len());
    if ascending_ids(nodes) {
        assert forall|i: int, j: int| 0 <= i < j < result.votes.len() implies result.votes[i].0
            < result.votes[j].0 by {
            assert(result.votes[i].0 == nodes[i].id);
            assert(result.votes[j].0 == nodes[j].id);
        }
    }
}

/// Whatever is drawn, in the outcome by the draws the honest nodes endorse
/// exactly the proposal, the count is at most the number of votes, and the
/// votes stand in ascending order of identity where the nodes do.
pub proof fn lemma_outcome_given_is_orderly(
    proposal: Seq<char>,
    nodes: Seq<Node>,
    threshold: nat,
    draws: Seq<Draw>,
)
    ensures
        honest_nodes_endorse(proposal, nodes, ballots_given(proposal, nodes, draws)),
        outcome_given(proposal, nodes, threshold, draws).consistent(),
        ascending_ids(nodes) ==> in_id_order(ballots_given(proposal, nodes, draws)),
{
    lemma_tally_bounded(proposal, nodes, ballots_given(proposal, nodes, draws), nodes.len());
}

/// Two outcomes of one round differ at most in the votes of faulty nodes.
/// Where those votes agree too, the outcomes are equal.
pub proof fn lemma_outcomes_differ_in_faulty_votes_only(
    first: RoundView,
    second: RoundView,
    proposal: Seq<char>,
    nodes: Seq<Node>,
    threshold: nat,
)
    requires
        possible_outcome(first, proposal, nodes, threshold),
        possible_outcome(second, proposal, nodes, threshold),
    ensures
        first.proposal == second.proposal,
        first.threshold == second.threshold,
        first.honest_accept_count == second.honest_accept_count,
        first.quorum_reached == second.quorum_reached,
        first.votes.len() == second.votes.len(),
        forall|i: int|
            0 <= i < nodes.len() && !nodes[i].byzantine ==> first.votes[i] == second.votes[i],
        (forall|i: int|
            0 <= i < nodes.len() && nodes[i].byzantine ==> first.votes[i] == second.votes[i])
            ==> first == second,
{
    lemma_possible_outcome_is_orderly(first, proposal, nodes, threshold);
    lemma_possible_outcome_is_orderly(second, proposal, nodes, threshold);
    lemma_honest_endorsements_decide(proposal, nodes, threshold, first.votes);
    lemma_honest_endorsements_decide(proposal, nodes, threshold, second.votes);
    if forall|i: int|
        0 <= i < nodes.len() && nodes[i].byzantine ==> first.votes[i] == second.votes[i] {
        assert(first.votes =~= second.votes);
    }
}

/// With draws in range, the outcome by the draws is one that the round can
/// have.
pub proof fn lemma_outcome_given_is_possible(
    proposal: Seq<char>,
    nodes: Seq<Node>,
    threshold: nat,
    draws: Seq<Draw>,
)
    requires
        forall|i: int| 0 <= i < nodes.len() ==> (#[trigger] draws[i]).in_range(),
    ensures
        possible_outcome(outcome_given(proposal, nodes, threshold, draws), proposal, nodes, threshold),
{
    let votes = ballots_given(proposal, nodes, draws);
    assert forall|i: int| 0 <= i < nodes.len() implies (#[trigger] votes[i]).0 == nodes[i].id
        && nodes[i].may_vote(proposal, votes[i].1) by {
        assert(draws[i].in_range());
        lemma_vote_given_is_possible(nodes[i], proposal, draws[i]);
    }
}

/// Every outcome that a round can have is its outcome by some draws in
/// range, one per node.
pub proof fn lemma_possible_outcome_has_draws(
    result: RoundView,
    proposal: Seq<char>,
    nodes: Seq<Node>,
    threshold: nat,
) -> (draws: Seq<Draw>)
    requires
        possible_outcome(result, proposal, nodes, threshold),
    ensures
        draws.len() == nodes.len(),
        forall|i: int| 0 <= i < nodes.len() ==> (#[trigger] draws[i]).in_range(),
        result == outcome_given(proposal, nodes, threshold, draws),
{
    let draws = Seq::new(
        nodes.len(),
        |i: int|
            choose|draw: Draw|
                draw.in_range() && nodes[i].vote_given(proposal, draw) == result.votes[i].1,
    );
    assert forall|i: int| 0 <= i < nodes.len() implies (#[trigger] draws[i]).in_range()
        && nodes[i].vote_given(proposal, draws[i]) == result.votes[i].1 by {
        assert(nodes[i].may_vote(proposal, result.votes[i].1));
        let witness = lemma_possible_vote_has_draw(nodes[i], proposal, result.votes[i].1);
        assert(witness.in_range() && nodes[i].vote_given(proposal, witness) == result.votes[i].1);
    }
    assert(result.votes =~= ballots_given(proposal, nodes, draws));
    draws
}

} // verus!
