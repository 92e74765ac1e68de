//! A participant of the simulation and its voting rule.

use crate::decimal::{label, labelled};
use crate::entropy::{Draw, FAKE_VALUES};
use crate::vote::{Vote, VoteView};
use vstd::prelude::*;

verus! {

/// A participant: an identity and a fault disposition, both fixed for life.
#[derive(Debug, Clone, Copy, PartialEq, Eq, Structural)]
pub struct Node {
    /// Unique within one simulation.
    pub id: usize,
    /// Whether the node is faulty.
    pub byzantine: bool,
}

/// The value that a faulty node endorses after drawing `k`: the text `fake-`
/// followed by `k` in decimal.
pub open spec fn fake_value(k: nat) -> Seq<char> {
    label("fake-"@, k)
}

impl Node {
    /// The vote of this node on `proposal` when its draw is `draw`.
    ///
    /// An honest node endorses the proposal, whatever the draw. A faulty node
    /// rejects on tails and endorses a fake value on heads.
    pub open spec fn vote_given(self, proposal: Seq<char>, draw: Draw) -> VoteView {
        if self.byzantine {
            match draw {
                Draw::Heads(k) => VoteView::Accept(fake_value(k as nat)),
                Draw::Tails => VoteView::Reject,
            }
        } else {
            VoteView::Accept(proposal)
        }
    }

    /// Whether `vote` is one that this node can cast on `proposal`.
    ///
    /// An honest node can only endorse the proposal. A faulty node can reject,
    /// or endorse one of the `FAKE_VALUES` fake values.
    pub open spec fn may_vote(self, proposal: Seq<char>, vote: VoteView) -> bool {
        if self.byzantine {
            vote is Reject || exists|k: nat|
                k < FAKE_VALUES && vote == VoteView::Accept(#[trigger] fake_value(k))
        } else {
            vote == VoteView::Accept(proposal)
        }
    }

    /// A node with the given identity and disposition.
    pub fn new(id: usize, byzantine: bool) -> (node: Node)
        ensures
            node == (Node { id, byzantine }),
    {
        Node { id, byzantine }
    }

    /// The vote of this node on `proposal`, given the draw it would consume
    /// if it is faulty.
    pub fn cast_vote_with(&self, proposal: &str, draw: Draw) -> (vote: Vote)
        ensures
            vote@ == self.vote_given(proposal@, draw),
    {
        if self.byzantine {
            match draw {
                Draw::Heads(k) => Vote::Accept(labelled("fake-", k as u64)),
                Draw::Tails => Vote::Reject,
            }
        } else {
            Vote::Accept(proposal.to_owned())
        }
    }

    /// The vote of this node on `proposal`.
    ///
    /// An honest node endorses the proposal and consumes no randomness. A
    /// faulty node takes a fresh draw and votes by it.
    pub fn cast_vote(&self, proposal: &str) -> (vote: Vote)
        ensures
            self.may_vote(proposal@, vote@),
            !self.byzantine ==> vote@ == VoteView::Accept(proposal@),
    {
        if self.byzantine {
            let draw = Draw::sample();
            proof {
                lemma_vote_given_is_possible(*self, proposal@, draw);
            }
            self.cast_vote_with(proposal, draw)
        } else {
            Vote::Accept(proposal.to_owned())
        }
    }
}

/// A vote cast by a draw in range is one that the node can cast.
pub proof fn lemma_vote_given_is_possible(node: Node, proposal: Seq<char>, draw: Draw)
    requires
        draw.in_range(),
    ensures
        node.may_vote(proposal, node.vote_given(proposal, draw)),
{
    if node.byzantine {
        if let Draw::Heads(k) = draw {
            assert(k < FAKE_VALUES && node.vote_given(proposal, draw) == VoteView::Accept(
                fake_value(k as nat),
            ));
        }
    }
}

/// Every vote that a node can cast is its vote by some draw in range.
pub proof fn lemma_possible_vote_has_draw(node: Node, proposal: Seq<char>, vote: VoteView) -> (draw:
    Draw)
    requires
        node.may_vote(proposal, vote),
    ensures
        draw.in_range(),
        node.vote_given(proposal, draw) == vote,
{
    if node.byzantine && vote is Accept {
        let k = choose|k: nat| k < FAKE_VALUES && vote == VoteView::Accept(#[trigger] fake_value(k));
        Draw::Heads(k as u32)
    } else {
        Draw::Tails
    }
}

} // verus!
