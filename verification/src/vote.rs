//! The decision of one node in one round.

use vstd::prelude::*;
use vstd::std_specs::cmp::PartialEqSpecImpl;

verus! {

/// What a node answers to a proposal: it endorses a value, or nothing.
#[derive(Debug, Clone, Eq)]
pub enum Vote {
    /// The node endorses the value it carries.
    Accept(String),
    /// The node endorses nothing.
    Reject,
}

/// The mathematical value of a [`Vote`]: the endorsed text as a sequence of
/// characters.
pub enum VoteView {
    Accept(Seq<char>),
    Reject,
}

impl View for Vote {
    type V = VoteView;

    open spec fn view(&self) -> VoteView {
        match self {
            Vote::Accept(value) => VoteView::Accept(value@),
            Vote::Reject => VoteView::Reject,
        }
    }
}

impl PartialEq for Vote {
    /// Two votes are equal when both reject, or both accept the same text.
    fn eq(&self, other: &Vote) -> (equal: bool) {
        match (self, other) {
            (Vote::Accept(mine), Vote::Accept(theirs)) => *mine == *theirs,
            (Vote::Reject, Vote::Reject) => true,
            _ => false,
        }
    }
}

impl PartialEqSpecImpl for Vote {
    open spec fn obeys_eq_spec() -> bool {
        true
    }

    open spec fn eq_spec(&self, other: &Vote) -> bool {
        self@ == other@
    }
}

impl Vote {
    /// Whether this vote endorses exactly `value`.
    pub fn endorses(&self, value: &String) -> (yes: bool)
        ensures
            yes == (self@ == VoteView::Accept(value@)),
    {
        match self {
            Vote::Accept(mine) => *mine == *value,
            Vote::Reject => false,
        }
    }
}

} // verus!
