use bft_sim::entropy::{Draw, FAKE_VALUES};
use bft_sim::node::Node;
use bft_sim::vote::Vote;

fn fake_number(vote: &Vote) -> Option<u32> {
    match vote {
        Vote::Accept(value) => {
            let digits = value.strip_prefix("fake-")?;
            let k: u32 = digits.parse().ok()?;
            if format!("fake-{}", k) == *value {
                Some(k)
            } else {
                None
            }
        }
        Vote::Reject => None,
    }
}

#[test]
fn node_new_keeps_identity_and_disposition() {
    let honest = Node::new(3, false);
    assert_eq!(honest.id, 3);
    assert!(!honest.byzantine);
    let faulty = Node::new(0, true);
    assert_eq!(faulty.id, 0);
    assert!(faulty.byzantine);
    assert_eq!(Node::new(usize::MAX, true), Node { id: usize::MAX, byzantine: true });
}

#[test]
fn votes_are_equal_by_structure() {
    assert_eq!(Vote::Accept("a".to_string()), Vote::Accept("a".to_string()));
    assert_ne!(Vote::Accept("a".to_string()), Vote::Accept("b".to_string()));
    assert_ne!(Vote::Accept("a".to_string()), Vote::Reject);
    assert_ne!(Vote::Reject, Vote::Accept(String::new()));
    assert_eq!(Vote::Reject, Vote::Reject);
    let vote = Vote::Accept("BLOCK-42".to_string());
    assert_eq!(vote.clone(), vote);
}

#[test]
fn endorses_tells_the_endorsed_value() {
    let wanted = "BLOCK-42".to_string();
    assert!(Vote::Accept("BLOCK-42".to_string()).endorses(&wanted));
    assert!(!Vote::Accept("BLOCK-43".to_string()).endorses(&wanted));
    assert!(!Vote::Accept("fake-42".to_string()).endorses(&wanted));
    assert!(!Vote::Reject.endorses(&wanted));
}

#[test]
fn honest_node_always_accepts_the_proposal() {
    let proposals = ["BLOCK-42", "BLOCK-44", "x", "fake-7", "a longer proposal, with spaces", "é∑"];
    for id in 0..5usize {
        let node = Node::new(id, false);
        for proposal in proposals {
            for _ in 0..20 {
                assert_eq!(node.cast_vote(proposal), Vote::Accept(proposal.to_string()));
            }
        }
    }
}

#[test]
fn honest_node_ignores_the_draw() {
    let node = Node::new(1, false);
    let expected = Vote::Accept("BLOCK-42".to_string());
    assert_eq!(node.cast_vote_with("BLOCK-42", Draw::Tails), expected);
    assert_eq!(node.cast_vote_with("BLOCK-42", Draw::Heads(0)), expected);
    assert_eq!(node.cast_vote_with("BLOCK-42", Draw::Heads(49)), expected);
}

#[test]
fn faulty_node_rejects_on_tails() {
    let node = Node::new(0, true);
    assert_eq!(node.cast_vote_with("BLOCK-42", Draw::Tails), Vote::Reject);
}

#[test]
fn faulty_node_fakes_on_heads() {
    let node = Node::new(0, true);
    assert_eq!(node.cast_vote_with("BLOCK-42", Draw::Heads(0)), Vote::Accept("fake-0".to_string()));
    assert_eq!(node.cast_vote_with("BLOCK-42", Draw::Heads(7)), Vote::Accept("fake-7".to_string()));
    assert_eq!(
        node.cast_vote_with("BLOCK-42", Draw::Heads(10)),
        Vote::Accept("fake-10".to_string())
    );
    assert_eq!(
        node.cast_vote_with("BLOCK-42", Draw::Heads(49)),
        Vote::Accept("fake-49".to_string())
    );
    for k in 0..FAKE_VALUES {
        assert_eq!(
            node.cast_vote_with("BLOCK-42", Draw::Heads(k)),
            Vote::Accept(format!("fake-{}", k))
        );
    }
}

#[test]
fn faulty_node_casts_both_kinds_of_vote() {
    let node = Node::new(0, true);
    let mut rejects = 0u32;
    let mut fakes = 0u32;
    let mut coincide = 0u32;
    let mut seen = [false; FAKE_VALUES as usize];
    for _ in 0..4_000 {
        match node.cast_vote("BLOCK-42") {
            Vote::Reject => rejects += 1,
            vote => {
                let k = fake_number(&vote).expect("an accepted value is a fake value");
                assert!(k < FAKE_VALUES);
                seen[k as usize] = true;
                fakes += 1;
                if vote == Vote::Accept("BLOCK-42".to_string()) {
                    coincide += 1;
                }
            }
        }
    }
    assert!(rejects > 0);
    assert!(fakes > 0);
    assert_eq!(coincide, 0);
    assert!(seen.iter().filter(|&&hit| hit).count() > 1);
}

#[test]
fn sampled_draws_are_in_range_and_vary() {
    let mut tails = 0u32;
    let mut distinct = [false; FAKE_VALUES as usize];
    for _ in 0..4_000 {
        match Draw::sample() {
            Draw::Tails => tails += 1,
            Draw::Heads(k) => {
                assert!(k < FAKE_VALUES);
                distinct[k as usize] = true;
            }
        }
    }
    assert!(tails > 0);
    assert!(tails < 4_000);
    assert!(distinct.iter().filter(|&&hit| hit).count() > 1);
}

#[test]
fn a_toss_is_recorded_as_a_draw() {
    assert_eq!(Draw::from_toss(true, 0), Draw::Heads(0));
    assert_eq!(Draw::from_toss(true, 7), Draw::Heads(7));
    assert_eq!(Draw::from_toss(true, 49), Draw::Heads(49));
    assert_eq!(Draw::from_toss(true, u32::MAX), Draw::Heads(u32::MAX));
    assert_eq!(Draw::from_toss(false, 0), Draw::Tails);
    assert_eq!(Draw::from_toss(false, 7), Draw::Tails);
    assert_eq!(Draw::from_toss(false, u32::MAX), Draw::Tails);
}
