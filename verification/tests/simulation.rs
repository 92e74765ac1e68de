use bft_sim::entropy::Draw;
use bft_sim::node::Node;
use bft_sim::round::RoundEvaluator;
use bft_sim::simulation::{proposal_for_round, run, ConfigurationError, Simulation};
use bft_sim::vote::Vote;

fn quiet_draws(rounds: usize, nodes: usize) -> Vec<Vec<Draw>> {
    vec![vec![Draw::Tails; nodes]; rounds]
}

#[test]
fn seven_nodes_three_faulty_are_refused() {
    assert_eq!(Simulation::new(7, 3, 3).err(), Some(ConfigurationError::TooManyFaulty));
    assert_eq!(run(7, 3, 3).err(), Some(ConfigurationError::TooManyFaulty));
}

#[test]
fn four_nodes_two_faulty_are_refused() {
    assert_eq!(Simulation::new(4, 2, 0).err(), Some(ConfigurationError::TooManyFaulty));
    assert_eq!(run(4, 2, 0).err(), Some(ConfigurationError::TooManyFaulty));
}

#[test]
fn no_nodes_are_refused() {
    assert_eq!(Simulation::new(0, 0, 3).err(), Some(ConfigurationError::NoNodes));
    assert_eq!(Simulation::new(0, 1, 3).err(), Some(ConfigurationError::NoNodes));
    assert_eq!(Simulation::new(0, usize::MAX, 0).err(), Some(ConfigurationError::NoNodes));
    assert_eq!(run(0, 0, 0).err(), Some(ConfigurationError::NoNodes));
}

#[test]
fn configuration_is_valid_from_three_f_plus_one() {
    for f in 0..20usize {
        assert!(Simulation::new(3 * f + 1, f, 0).is_ok());
        assert!(Simulation::new(3 * f + 2, f, 0).is_ok());
        if f > 0 {
            assert_eq!(Simulation::new(3 * f, f, 0).err(), Some(ConfigurationError::TooManyFaulty));
            assert_eq!(Simulation::new(1, f, 0).err(), Some(ConfigurationError::TooManyFaulty));
        }
    }
}

#[test]
fn huge_fault_counts_are_refused_without_overflow() {
    assert_eq!(
        Simulation::new(usize::MAX, usize::MAX, 0).err(),
        Some(ConfigurationError::TooManyFaulty)
    );
    assert_eq!(
        Simulation::new(7, usize::MAX / 3 + 1, 0).err(),
        Some(ConfigurationError::TooManyFaulty)
    );
    assert_eq!(
        Simulation::new(7, usize::MAX / 2, 0).err(),
        Some(ConfigurationError::TooManyFaulty)
    );
}

#[test]
fn threshold_is_two_f_plus_one() {
    for (n, f) in [(1usize, 0usize), (4, 1), (7, 2), (10, 3), (100, 33), (100, 5)] {
        let simulation = Simulation::new(n, f, 2).unwrap();
        assert_eq!(simulation.threshold(), 2 * f + 1);
        assert_eq!(simulation.faulty(), f);
        assert_eq!(simulation.rounds(), 2);
        assert_eq!(simulation.nodes().len(), n);
    }
}

#[test]
fn first_f_nodes_are_faulty() {
    let simulation = Simulation::new(7, 2, 3).unwrap();
    let expected: Vec<Node> = (0..7).map(|i| Node::new(i, i < 2)).collect();
    assert_eq!(*simulation.nodes(), expected);
    let all_honest = Simulation::new(3, 0, 0).unwrap();
    assert!(all_honest.nodes().iter().all(|node| !node.byzantine));
}

#[test]
fn proposals_follow_the_round_counter() {
    assert_eq!(proposal_for_round(0), "BLOCK-42");
    assert_eq!(proposal_for_round(1), "BLOCK-44");
    assert_eq!(proposal_for_round(2), "BLOCK-45");
    assert_eq!(proposal_for_round(3), "BLOCK-46");
    assert_eq!(proposal_for_round(57), "BLOCK-100");
    assert_eq!(proposal_for_round(u32::MAX), "BLOCK-4294967338");
}

#[test]
fn proposals_of_distinct_rounds_differ() {
    let proposals: Vec<String> = (0..300).map(proposal_for_round).collect();
    for (j, a) in proposals.iter().enumerate() {
        for (k, b) in proposals.iter().enumerate() {
            assert_eq!(a == b, j == k);
        }
    }
}

#[test]
fn run_gives_the_initial_round_and_the_others() {
    let simulation = Simulation::new(7, 2, 3).unwrap();
    let results = simulation.run();
    assert_eq!(results.len(), 4);
    let proposals: Vec<&str> = results.iter().map(|result| result.proposal()).collect();
    assert_eq!(proposals, vec!["BLOCK-42", "BLOCK-44", "BLOCK-45", "BLOCK-46"]);
    for result in &results {
        assert_eq!(result.votes().len(), 7);
        assert_eq!(result.threshold(), 5);
        assert_eq!(result.honest_accept_count(), 5);
        assert!(result.quorum_reached());
        for (i, (id, vote)) in result.votes().iter().enumerate() {
            assert_eq!(*id, i);
            if i >= 2 {
                assert_eq!(*vote, Vote::Accept(result.proposal().to_string()));
            } else {
                assert_ne!(*vote, Vote::Accept(result.proposal().to_string()));
            }
        }
    }
}

#[test]
fn run_without_extra_rounds_gives_one_result() {
    let results = run(4, 1, 0).unwrap();
    assert_eq!(results.len(), 1);
    assert_eq!(results[0].proposal(), "BLOCK-42");
    assert_eq!(results[0].honest_accept_count(), 3);
    assert_eq!(results[0].threshold(), 3);
    assert!(results[0].quorum_reached());
}

#[test]
fn free_run_sets_up_and_runs() {
    let results = run(7, 2, 3).unwrap();
    assert_eq!(results.len(), 4);
    assert!(results.iter().all(|result| result.quorum_reached()));
    assert!(results.iter().all(|result| result.honest_accept_count() == 5));
}

#[test]
fn run_with_replays_the_draws() {
    let simulation = Simulation::new(4, 1, 2).unwrap();
    let draws = vec![
        vec![Draw::Tails, Draw::Tails, Draw::Tails, Draw::Tails],
        vec![Draw::Heads(9), Draw::Tails, Draw::Tails, Draw::Tails],
        vec![Draw::Heads(49), Draw::Heads(1), Draw::Heads(2), Draw::Heads(3)],
    ];
    let results = simulation.run_with(&draws);
    assert_eq!(results.len(), 3);
    assert_eq!(results[0].votes()[0], (0, Vote::Reject));
    assert_eq!(results[1].votes()[0], (0, Vote::Accept("fake-9".to_string())));
    assert_eq!(results[2].votes()[0], (0, Vote::Accept("fake-49".to_string())));
    for (k, result) in results.iter().enumerate() {
        assert_eq!(result.proposal(), proposal_for_round(k as u32));
        assert_eq!(result.honest_accept_count(), 3);
        assert_eq!(result.threshold(), 3);
        assert!(result.quorum_reached());
        let alone = RoundEvaluator::evaluate_with(
            result.proposal(),
            simulation.nodes(),
            simulation.threshold(),
            &draws[k],
        );
        assert_eq!(*result, alone);
        assert_eq!(*result, simulation.round_with(k as u32, &draws[k]));
    }
    assert_eq!(simulation.run_with(&draws), results);
}

#[test]
fn a_round_does_not_depend_on_the_rounds_before() {
    let simulation = Simulation::new(7, 2, 2).unwrap();
    let mut first = quiet_draws(3, 7);
    let mut second = quiet_draws(3, 7);
    first[0] = vec![Draw::Heads(1); 7];
    first[1] = vec![Draw::Heads(2); 7];
    second[0] = vec![Draw::Tails; 7];
    second[1] = vec![Draw::Heads(2); 7];
    second[2] = vec![Draw::Heads(30); 7];
    let left = simulation.run_with(&first);
    let right = simulation.run_with(&second);
    assert_ne!(left[0], right[0]);
    assert_eq!(left[1], right[1]);
    assert_ne!(left[2], right[2]);
    assert_eq!(left[1], simulation.round_with(1, &first[1]));
}

#[test]
fn random_round_of_a_simulation_is_decided() {
    let simulation = Simulation::new(10, 3, 0).unwrap();
    for k in [0u32, 1, 2, 1000, u32::MAX] {
        let result = simulation.round(k);
        assert_eq!(result.proposal(), proposal_for_round(k));
        assert_eq!(result.honest_accept_count(), 7);
        assert_eq!(result.threshold(), 7);
        assert!(result.quorum_reached());
    }
}
