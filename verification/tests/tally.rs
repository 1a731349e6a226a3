use std::collections::{BTreeMap, BTreeSet};

use ledger_core::storage::Key;
use ledger_core::votes::{
    all_powers_are_given, calculate_new, calculate_update, calculate_updated, validate_update,
    Address, BlockHeight, Keys, Tally, TallyError, VoteInfo, Votes,
};
use ledger_core::voting_power::FractionalVotingPower;

const V1: Address = 1;
const V2: Address = 2;
const V3: Address = 3;

fn power(numer: u64, denom: u64) -> FractionalVotingPower {
    FractionalVotingPower::new(numer, denom).unwrap()
}

fn powers(
    given: &[(Address, BlockHeight, FractionalVotingPower)],
) -> BTreeMap<(Address, BlockHeight), FractionalVotingPower> {
    given.iter().map(|(a, h, p)| ((*a, *h), *p)).collect()
}

fn keys() -> Keys<u64> {
    Keys::new(Key::new("eth_msgs/0xabc"))
}

fn paths(changed: &[Key]) -> Vec<String> {
    changed.iter().map(|key| key.path.clone()).collect()
}

fn half_seen_by_v1() -> Tally {
    Tally {
        voting_power: power(1, 2),
        seen_by: Votes::from([(V1, 10)]),
        seen: false,
    }
}

fn vote_of_v2(numer: u64, denom: u64) -> VoteInfo {
    VoteInfo::new(
        Votes::from([(V2, 12)]),
        &powers(&[(V2, 12, power(numer, denom))]),
    )
}

#[test]
fn calculate_new_sums_the_powers() {
    let seen_by = Votes::from([(V1, 10), (V2, 11)]);
    let given = powers(&[(V1, 10, power(1, 3)), (V2, 11, power(1, 4)), (V3, 9, power(1, 5))]);
    let tally = calculate_new(seen_by.clone(), &given).unwrap();
    assert_eq!(tally.voting_power, power(7, 12));
    assert_eq!(tally.seen_by, seen_by);
    assert!(!tally.seen);
}

#[test]
fn calculate_new_is_seen_above_two_thirds() {
    let seen_by = Votes::from([(V1, 10), (V2, 11)]);
    let given = powers(&[(V1, 10, power(1, 3)), (V2, 11, power(1, 2))]);
    let tally = calculate_new(seen_by, &given).unwrap();
    assert_eq!(tally.voting_power, power(5, 6));
    assert!(tally.seen);
}

#[test]
fn calculate_new_is_not_seen_at_exactly_two_thirds() {
    let seen_by = Votes::from([(V1, 10), (V2, 10)]);
    let given = powers(&[(V1, 10, power(1, 3)), (V2, 10, power(1, 3))]);
    let tally = calculate_new(seen_by, &given).unwrap();
    assert_eq!(tally.voting_power, FractionalVotingPower::two_thirds());
    assert!(!tally.seen);
}

#[test]
fn calculate_new_of_no_votes_is_empty() {
    let tally = calculate_new(Votes::new(), &BTreeMap::new()).unwrap();
    assert_eq!(tally.voting_power, FractionalVotingPower::default());
    assert!(tally.seen_by.is_empty());
    assert!(!tally.seen);
}

#[test]
fn calculate_new_names_the_first_validator_without_power() {
    let seen_by = Votes::from([(V1, 10), (V2, 11), (V3, 12)]);
    let given = powers(&[(V1, 10, power(1, 3)), (V2, 10, power(1, 3)), (V3, 11, power(1, 3))]);
    assert_eq!(
        calculate_new(seen_by, &given).unwrap_err(),
        TallyError::MissingVotingPower { validator: V2 }
    );
}

#[test]
fn calculate_new_looks_powers_up_by_address_and_height() {
    let seen_by = Votes::from([(V1, 10)]);
    let given = powers(&[(V1, 11, power(1, 3)), (V2, 10, power(1, 3))]);
    assert_eq!(
        calculate_new(seen_by, &given).unwrap_err(),
        TallyError::MissingVotingPower { validator: V1 }
    );
}

#[test]
fn calculate_new_reports_a_sum_that_does_not_fit() {
    let seen_by = Votes::from([(V1, 10), (V2, 10)]);
    let given = powers(&[
        (V1, 10, power(1, (1u64 << 33) + 1)),
        (V2, 10, power(1, (1u64 << 33) - 1)),
    ]);
    assert_eq!(
        calculate_new(seen_by, &given).unwrap_err(),
        TallyError::VotingPowerOverflow
    );
}

#[test]
fn vote_info_joins_votes_and_powers() {
    let votes = Votes::from([(V1, 10), (V2, 11)]);
    let given = powers(&[(V1, 10, power(1, 3)), (V2, 11, power(1, 4)), (V3, 9, power(1, 5))]);
    let info = VoteInfo::new(votes, &given);
    assert_eq!(info.voters(), BTreeSet::from([V1, V2]));
    assert_eq!(info.get_vote_height(&V1), 10);
    assert_eq!(info.get_vote_height(&V2), 11);
    assert_eq!(info.get_vote_power(&V1), power(1, 3));
    assert_eq!(info.get_vote_power(&V2), power(1, 4));
}

#[test]
fn vote_info_of_no_votes_has_no_voters() {
    let info = VoteInfo::new(Votes::new(), &BTreeMap::new());
    assert!(info.voters().is_empty());
}

#[test]
fn update_crossing_the_quorum_is_seen() {
    let pre = half_seen_by_v1();
    let (post, changed) = calculate_updated(&pre, &keys(), &vote_of_v2(1, 4)).unwrap();
    assert_eq!(post.voting_power, power(3, 4));
    assert_eq!(post.seen_by, Votes::from([(V1, 10), (V2, 12)]));
    assert!(post.seen);
    assert_eq!(
        paths(&changed),
        vec![
            "eth_msgs/0xabc/seen".to_string(),
            "eth_msgs/0xabc/seen_by".to_string(),
            "eth_msgs/0xabc/voting_power".to_string(),
        ]
    );
}

#[test]
fn update_below_the_quorum_is_not_seen() {
    let pre = half_seen_by_v1();
    let (post, changed) = calculate_updated(&pre, &keys(), &vote_of_v2(1, 8)).unwrap();
    assert_eq!(post.voting_power, power(5, 8));
    assert_eq!(post.seen_by, Votes::from([(V1, 10), (V2, 12)]));
    assert!(!post.seen);
    assert_eq!(
        paths(&changed),
        vec![
            "eth_msgs/0xabc/seen_by".to_string(),
            "eth_msgs/0xabc/voting_power".to_string(),
        ]
    );
}

#[test]
fn update_reaching_exactly_two_thirds_is_not_seen() {
    let pre = half_seen_by_v1();
    let post = calculate_update(&pre, &vote_of_v2(1, 6)).unwrap();
    assert_eq!(post.voting_power, FractionalVotingPower::two_thirds());
    assert!(!post.seen);
}

#[test]
fn update_refuses_a_validator_that_has_voted() {
    let pre = half_seen_by_v1();
    let again = VoteInfo::new(
        Votes::from([(V1, 11)]),
        &powers(&[(V1, 11, power(1, 4))]),
    );
    assert_eq!(
        calculate_update(&pre, &again).unwrap_err(),
        TallyError::DuplicateVoters
    );
    assert_eq!(
        calculate_updated(&pre, &keys(), &again).unwrap_err(),
        TallyError::DuplicateVoters
    );
    assert_eq!(TallyError::DuplicateVoters.message(), "Duplicate voters found");
}

#[test]
fn update_refuses_duplicates_among_new_voters_too() {
    let pre = half_seen_by_v1();
    let mixed = VoteInfo::new(
        Votes::from([(V1, 11), (V2, 12)]),
        &powers(&[(V1, 11, power(1, 8)), (V2, 12, power(1, 8))]),
    );
    assert_eq!(
        calculate_update(&pre, &mixed).unwrap_err(),
        TallyError::DuplicateVoters
    );
}

#[test]
fn update_adds_every_new_voter() {
    let pre = half_seen_by_v1();
    let two = VoteInfo::new(
        Votes::from([(V2, 12), (V3, 13)]),
        &powers(&[(V2, 12, power(1, 8)), (V3, 13, power(1, 16))]),
    );
    let post = calculate_update(&pre, &two).unwrap();
    assert_eq!(post.voting_power, power(11, 16));
    assert_eq!(post.seen_by, Votes::from([(V1, 10), (V2, 12), (V3, 13)]));
    assert!(post.seen);
}

#[test]
fn update_reports_a_sum_that_does_not_fit() {
    let pre = Tally {
        voting_power: power(1, (1u64 << 33) + 1),
        seen_by: Votes::from([(V1, 10)]),
        seen: false,
    };
    let info = VoteInfo::new(
        Votes::from([(V2, 12)]),
        &powers(&[(V2, 12, power(1, (1u64 << 33) - 1))]),
    );
    assert_eq!(
        calculate_update(&pre, &info).unwrap_err(),
        TallyError::VotingPowerOverflow
    );
}

#[test]
fn update_with_no_votes_changes_nothing() {
    let pre = half_seen_by_v1();
    let none = VoteInfo::new(Votes::new(), &BTreeMap::new());
    let (post, changed) = calculate_updated(&pre, &keys(), &none).unwrap();
    assert_eq!(post.voting_power, pre.voting_power);
    assert_eq!(post.seen_by, pre.seen_by);
    assert_eq!(post.seen, pre.seen);
    assert!(changed.is_empty());
}

#[test]
fn validated_steps_never_go_back() {
    let mut tally = calculate_new(
        Votes::from([(V1, 10)]),
        &powers(&[(V1, 10, power(1, 3))]),
    )
    .unwrap();
    let steps = [(V2, 11, power(1, 3)), (V3, 12, power(1, 3))];
    for (validator, height, share) in steps {
        let info = VoteInfo::new(
            Votes::from([(validator, height)]),
            &powers(&[(validator, height, share)]),
        );
        let (post, _) = calculate_updated(&tally, &keys(), &info).unwrap();
        assert!(tally.seen_by.keys().all(|voter| post.seen_by.contains_key(voter)));
        assert!(post.voting_power.ge(&tally.voting_power));
        assert!(!tally.seen || post.seen);
        tally = post;
    }
    assert_eq!(tally.voting_power, power(1, 1));
    assert!(tally.seen);
}

#[test]
fn validate_accepts_an_unchanged_tally_below_the_quorum() {
    let pre = half_seen_by_v1();
    let changed = validate_update(&keys(), &pre, &pre.clone()).unwrap();
    assert!(changed.is_empty());
}

#[test]
fn validate_refuses_seen_going_back() {
    let pre = Tally {
        voting_power: power(3, 4),
        seen_by: Votes::from([(V1, 10)]),
        seen: true,
    };
    let post = Tally {
        voting_power: power(7, 8),
        seen_by: Votes::from([(V1, 10), (V2, 12)]),
        seen: false,
    };
    assert_eq!(
        validate_update(&keys(), &pre, &post).unwrap_err(),
        TallyError::SeenRegressed
    );
}

#[test]
fn validate_refuses_a_voter_that_left() {
    let pre = half_seen_by_v1();
    let post = Tally {
        voting_power: power(5, 8),
        seen_by: Votes::from([(V2, 12)]),
        seen: false,
    };
    assert_eq!(
        validate_update(&keys(), &pre, &post).unwrap_err(),
        TallyError::VotersRemoved
    );
    let emptied = Tally {
        voting_power: power(5, 8),
        seen_by: Votes::new(),
        seen: false,
    };
    assert_eq!(
        validate_update(&keys(), &pre, &emptied).unwrap_err(),
        TallyError::VotersRemoved
    );
}

#[test]
fn validate_refuses_a_voting_power_that_fell() {
    let pre = half_seen_by_v1();
    let post = Tally {
        voting_power: power(1, 4),
        seen_by: Votes::from([(V1, 10), (V2, 12)]),
        seen: false,
    };
    assert_eq!(
        validate_update(&keys(), &pre, &post).unwrap_err(),
        TallyError::VotingPowerNotIncreased
    );
}

#[test]
fn validate_refuses_a_quorum_that_did_not_grow_without_a_change_of_seen() {
    let pre = Tally {
        voting_power: power(3, 4),
        seen_by: Votes::from([(V1, 10)]),
        seen: false,
    };
    let post = Tally {
        voting_power: power(3, 4),
        seen_by: Votes::from([(V1, 10), (V2, 12)]),
        seen: false,
    };
    assert_eq!(
        validate_update(&keys(), &pre, &post).unwrap_err(),
        TallyError::QuorumNotSeen
    );
    let seen = Tally {
        voting_power: power(3, 4),
        seen_by: Votes::from([(V1, 10)]),
        seen: true,
    };
    assert_eq!(
        validate_update(&keys(), &seen, &seen.clone()).unwrap_err(),
        TallyError::QuorumNotSeen
    );
}

#[test]
fn validate_records_each_part_that_changed() {
    let pre = half_seen_by_v1();
    let only_voters = Tally {
        voting_power: power(1, 2),
        seen_by: Votes::from([(V1, 10), (V2, 12)]),
        seen: false,
    };
    assert_eq!(
        paths(&validate_update(&keys(), &pre, &only_voters).unwrap()),
        vec!["eth_msgs/0xabc/seen_by".to_string()]
    );
    let only_power = Tally {
        voting_power: power(5, 8),
        seen_by: Votes::from([(V1, 10)]),
        seen: false,
    };
    assert_eq!(
        paths(&validate_update(&keys(), &pre, &only_power).unwrap()),
        vec!["eth_msgs/0xabc/voting_power".to_string()]
    );
    let seen_and_power = Tally {
        voting_power: power(3, 4),
        seen_by: Votes::from([(V1, 10)]),
        seen: true,
    };
    assert_eq!(
        paths(&validate_update(&keys(), &pre, &seen_and_power).unwrap()),
        vec![
            "eth_msgs/0xabc/seen".to_string(),
            "eth_msgs/0xabc/voting_power".to_string(),
        ]
    );
}

#[test]
fn validate_looks_at_the_voters_not_at_their_heights() {
    let pre = half_seen_by_v1();
    let post = Tally {
        voting_power: power(1, 2),
        seen_by: Votes::from([(V1, 99)]),
        seen: false,
    };
    assert!(validate_update(&keys(), &pre, &post).unwrap().is_empty());
}

#[test]
fn keys_stand_below_the_prefix() {
    let keys = keys();
    assert_eq!(keys.seen().path, "eth_msgs/0xabc/seen");
    assert_eq!(keys.seen_by().path, "eth_msgs/0xabc/seen_by");
    assert_eq!(keys.voting_power().path, "eth_msgs/0xabc/voting_power");
    assert_eq!(keys.seen(), Key::new("eth_msgs/0xabc/seen"));
    assert_eq!(Key::new("a").push("b").path, "a/b");
}

#[test]
fn every_tally_error_has_its_message() {
    assert_eq!(
        TallyError::MissingVotingPower { validator: V1 }.message(),
        "voting power was not provided for validator"
    );
    assert_eq!(
        TallyError::VotingPowerOverflow.message(),
        "Tally voting_power is out of range"
    );
    assert_eq!(
        TallyError::SeenRegressed.message(),
        "Tally seen changed from true to false"
    );
    assert_eq!(TallyError::VotersRemoved.message(), "Tally seen_by lost a voter");
    assert_eq!(
        TallyError::VotingPowerNotIncreased.message(),
        "Tally voting_power changed without increasing"
    );
    assert_eq!(
        TallyError::QuorumNotSeen.message(),
        "Tally is not seen even though new voting_power is enough"
    );
}

#[test]
fn powers_are_given_where_each_vote_has_one() {
    let votes = Votes::from([(V1, 10), (V2, 11)]);
    let all = powers(&[(V1, 10, power(1, 3)), (V2, 11, power(1, 4))]);
    assert!(all_powers_are_given(&votes, &all));
    let other_height = powers(&[(V1, 10, power(1, 3)), (V2, 12, power(1, 4))]);
    assert!(!all_powers_are_given(&votes, &other_height));
    assert!(!all_powers_are_given(&votes, &BTreeMap::new()));
    assert!(all_powers_are_given(&Votes::new(), &BTreeMap::new()));
}

#[test]
fn a_vote_without_power_changes_the_voters_alone() {
    let pre = half_seen_by_v1();
    let (post, changed) = calculate_updated(&pre, &keys(), &vote_of_v2(0, 1)).unwrap();
    assert_eq!(post.voting_power, pre.voting_power);
    assert_eq!(post.seen_by, Votes::from([(V1, 10), (V2, 12)]));
    assert_eq!(paths(&changed), vec!["eth_msgs/0xabc/seen_by".to_string()]);
}

#[test]
fn a_vote_with_power_raises_the_voting_power() {
    let pre = half_seen_by_v1();
    let post = calculate_update(&pre, &vote_of_v2(1, 1_000_000)).unwrap();
    assert!(post.voting_power.gt(&pre.voting_power));
    assert_eq!(post.voting_power, power(500_001, 1_000_000));
}
