use ledger_core::ibc::error::{ClientError, ContextError, DecodeFault};
use ledger_core::ibc::types::{Any, ClientId, Height};
use ledger_core::ibc::validation::{
    highest_below, lowest_above, next_consensus_state, prev_consensus_state, ConsensusEntry,
    ScanFault,
};

fn at(revision_height: u64) -> Height {
    Height::new(0, revision_height).unwrap()
}

fn envelope(type_url: &str, value: &[u8]) -> Vec<u8> {
    let mut bytes = Vec::new();
    prost::encoding::string::encode(1, &type_url.to_string(), &mut bytes);
    prost::encoding::bytes::encode(2, &value.to_vec(), &mut bytes);
    bytes
}

fn entry(revision_height: u64) -> ConsensusEntry {
    ConsensusEntry {
        height: at(revision_height),
        value: envelope("/ibc.lightclients.tendermint.v1.ConsensusState", &[revision_height as u8]),
    }
}

fn entries(heights: &[u64]) -> Vec<ConsensusEntry> {
    heights.iter().map(|height| entry(*height)).collect()
}

fn client() -> ClientId {
    ClientId("07-tendermint-0".to_string())
}

fn state_at(revision_height: u64) -> Any {
    Any {
        type_url: "/ibc.lightclients.tendermint.v1.ConsensusState".to_string(),
        value: vec![revision_height as u8],
    }
}

#[test]
fn next_is_the_least_height_above() {
    let scan = Ok(entries(&[5, 9, 14, 20]));
    assert_eq!(
        next_consensus_state(&client(), &at(10), &scan),
        Ok(Some(state_at(14)))
    );
}

#[test]
fn prev_is_the_greatest_height_below() {
    let scan = Ok(entries(&[5, 9, 14, 20]));
    assert_eq!(
        prev_consensus_state(&client(), &at(10), &scan),
        Ok(Some(state_at(9)))
    );
}

#[test]
fn next_of_the_greatest_height_is_none() {
    let scan = Ok(entries(&[5, 9, 14, 20]));
    assert_eq!(next_consensus_state(&client(), &at(20), &scan), Ok(None));
    assert_eq!(next_consensus_state(&client(), &at(21), &scan), Ok(None));
}

#[test]
fn prev_of_the_least_height_is_none() {
    let scan = Ok(entries(&[5, 9, 14, 20]));
    assert_eq!(prev_consensus_state(&client(), &at(5), &scan), Ok(None));
    assert_eq!(prev_consensus_state(&client(), &at(4), &scan), Ok(None));
}

#[test]
fn neighbours_never_are_the_height_itself() {
    let scan = Ok(entries(&[5, 9, 14, 20]));
    assert_eq!(
        next_consensus_state(&client(), &at(9), &scan),
        Ok(Some(state_at(14)))
    );
    assert_eq!(
        prev_consensus_state(&client(), &at(14), &scan),
        Ok(Some(state_at(9)))
    );
}

#[test]
fn neighbours_do_not_depend_on_the_order_of_the_walk() {
    let orders: [[u64; 4]; 4] = [[5, 9, 14, 20], [20, 14, 9, 5], [14, 5, 20, 9], [9, 20, 5, 14]];
    for order in orders {
        let scan = Ok(entries(&order));
        assert_eq!(
            next_consensus_state(&client(), &at(10), &scan),
            Ok(Some(state_at(14)))
        );
        assert_eq!(
            prev_consensus_state(&client(), &at(10), &scan),
            Ok(Some(state_at(9)))
        );
    }
}

#[test]
fn search_of_an_empty_index_finds_nothing() {
    let scan = Ok(Vec::new());
    assert_eq!(next_consensus_state(&client(), &at(10), &scan), Ok(None));
    assert_eq!(prev_consensus_state(&client(), &at(10), &scan), Ok(None));
    assert_eq!(lowest_above(&Vec::new(), &at(1)), None);
    assert_eq!(highest_below(&Vec::new(), &at(1)), None);
}

#[test]
fn search_gives_the_place_of_the_entry() {
    let index = entries(&[14, 5, 20, 9]);
    assert_eq!(lowest_above(&index, &at(10)), Some(0));
    assert_eq!(highest_below(&index, &at(10)), Some(3));
    assert_eq!(lowest_above(&index, &at(1)), Some(1));
    assert_eq!(highest_below(&index, &at(100)), Some(2));
    assert_eq!(lowest_above(&index, &at(20)), None);
    assert_eq!(highest_below(&index, &at(5)), None);
}

#[test]
fn search_keeps_the_first_of_equal_heights() {
    let index = entries(&[14, 9, 14, 9]);
    assert_eq!(lowest_above(&index, &at(10)), Some(0));
    assert_eq!(highest_below(&index, &at(10)), Some(1));
}

#[test]
fn heights_are_ordered_by_revision_first() {
    let index = vec![
        ConsensusEntry { height: Height::new(1, 2).unwrap(), value: Vec::new() },
        ConsensusEntry { height: Height::new(0, 50).unwrap(), value: Vec::new() },
        ConsensusEntry { height: Height::new(2, 1).unwrap(), value: Vec::new() },
    ];
    assert_eq!(lowest_above(&index, &Height::new(0, 99).unwrap()), Some(0));
    assert_eq!(lowest_above(&index, &Height::new(1, 2).unwrap()), Some(2));
    assert_eq!(highest_below(&index, &Height::new(1, 1).unwrap()), Some(1));
    assert_eq!(highest_below(&index, &Height::new(2, 1).unwrap()), Some(0));
    assert!(Height::new(0, 99).unwrap().lt(&Height::new(1, 1).unwrap()));
    assert!(Height::new(1, 1).unwrap().gt(&Height::new(0, 99).unwrap()));
    assert!(!Height::new(1, 1).unwrap().lt(&Height::new(1, 1).unwrap()));
}

#[test]
fn a_walk_that_could_not_begin_is_a_client_error() {
    let scan = Err(ScanFault::Prefix);
    let expected = ContextError::ClientError(ClientError::Other {
        description: "Reading the consensus state failed: ID 07-tendermint-0, height 0-10"
            .to_string(),
    });
    assert_eq!(next_consensus_state(&client(), &at(10), &scan), Err(expected.clone()));
    assert_eq!(prev_consensus_state(&client(), &at(10), &scan), Err(expected));
}

#[test]
fn a_walk_that_broke_off_is_a_client_error() {
    let scan = Err(ScanFault::Next);
    let expected = ContextError::ClientError(ClientError::Other {
        description: "Iterating consensus states failed: ID 07-tendermint-0, height 3-1234567890"
            .to_string(),
    });
    let height = Height::new(3, 1234567890).unwrap();
    assert_eq!(next_consensus_state(&client(), &height, &scan), Err(expected.clone()));
    assert_eq!(prev_consensus_state(&client(), &height, &scan), Err(expected));
}

#[test]
fn an_entry_that_does_not_decode_is_a_decode_error() {
    let mut index = entries(&[5, 9, 20]);
    index.push(ConsensusEntry { height: at(14), value: vec![0x0a, 0x05, b'a'] });
    let scan = Ok(index);
    assert_eq!(
        next_consensus_state(&client(), &at(10), &scan),
        Err(ContextError::ClientError(ClientError::Decode(
            DecodeFault::BufferUnderflow
        )))
    );
    assert_eq!(
        prev_consensus_state(&client(), &at(10), &scan),
        Ok(Some(state_at(9)))
    );
    assert_eq!(
        prev_consensus_state(&client(), &at(15), &scan),
        Err(ContextError::ClientError(ClientError::Decode(
            DecodeFault::BufferUnderflow
        )))
    );
}

#[test]
fn only_the_entry_that_is_found_is_decoded() {
    let mut index = entries(&[14]);
    index.push(ConsensusEntry { height: at(20), value: vec![0xff] });
    index.push(ConsensusEntry { height: at(5), value: vec![0xff] });
    let scan = Ok(index);
    assert_eq!(
        next_consensus_state(&client(), &at(10), &scan),
        Ok(Some(state_at(14)))
    );
}
