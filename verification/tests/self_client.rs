use ledger_core::ibc::error::{
    ClientError, ConnectionError, ContextError, StorageError,
};
use ledger_core::ibc::types::{
    ChainId, ClientState, Height, ProofSpec, ProofSpecs, TmClientState, TrustThreshold,
};
use ledger_core::ibc::validation::validate_self_client;

fn specs() -> ProofSpecs {
    ProofSpecs {
        specs: vec![
            ProofSpec { encoding: vec![1, 2, 3] },
            ProofSpec { encoding: vec![4, 5] },
        ],
    }
}

fn state() -> TmClientState {
    TmClientState {
        chain_id: ChainId { id: "A-0".to_string(), version: 0 },
        trust_level: TrustThreshold::new(1, 3).unwrap(),
        latest_height: Height::new(0, 99).unwrap(),
        proof_specs: specs(),
        is_frozen: false,
    }
}

fn validate(state: TmClientState) -> Result<(), ContextError> {
    validate_self_client(
        &Ok(ClientState::Tendermint(state)),
        &Ok("A-0".to_string()),
        &Ok(100),
        &specs(),
    )
}

fn client_error(description: &str) -> Result<(), ContextError> {
    Err(ContextError::ClientError(ClientError::Other {
        description: description.to_string(),
    }))
}

fn connection_error(description: &str) -> Result<(), ContextError> {
    Err(ContextError::ConnectionError(ConnectionError::Other {
        description: description.to_string(),
    }))
}

#[test]
fn a_client_of_this_chain_is_accepted() {
    assert_eq!(validate(state()), Ok(()));
}

#[test]
fn a_frozen_client_is_refused() {
    let frozen = TmClientState { is_frozen: true, ..state() };
    assert_eq!(validate(frozen), client_error("The client is frozen"));
}

#[test]
fn a_client_of_another_chain_is_refused() {
    let other = TmClientState {
        chain_id: ChainId { id: "B-0".to_string(), version: 0 },
        ..state()
    };
    assert_eq!(
        validate(other),
        client_error("The chain ID mismatched: in the client state B-0")
    );
}

#[test]
fn a_client_at_the_height_of_the_chain_is_refused() {
    let level = TmClientState { latest_height: Height::new(0, 100).unwrap(), ..state() };
    assert_eq!(
        validate(level),
        client_error("The height of the client state is higher: Client state height 0-100")
    );
    let above = TmClientState { latest_height: Height::new(0, 101).unwrap(), ..state() };
    assert_eq!(
        validate(above),
        client_error("The height of the client state is higher: Client state height 0-101")
    );
}

#[test]
fn a_client_of_another_revision_is_refused() {
    let revised = TmClientState {
        chain_id: ChainId { id: "A-0".to_string(), version: 1 },
        ..state()
    };
    assert_eq!(
        validate(revised),
        client_error("The chain ID revision is not zero: A-0")
    );
}

#[test]
fn a_client_with_other_proof_specs_is_refused() {
    let fewer = TmClientState {
        proof_specs: ProofSpecs { specs: vec![ProofSpec { encoding: vec![1, 2, 3] }] },
        ..state()
    };
    assert_eq!(validate(fewer), client_error("The proof specs mismatched"));
    let swapped = TmClientState {
        proof_specs: ProofSpecs {
            specs: vec![
                ProofSpec { encoding: vec![4, 5] },
                ProofSpec { encoding: vec![1, 2, 3] },
            ],
        },
        ..state()
    };
    assert_eq!(validate(swapped), client_error("The proof specs mismatched"));
    let altered = TmClientState {
        proof_specs: ProofSpecs {
            specs: vec![
                ProofSpec { encoding: vec![1, 2, 3] },
                ProofSpec { encoding: vec![4, 6] },
            ],
        },
        ..state()
    };
    assert_eq!(validate(altered), client_error("The proof specs mismatched"));
}

#[test]
fn any_trust_level_passes_in_whole_numbers() {
    for (numerator, denominator) in [(1, 3), (1, 4), (0, 5), (1, 1), (1, 1000)] {
        let trusting = TmClientState {
            trust_level: TrustThreshold::new(numerator, denominator).unwrap(),
            ..state()
        };
        assert_eq!(validate(trusting), Ok(()));
    }
}

#[test]
fn a_trust_threshold_needs_a_denominator() {
    assert!(TrustThreshold::new(0, 0).is_none());
    assert!(TrustThreshold::new(1, 0).is_none());
    assert!(TrustThreshold::new(4, 3).is_none());
    let third = TrustThreshold::one_third();
    assert_eq!((third.numerator(), third.denominator()), (1, 3));
    let given = TrustThreshold::new(2, 6).unwrap();
    assert_eq!((given.numerator(), given.denominator()), (2, 6));
}

#[test]
fn a_client_state_that_did_not_decode_is_refused() {
    let failed = Err(ContextError::ClientError(ClientError::InvalidHeight));
    assert_eq!(
        validate_self_client(&failed, &Ok("A-0".to_string()), &Ok(100), &specs()),
        connection_error("Decoding the client state failed")
    );
}

#[test]
fn a_client_state_of_another_kind_is_refused() {
    let foreign = Ok(ClientState::Foreign { type_url: "/ibc.mock.ClientState".to_string() });
    assert_eq!(
        validate_self_client(&foreign, &Ok("A-0".to_string()), &Ok(100), &specs()),
        connection_error("The client state is not for Tendermint")
    );
}

#[test]
fn a_chain_id_that_cannot_be_read_is_a_connection_error() {
    let given = Ok(ClientState::Tendermint(state()));
    assert_eq!(
        validate_self_client(&given, &Err(StorageError), &Ok(100), &specs()),
        connection_error("Getting the chain ID failed")
    );
}

#[test]
fn a_height_that_cannot_be_read_is_a_connection_error() {
    let given = Ok(ClientState::Tendermint(state()));
    assert_eq!(
        validate_self_client(&given, &Ok("A-0".to_string()), &Err(StorageError), &specs()),
        connection_error("Getting the block height failed")
    );
}

#[test]
fn the_first_failing_check_decides() {
    let frozen_elsewhere = TmClientState {
        is_frozen: true,
        chain_id: ChainId { id: "B-7".to_string(), version: 7 },
        latest_height: Height::new(0, 500).unwrap(),
        ..state()
    };
    let given = Ok(ClientState::Tendermint(frozen_elsewhere));
    assert_eq!(
        validate_self_client(&given, &Err(StorageError), &Err(StorageError), &specs()),
        client_error("The client is frozen")
    );
    let elsewhere = TmClientState {
        chain_id: ChainId { id: "B-7".to_string(), version: 7 },
        latest_height: Height::new(0, 500).unwrap(),
        ..state()
    };
    assert_eq!(
        validate_self_client(
            &Ok(ClientState::Tendermint(elsewhere)),
            &Ok("A-0".to_string()),
            &Err(StorageError),
            &specs()
        ),
        client_error("The chain ID mismatched: in the client state B-7")
    );
    let revised_and_high = TmClientState {
        chain_id: ChainId { id: "A-0".to_string(), version: 2 },
        latest_height: Height::new(0, 500).unwrap(),
        ..state()
    };
    assert_eq!(
        validate(revised_and_high),
        client_error("The chain ID revision is not zero: A-0")
    );
}

#[test]
fn the_verdict_is_the_same_for_the_same_values() {
    let once = validate(state());
    let twice = validate(state().clone());
    assert_eq!(once, twice);
    let frozen = TmClientState { is_frozen: true, ..state() };
    assert_eq!(validate(frozen.clone()), validate(frozen));
}
