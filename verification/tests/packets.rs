use ledger_core::ibc::error::{
    ChannelError, ClientError, ContextError, PacketError, StorageError,
};
use ledger_core::ibc::parameters::{
    decode_duration_secs, is_parameter_set, max_expected_time_per_block,
};
use ledger_core::ibc::storage::{
    ack_key, channel_counter_key, client_counter_key, client_update_height_key,
    client_update_timestamp_key, commitment_key, connection_counter_key, consensus_state_prefix,
    ibc_key, max_expected_time_per_block_key, next_sequence_ack_key, next_sequence_recv_key,
    receipt_key,
};
use ledger_core::ibc::text::to_decimal;
use ledger_core::ibc::types::{
    AcknowledgementCommitment, ChannelId, ChannelPath, ClientId, DurationSecs, Height,
    PacketCommitment, PacketPath, PortId, Receipt, Sequence, Timestamp,
};
use ledger_core::ibc::validation::{
    client_update_height, client_update_time, get_packet_acknowledgement, get_packet_commitment,
    get_packet_receipt,
};

fn packet(sequence: u64) -> PacketPath {
    PacketPath {
        port_id: PortId("transfer".to_string()),
        channel_id: ChannelId("channel-7".to_string()),
        sequence: Sequence(sequence),
    }
}

fn channel() -> ChannelPath {
    ChannelPath {
        port_id: PortId("transfer".to_string()),
        channel_id: ChannelId("channel-7".to_string()),
    }
}

fn client() -> ClientId {
    ClientId("07-tendermint-3".to_string())
}

fn height() -> Height {
    Height::new(0, 1).unwrap()
}

fn packet_channel_error<T>(description: &str) -> Result<T, ContextError> {
    Err(ContextError::PacketError(PacketError::Channel(ChannelError::Other {
        description: description.to_string(),
    })))
}

fn client_error<T>(description: &str) -> Result<T, ContextError> {
    Err(ContextError::ClientError(ClientError::Other {
        description: description.to_string(),
    }))
}

fn client_specific<T>(description: &str) -> Result<T, ContextError> {
    Err(ContextError::ClientError(ClientError::ClientSpecific {
        description: description.to_string(),
    }))
}

#[test]
fn a_stored_commitment_is_handed_out() {
    assert_eq!(
        get_packet_commitment(&packet(5), &Ok(Some(vec![1, 2, 3]))),
        Ok(PacketCommitment(vec![1, 2, 3]))
    );
    assert_eq!(
        get_packet_commitment(&packet(5), &Ok(Some(vec![]))),
        Ok(PacketCommitment(vec![]))
    );
}

#[test]
fn a_missing_commitment_names_the_sequence() {
    assert_eq!(
        get_packet_commitment(&packet(5), &Ok(None)),
        Err(ContextError::PacketError(PacketError::PacketCommitmentNotFound {
            sequence: Sequence(5)
        }))
    );
}

#[test]
fn a_commitment_that_cannot_be_read_names_the_key() {
    assert_eq!(
        get_packet_commitment(&packet(5), &Err(StorageError)),
        packet_channel_error(
            "Reading commitment failed: Key ibc/commitments/ports/transfer/channels/channel-7/sequences/5"
        )
    );
}

#[test]
fn a_stored_receipt_says_received_whatever_it_holds() {
    assert_eq!(get_packet_receipt(&packet(1), &Ok(Some(vec![0]))), Ok(Receipt::Received));
    assert_eq!(get_packet_receipt(&packet(1), &Ok(Some(vec![]))), Ok(Receipt::Received));
    assert_eq!(get_packet_receipt(&packet(1), &Ok(Some(vec![9, 9]))), Ok(Receipt::Received));
}

#[test]
fn a_missing_receipt_names_the_sequence() {
    assert_eq!(
        get_packet_receipt(&packet(18), &Ok(None)),
        Err(ContextError::PacketError(PacketError::PacketReceiptNotFound {
            sequence: Sequence(18)
        }))
    );
}

#[test]
fn a_receipt_that_cannot_be_read_names_the_key() {
    assert_eq!(
        get_packet_receipt(&packet(18), &Err(StorageError)),
        packet_channel_error(
            "Reading the receipt failed: Key ibc/receipts/ports/transfer/channels/channel-7/sequences/18"
        )
    );
}

#[test]
fn a_stored_acknowledgement_is_handed_out() {
    assert_eq!(
        get_packet_acknowledgement(&packet(2), &Ok(Some(vec![4, 4]))),
        Ok(AcknowledgementCommitment(vec![4, 4]))
    );
}

#[test]
fn a_missing_acknowledgement_names_the_sequence() {
    assert_eq!(
        get_packet_acknowledgement(&packet(u64::MAX), &Ok(None)),
        Err(ContextError::PacketError(PacketError::PacketAcknowledgementNotFound {
            sequence: Sequence(u64::MAX)
        }))
    );
}

#[test]
fn an_acknowledgement_that_cannot_be_read_names_the_key() {
    assert_eq!(
        get_packet_acknowledgement(&packet(0), &Err(StorageError)),
        packet_channel_error(
            "Reading the ack commitment failed: Key ibc/acks/ports/transfer/channels/channel-7/sequences/0"
        )
    );
}

#[test]
fn keys_follow_the_paths_of_the_host() {
    assert_eq!(ibc_key("a/b").path, "ibc/a/b");
    assert_eq!(client_counter_key().path, "ibc/clientCounter");
    assert_eq!(connection_counter_key().path, "ibc/connectionCounter");
    assert_eq!(channel_counter_key().path, "ibc/channelCounter");
    assert_eq!(
        consensus_state_prefix(&client()).path,
        "ibc/clients/07-tendermint-3/consensusStates"
    );
    assert_eq!(
        client_update_timestamp_key(&client()).path,
        "ibc/clients/07-tendermint-3/update_time"
    );
    assert_eq!(
        client_update_height_key(&client()).path,
        "ibc/clients/07-tendermint-3/update_height"
    );
    assert_eq!(
        next_sequence_recv_key(&channel()).path,
        "ibc/nextSequenceRecv/ports/transfer/channels/channel-7"
    );
    assert_eq!(
        next_sequence_ack_key(&channel()).path,
        "ibc/nextSequenceAck/ports/transfer/channels/channel-7"
    );
    assert_eq!(
        commitment_key(&packet(12)).path,
        "ibc/commitments/ports/transfer/channels/channel-7/sequences/12"
    );
    assert_eq!(
        receipt_key(&packet(12)).path,
        "ibc/receipts/ports/transfer/channels/channel-7/sequences/12"
    );
    assert_eq!(
        ack_key(&packet(12)).path,
        "ibc/acks/ports/transfer/channels/channel-7/sequences/12"
    );
    assert_eq!(
        max_expected_time_per_block_key().path,
        "parameters/max_expected_time_per_block"
    );
}

#[test]
fn numbers_are_written_in_decimal() {
    assert_eq!(to_decimal(0), "0");
    assert_eq!(to_decimal(7), "7");
    assert_eq!(to_decimal(10), "10");
    assert_eq!(to_decimal(1234567890), "1234567890");
    assert_eq!(to_decimal(u64::MAX), "18446744073709551615");
    for number in [9u64, 99, 100, 101, 909, 1_000_000, 18_446_744_073_709_551_614] {
        assert_eq!(to_decimal(number), number.to_string());
    }
}

#[test]
fn the_update_time_of_a_client_is_decoded() {
    let stored = Ok(Some(vec![0x08, 0x80, 0xe2, 0xcf, 0xaa, 0x06, 0x10, 0x07]));
    assert_eq!(
        client_update_time(&client(), &height(), &stored),
        Ok(Timestamp { seconds: 1_700_000_000, nanos: 7 })
    );
    let other_height = Height::new(5, 5).unwrap();
    assert_eq!(
        client_update_time(&client(), &other_height, &stored),
        Ok(Timestamp { seconds: 1_700_000_000, nanos: 7 })
    );
}

#[test]
fn the_update_time_of_a_client_may_fail_in_three_ways() {
    assert_eq!(
        client_update_time(&client(), &height(), &Ok(Some(vec![0x08]))),
        client_error("Decoding the client update time failed: ID 07-tendermint-3")
    );
    assert_eq!(
        client_update_time(&client(), &height(), &Ok(None)),
        client_specific("The client update time doesn't exist: ID 07-tendermint-3")
    );
    assert_eq!(
        client_update_time(&client(), &height(), &Err(StorageError)),
        client_error("Reading the client update time failed: ID 07-tendermint-3")
    );
}

#[test]
fn the_update_height_of_a_client_is_decoded() {
    let stored = Ok(Some(vec![0x08, 0x02, 0x10, 0x2a]));
    assert_eq!(
        client_update_height(&client(), &height(), &stored),
        Ok(Height { revision_number: 2, revision_height: 42 })
    );
    let other_height = Height::new(5, 5).unwrap();
    assert_eq!(
        client_update_height(&client(), &other_height, &stored),
        Ok(Height { revision_number: 2, revision_height: 42 })
    );
}

#[test]
fn the_update_height_of_a_client_may_fail_in_three_ways() {
    assert_eq!(
        client_update_height(&client(), &height(), &Ok(Some(vec![0x10]))),
        client_error(
            "Decoding the height failed: Key ibc/clients/07-tendermint-3/update_height, error invalid varint"
        )
    );
    assert_eq!(
        client_update_height(&client(), &height(), &Ok(Some(vec![0x08, 0x02]))),
        client_error(
            "Decoding the height failed: Key ibc/clients/07-tendermint-3/update_height, error value out of range"
        )
    );
    assert_eq!(
        client_update_height(&client(), &height(), &Ok(None)),
        client_specific("The client update height doesn't exist: ID 07-tendermint-3")
    );
    assert_eq!(
        client_update_height(&client(), &height(), &Err(StorageError)),
        client_error("Reading the client update height failed: ID 07-tendermint-3")
    );
}

#[test]
fn a_duration_is_eight_bytes_least_first() {
    assert_eq!(
        decode_duration_secs(&[30, 0, 0, 0, 0, 0, 0, 0]),
        Some(DurationSecs(30))
    );
    assert_eq!(
        decode_duration_secs(&[1, 2, 0, 0, 0, 0, 0, 0]),
        Some(DurationSecs(513))
    );
    assert_eq!(
        decode_duration_secs(&[0, 0, 0, 0, 0, 0, 0, 0x80]),
        Some(DurationSecs(1 << 63))
    );
    assert_eq!(decode_duration_secs(&[0xff; 8]), Some(DurationSecs(u64::MAX)));
    assert_eq!(
        decode_duration_secs(&borsh::to_vec(&86_400u64).unwrap()),
        Some(DurationSecs(86_400))
    );
}

#[test]
fn a_duration_of_another_length_is_refused() {
    assert_eq!(decode_duration_secs(&[]), None);
    assert_eq!(decode_duration_secs(&[30, 0, 0, 0, 0, 0, 0]), None);
    assert_eq!(decode_duration_secs(&[30, 0, 0, 0, 0, 0, 0, 0, 0]), None);
}

#[test]
fn the_time_per_block_is_read_from_the_parameter() {
    let stored = Ok(Some(vec![30, 0, 0, 0, 0, 0, 0, 0]));
    assert!(is_parameter_set(&stored));
    assert_eq!(max_expected_time_per_block(&stored), DurationSecs(30));
}

#[test]
fn a_parameter_that_is_not_there_is_not_set() {
    assert!(!is_parameter_set(&Ok(None)));
    assert!(!is_parameter_set(&Err(StorageError)));
    assert!(!is_parameter_set(&Ok(Some(vec![1, 2, 3]))));
}
