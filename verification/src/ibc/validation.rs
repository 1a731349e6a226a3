//! What the validation context decides and computes from the values that the
//! store hands it.

use crate::ibc::error::{
    client_other, client_specific, connection_other, packet_channel_other, ClientError,
    ContextError, DecodeFault, Failure, PacketError, StorageError,
};
use crate::ibc::proto::{
    any_decoded, decode_any, decode_height, decode_timestamp, height_decoded, timestamp_decoded,
};
use crate::ibc::storage::{
    ack_key, client_update_height_key, commitment_key, packet_path_text, receipt_key,
};
use crate::ibc::text::{decimal, to_decimal};
use crate::ibc::types::{
    AckPath, AcknowledgementCommitment, Any, AnyView, ClientId, ClientState, CommitmentPath,
    ConsensusState, Header, Height, PacketCommitment, ProofSpecs, Receipt, ReceiptPath, Timestamp,
    TmClientState, TmConsensusState, TrustThreshold,
};
use vstd::pervasive::unreached;
use crate::votes::BlockHeight;
use vstd::prelude::*;
use vstd::string::StringExecFns;

verus! {

/// A result, with its error as contracts speak of it.
pub open spec fn outcome<T>(result: Result<T, ContextError>) -> Result<T, Failure> {
    match result {
        Ok(value) => Ok(value),
        Err(error) => Err(error@),
    }
}

/// One consensus state of a client as it is stored: the height that its key
/// names, and the stored bytes.
#[derive(Clone, Debug, PartialEq, Eq)]
pub struct ConsensusEntry {
    pub height: Height,
    pub value: Vec<u8>,
}

/// The entry at `i` has the least height above `target`, and is the first of
/// the entries with that height.
pub open spec fn is_least_above(entries: Seq<ConsensusEntry>, target: Height, i: int) -> bool {
    &&& 0 <= i < entries.len()
    &&& target.precedes(entries[i].height)
    &&& forall|j: int|
        0 <= j < entries.len() && target.precedes(#[trigger] entries[j].height)
            ==> !entries[j].height.precedes(entries[i].height)
    &&& forall|j: int| 0 <= j < i ==> (#[trigger] entries[j]).height != entries[i].height
}

/// The entry at `i` has the greatest height below `target`, and is the first
/// of the entries with that height.
pub open spec fn is_greatest_below(entries: Seq<ConsensusEntry>, target: Height, i: int) -> bool {
    &&& 0 <= i < entries.len()
    &&& entries[i].height.precedes(target)
    &&& forall|j: int|
        0 <= j < entries.len() && (#[trigger] entries[j].height).precedes(target)
            ==> !entries[i].height.precedes(entries[j].height)
    &&& forall|j: int| 0 <= j < i ==> (#[trigger] entries[j]).height != entries[i].height
}

/// The place of the entry with the least height above `target`, if there is
/// an entry above `target` at all.
pub open spec fn least_above(entries: Seq<ConsensusEntry>, target: Height) -> Option<int> {
    if exists|i: int| is_least_above(entries, target, i) {
        Some(choose|i: int| is_least_above(entries, target, i))
    } else {
        None
    }
}

/// The place of the entry with the greatest height below `target`, if there
/// is an entry below `target` at all.
pub open spec fn greatest_below(entries: Seq<ConsensusEntry>, target: Height) -> Option<int> {
    if exists|i: int| is_greatest_below(entries, target, i) {
        Some(choose|i: int| is_greatest_below(entries, target, i))
    } else {
        None
    }
}

/// Only one place holds the entry with the least height above a target.
pub proof fn lemma_least_above_is_unique(
    entries: Seq<ConsensusEntry>,
    target: Height,
    i: int,
    j: int,
)
    requires
        is_least_above(entries, target, i),
        is_least_above(entries, target, j),
    ensures
        i == j,
{
    assert(entries[i].height == entries[j].height);
}

/// Only one place holds the entry with the greatest height below a target.
pub proof fn lemma_greatest_below_is_unique(
    entries: Seq<ConsensusEntry>,
    target: Height,
    i: int,
    j: int,
)
    requires
        is_greatest_below(entries, target, i),
        is_greatest_below(entries, target, j),
    ensures
        i == j,
{
    assert(entries[i].height == entries[j].height);
}

/// Where no two entries have the same height, the next consensus state
/// after a height is the only entry with the least height above it, the
/// previous one the only entry with the greatest height below it, and
/// neither is at the height itself, in whatever order the entries stand.
pub proof fn lemma_neighbours(entries: Seq<ConsensusEntry>, target: Height, i: int, k: int)
    requires
        forall|a: int, b: int|
            0 <= a < b < entries.len() ==> (#[trigger] entries[a]).height
                != (#[trigger] entries[b]).height,
        0 <= k < entries.len(),
    ensures
        least_above(entries, target) == Some(i) ==> entries[i].height != target && (
        target.precedes(entries[k].height) && k != i ==> entries[i].height.precedes(
            entries[k].height,
        )),
        greatest_below(entries, target) == Some(i) ==> entries[i].height != target && (
        entries[k].height.precedes(target) && k != i ==> entries[k].height.precedes(
            entries[i].height,
        )),
{
    if least_above(entries, target) == Some(i) {
        assert(is_least_above(entries, target, i));
        if target.precedes(entries[k].height) && k != i {
            if k < i {
                assert(entries[k].height != entries[i].height);
            } else {
                assert(entries[i].height != entries[k].height);
            }
        }
    }
    if greatest_below(entries, target) == Some(i) {
        assert(is_greatest_below(entries, target, i));
        if entries[k].height.precedes(target) && k != i {
            if k < i {
                assert(entries[k].height != entries[i].height);
            } else {
                assert(entries[i].height != entries[k].height);
            }
        }
    }
}

/// Finds the entry with the least height strictly above `height`. Every
/// entry is looked at, in whatever order they stand.
pub fn lowest_above(entries: &Vec<ConsensusEntry>, height: &Height) -> (found: Option<usize>)
    ensures
        match found {
            Some(i) => least_above(entries@, *height) == Some(i as int),
            None => least_above(entries@, *height) is None,
        },
        found matches Some(i) ==> is_least_above(entries@, *height, i as int),
{
    let mut lowest: Option<usize> = None;
    let mut at: usize = 0;
    while at < entries.len()
        invariant
            at <= entries.len(),
            match lowest {
                Some(i) => is_least_above(entries@.take(at as int), *height, i as int),
                None => forall|j: int|
                    0 <= j < at ==> !height.precedes(#[trigger] entries@[j].height),
            },
        decreases entries.len() - at,
    {
        let candidate = &entries[at].height;
        let ghost before = entries@.take(at as int);
        let ghost after = entries@.take(at + 1);
        assert(forall|j: int| 0 <= j < at ==> before[j] == after[j]);
        if candidate.gt(height) {
            match lowest {
                Some(i) => {
                    if candidate.lt(&entries[i].height) {
                        lowest = Some(at);
                    }
                },
                None => {
                    lowest = Some(at);
                },
            }
        }
        at += 1;
    }
    assert(entries@.take(at as int) =~= entries@);
    proof {
        match lowest {
            Some(i) => {
                let other = choose|k: int| is_least_above(entries@, *height, k);
                lemma_least_above_is_unique(entries@, *height, i as int, other);
            },
            None => {
                assert forall|k: int| !is_least_above(entries@, *height, k) by {}
            },
        }
    }
    lowest
}

/// Finds the entry with the greatest height strictly below `height`. Every
/// entry is looked at, in whatever order they stand.
pub fn highest_below(entries: &Vec<ConsensusEntry>, height: &Height) -> (found: Option<usize>)
    ensures
        match found {
            Some(i) => greatest_below(entries@, *height) == Some(i as int),
            None => greatest_below(entries@, *height) is None,
        },
        found matches Some(i) ==> is_greatest_below(entries@, *height, i as int),
{
    let mut highest: Option<usize> = None;
    let mut at: usize = 0;
    while at < entries.len()
        invariant
            at <= entries.len(),
            match highest {
                Some(i) => is_greatest_below(entries@.take(at as int), *height, i as int),
                None => forall|j: int|
                    0 <= j < at ==> !(#[trigger] entries@[j].height).precedes(*height),
            },
        decreases entries.len() - at,
    {
        let candidate = &entries[at].height;
        let ghost before = entries@.take(at as int);
        let ghost after = entries@.take(at + 1);
        assert(forall|j: int| 0 <= j < at ==> before[j] == after[j]);
        if candidate.lt(height) {
            match highest {
                Some(i) => {
                    if candidate.gt(&entries[i].height) {
                        highest = Some(at);
                    }
                },
                None => {
                    highest = Some(at);
                },
            }
        }
        at += 1;
    }
    assert(entries@.take(at as int) =~= entries@);
    proof {
        match highest {
            Some(i) => {
                let other = choose|k: int| is_greatest_below(entries@, *height, k);
                lemma_greatest_below_is_unique(entries@, *height, i as int, other);
            },
            None => {
                assert forall|k: int| !is_greatest_below(entries@, *height, k) by {}
            },
        }
    }
    highest
}

/// What validating a counterparty's client of this chain gives: the first
/// of the checks that fails, or `Ok`.
pub open spec fn self_client_verdict(
    counterparty_client_state: Result<ClientState, ContextError>,
    chain_id: Result<String, StorageError>,
    height: Result<BlockHeight, StorageError>,
    proof_specs: ProofSpecs,
) -> Result<(), Failure> {
    match counterparty_client_state {
        Err(_) => Err(Failure::ConnectionOther("Decoding the client state failed"@)),
        Ok(ClientState::Foreign { .. }) => Err(
            Failure::ConnectionOther("The client state is not for Tendermint"@),
        ),
        Ok(ClientState::Tendermint(client_state)) => {
            if client_state.is_frozen {
                Err(Failure::ClientOther("The client is frozen"@))
            } else if chain_id is Err {
                Err(Failure::ConnectionOther("Getting the chain ID failed"@))
            } else if client_state.chain_id.id@ != chain_id->Ok_0@ {
                Err(
                    Failure::ClientOther(
                        "The chain ID mismatched: in the client state "@
                            + client_state.chain_id.id@,
                    ),
                )
            } else if client_state.chain_id.version != 0 {
                Err(
                    Failure::ClientOther(
                        "The chain ID revision is not zero: "@ + client_state.chain_id.id@,
                    ),
                )
            } else if height is Err {
                Err(Failure::ConnectionOther("Getting the block height failed"@))
            } else if client_state.latest_height.revision_height >= height->Ok_0 {
                Err(
                    Failure::ClientOther(
                        "The height of the client state is higher: Client state height "@
                            + client_state.latest_height.text(),
                    ),
                )
            } else if client_state.proof_specs@ != proof_specs@ {
                Err(Failure::ClientOther("The proof specs mismatched"@))
            } else if client_state.trust_level.below_one_third() {
                Err(Failure::ClientOther("The trust threshold is less 1/3"@))
            } else {
                Ok(())
            }
        },
    }
}

/// The verdict on a counterparty's client of this chain depends on nothing
/// but the client state, the chain's identifier, its height and its proof
/// specifications: two validations of the same values give the same verdict.
pub proof fn lemma_self_client_verdict_is_a_function(
    first: TmClientState,
    second: TmClientState,
    first_chain_id: String,
    second_chain_id: String,
    height: BlockHeight,
    first_proof_specs: ProofSpecs,
    second_proof_specs: ProofSpecs,
)
    requires
        first.is_frozen == second.is_frozen,
        first.chain_id.id@ == second.chain_id.id@,
        first.chain_id.version == second.chain_id.version,
        first.latest_height == second.latest_height,
        first.proof_specs@ == second.proof_specs@,
        first.trust_level == second.trust_level,
        first_chain_id@ == second_chain_id@,
        first_proof_specs@ == second_proof_specs@,
    ensures
        self_client_verdict(
            Ok(ClientState::Tendermint(first)),
            Ok(first_chain_id),
            Ok(height),
            first_proof_specs,
        ) == self_client_verdict(
            Ok(ClientState::Tendermint(second)),
            Ok(second_chain_id),
            Ok(height),
            second_proof_specs,
        ),
{
}

/// Validates the client state that a counterparty holds of this chain,
/// against the chain's own identifier, height and proof specifications as
/// they were read from the store. The client must be a Tendermint client that
/// is not frozen, name this chain in its revision 0, stand strictly below the
/// chain's height, use the chain's proof specifications, and trust at least
/// a third of the validators, the fraction taken in whole numbers.
pub fn validate_self_client(
    counterparty_client_state: &Result<ClientState, ContextError>,
    chain_id: &Result<String, StorageError>,
    height: &Result<BlockHeight, StorageError>,
    proof_specs: &ProofSpecs,
) -> (verdict: Result<(), ContextError>)
    ensures
        outcome(verdict) == self_client_verdict(
            *counterparty_client_state,
            *chain_id,
            *height,
            *proof_specs,
        ),
{
    let client_state = match counterparty_client_state {
        Err(_) => {
            return Err(connection_other(String::from_str("Decoding the client state failed")));
        },
        Ok(ClientState::Foreign { .. }) => {
            return Err(
                connection_other(String::from_str("The client state is not for Tendermint")),
            );
        },
        Ok(ClientState::Tendermint(client_state)) => client_state,
    };
    if client_state.is_frozen {
        return Err(client_other(String::from_str("The client is frozen")));
    }
    let chain_id = match chain_id {
        Err(_) => {
            return Err(connection_other(String::from_str("Getting the chain ID failed")));
        },
        Ok(chain_id) => chain_id,
    };
    if client_state.chain_id.id != *chain_id {
        let mut description = String::from_str("The chain ID mismatched: in the client state ");
        description.append(client_state.chain_id.as_str());
        return Err(client_other(description));
    }
    if client_state.chain_id.version() != 0 {
        let mut description = String::from_str("The chain ID revision is not zero: ");
        description.append(client_state.chain_id.as_str());
        return Err(client_other(description));
    }
    let height = match height {
        Err(_) => {
            return Err(connection_other(String::from_str("Getting the block height failed")));
        },
        Ok(height) => *height,
    };
    if client_state.latest_height.revision_height() >= height {
        let mut description = String::from_str(
            "The height of the client state is higher: Client state height ",
        );
        let latest = client_state.latest_height.to_text();
        description.append(latest.as_str());
        return Err(client_other(description));
    }
    if !client_state.proof_specs.same_as(proof_specs) {
        return Err(client_other(String::from_str("The proof specs mismatched")));
    }
    let trust_level = client_state.trust_level.numerator() / client_state.trust_level.denominator();
    let min_level = TrustThreshold::one_third();
    let min_level = min_level.numerator() / min_level.denominator();
    if trust_level < min_level {
        return Err(client_other(String::from_str("The trust threshold is less 1/3")));
    }
    Ok(())
}

/// The height of the host chain, as a height of its revision 0.
pub fn host_height(height: &Result<BlockHeight, StorageError>) -> (host: Result<
    Height,
    ContextError,
>)
    ensures
        outcome(host) == match *height {
            Err(_) => Err::<Height, Failure>(
                Failure::ClientOther("Getting the host height failed"@),
            ),
            Ok(height) => if height == 0 {
                Err(Failure::ClientInvalidHeight)
            } else {
                Ok(Height { revision_number: 0, revision_height: height })
            },
        },
        host matches Ok(host) ==> host.well_formed(),
{
    match height {
        Err(_) => Err(client_other(String::from_str("Getting the host height failed"))),
        Ok(height) => match Height::new(0, *height) {
            Ok(height) => Ok(height),
            Err(error) => Err(ContextError::ClientError(error)),
        },
    }
}

/// The time of the host chain: the time of the header that was read for its
/// height.
pub fn host_timestamp(header: &Result<Option<Header>, StorageError>) -> (time: Result<
    Timestamp,
    ContextError,
>)
    ensures
        outcome(time) == match *header {
            Err(_) => Err::<Timestamp, Failure>(
                Failure::ClientOther("Getting the host header failed"@),
            ),
            Ok(None) => Err(Failure::ClientOther("No host header"@)),
            Ok(Some(header)) => if header.time.encodable() {
                Ok(Timestamp { seconds: header.time.seconds, nanos: header.time.nanos })
            } else {
                Err(Failure::ClientOther("Converting to Tenderming time failed"@))
            },
        },
        time matches Ok(time) ==> time.well_formed(),
{
    match header {
        Err(_) => Err(client_other(String::from_str("Getting the host header failed"))),
        Ok(None) => Err(client_other(String::from_str("No host header"))),
        Ok(Some(header)) => match Timestamp::from_date_time(header.time) {
            Some(time) => Ok(time),
            None => Err(client_other(String::from_str("Converting to Tenderming time failed"))),
        },
    }
}

/// The consensus state of the host chain at `height`, as a stored
/// consensus state is compared with: `None`, or the failure, where the
/// header was not to be had.
pub open spec fn host_consensus_view(
    height: Height,
    header: Result<Option<Header>, StorageError>,
) -> Result<(Seq<u8>, Timestamp, Seq<u8>), Failure> {
    match header {
        Err(_) => Err(
            Failure::ClientOther(
                "Getting the header on this chain failed: Height "@ + decimal(
                    height.revision_height as nat,
                ),
            ),
        ),
        Ok(None) => Err(Failure::ClientOther("No host header"@)),
        Ok(Some(header)) => Ok(
            (
                header.hash@,
                Timestamp { seconds: header.time.seconds, nanos: header.time.nanos },
                header.next_validators_hash@,
            ),
        ),
    }
}

/// The consensus state of the host chain at `height`, made from the header
/// that was read for that height: the header's hash is the commitment root,
/// its time the time, its next validators' hash the next validators' hash.
/// The time of a header that is handed in must be one that a timestamp can
/// hold.
pub fn host_consensus_state(height: &Height, header: &Result<Option<Header>, StorageError>) -> (state:
    Result<ConsensusState, ContextError>)
    requires
        *header matches Ok(Some(header)) ==> header.time.encodable(),
    ensures
        match state {
            Ok(ConsensusState::Tendermint(state)) => host_consensus_view(*height, *header) == Ok::<
                (Seq<u8>, Timestamp, Seq<u8>),
                Failure,
            >((state.commitment_root@, state.time, state.next_validators_hash@))
                && state.time.well_formed(),
            Ok(ConsensusState::Foreign { .. }) => false,
            Err(error) => host_consensus_view(*height, *header) == Err::<
                (Seq<u8>, Timestamp, Seq<u8>),
                Failure,
            >(error@),
        },
{
    match header {
        Err(_) => {
            let mut description = String::from_str(
                "Getting the header on this chain failed: Height ",
            );
            let height = to_decimal(height.revision_height());
            description.append(height.as_str());
            Err(client_other(description))
        },
        Ok(None) => Err(client_other(String::from_str("No host header"))),
        Ok(Some(header)) => {
            let time = match Timestamp::from_date_time(header.time) {
                Some(time) => time,
                None => {
                    assert(false);
                    unreached()
                },
            };
            Ok(
                ConsensusState::Tendermint(
                    TmConsensusState {
                        commitment_root: header.hash.clone(),
                        time,
                        next_validators_hash: header.next_validators_hash.clone(),
                    },
                ),
            )
        },
    }
}

/// Why the consensus states of a client could not be walked.
#[derive(Clone, Copy, Debug, PartialEq, Eq, Structural)]
pub enum ScanFault {
    /// The walk could not be begun.
    Prefix,
    /// The walk broke off before its end.
    Next,
}

/// The description of a walk that failed.
pub open spec fn scan_failure(fault: ScanFault, client_id: ClientId, height: Height) -> Seq<char> {
    let failed = match fault {
        ScanFault::Prefix => "Reading the consensus state failed: ID "@,
        ScanFault::Next => "Iterating consensus states failed: ID "@,
    };
    failed + client_id@ + ", height "@ + height.text()
}

/// What comes of the entry that a search has found: nothing, where it found
/// none, else the envelope that the entry's bytes encode.
pub open spec fn found_state(entries: Seq<ConsensusEntry>, found: Option<int>) -> Result<
    Option<AnyView>,
    Failure,
> {
    match found {
        None => Ok(None),
        Some(i) => match any_decoded(entries[i].value@) {
            Ok(any) => Ok(Some(any)),
            Err(fault) => Err(Failure::ClientDecode(fault)),
        },
    }
}

/// What the search for the next consensus state of a client gives.
pub open spec fn next_consensus_verdict(
    client_id: ClientId,
    height: Height,
    scan: Result<Vec<ConsensusEntry>, ScanFault>,
) -> Result<Option<AnyView>, Failure> {
    match scan {
        Err(fault) => Err(Failure::ClientOther(scan_failure(fault, client_id, height))),
        Ok(entries) => found_state(entries@, least_above(entries@, height)),
    }
}

/// What the search for the previous consensus state of a client gives.
pub open spec fn prev_consensus_verdict(
    client_id: ClientId,
    height: Height,
    scan: Result<Vec<ConsensusEntry>, ScanFault>,
) -> Result<Option<AnyView>, Failure> {
    match scan {
        Err(fault) => Err(Failure::ClientOther(scan_failure(fault, client_id, height))),
        Ok(entries) => found_state(entries@, greatest_below(entries@, height)),
    }
}

/// A place in a list, as contracts speak of it.
pub open spec fn place(found: Option<usize>) -> Option<int> {
    match found {
        Some(i) => Some(i as int),
        None => None,
    }
}

/// The error of a walk that failed.
fn scan_error(fault: ScanFault, client_id: &ClientId, height: &Height) -> (error: ContextError)
    ensures
        error@ == Failure::ClientOther(scan_failure(fault, *client_id, *height)),
{
    let mut description = match fault {
        ScanFault::Prefix => String::from_str("Reading the consensus state failed: ID "),
        ScanFault::Next => String::from_str("Iterating consensus states failed: ID "),
    };
    description.append(client_id.0.as_str());
    description.append(", height ");
    let height = height.to_text();
    description.append(height.as_str());
    client_other(description)
}

/// Decodes the envelope of the entry that a search has found.
fn decode_found(entries: &Vec<ConsensusEntry>, found: Option<usize>) -> (state: Result<
    Option<Any>,
    ContextError,
>)
    requires
        found matches Some(i) ==> i < entries@.len(),
    ensures
        match state {
            Ok(None) => found_state(entries@, place(found)) == Ok::<
                Option<AnyView>,
                Failure,
            >(None),
            Ok(Some(any)) => found_state(entries@, place(found)) == Ok::<
                Option<AnyView>,
                Failure,
            >(Some(any@)),
            Err(error) => found_state(entries@, place(found)) == Err::<
                Option<AnyView>,
                Failure,
            >(error@),
        },
{
    match found {
        None => Ok(None),
        Some(i) => match decode_any(entries[i].value.as_slice()) {
            Ok(any) => Ok(Some(any)),
            Err(fault) => Err(ContextError::ClientError(ClientError::Decode(fault))),
        },
    }
}

/// The consensus state of a client that follows `height`: among the entries
/// that the walk of the client's consensus states has given, the one with
/// the least height strictly above `height`, as the envelope that its bytes
/// encode; nothing where no entry stands above `height`.
pub fn next_consensus_state(
    client_id: &ClientId,
    height: &Height,
    scan: &Result<Vec<ConsensusEntry>, ScanFault>,
) -> (state: Result<Option<Any>, ContextError>)
    ensures
        match state {
            Ok(None) => next_consensus_verdict(*client_id, *height, *scan) == Ok::<
                Option<AnyView>,
                Failure,
            >(None),
            Ok(Some(any)) => next_consensus_verdict(*client_id, *height, *scan) == Ok::<
                Option<AnyView>,
                Failure,
            >(Some(any@)),
            Err(error) => next_consensus_verdict(*client_id, *height, *scan) == Err::<
                Option<AnyView>,
                Failure,
            >(error@),
        },
{
    match scan {
        Err(fault) => Err(scan_error(*fault, client_id, height)),
        Ok(entries) => {
            let found = lowest_above(entries, height);
            decode_found(entries, found)
        },
    }
}

/// The consensus state of a client that precedes `height`: among the
/// entries that the walk of the client's consensus states has given, the one
/// with the greatest height strictly below `height`, as the envelope that its
/// bytes encode; nothing where no entry stands below `height`.
pub fn prev_consensus_state(
    client_id: &ClientId,
    height: &Height,
    scan: &Result<Vec<ConsensusEntry>, ScanFault>,
) -> (state: Result<Option<Any>, ContextError>)
    ensures
        match state {
            Ok(None) => prev_consensus_verdict(*client_id, *height, *scan) == Ok::<
                Option<AnyView>,
                Failure,
            >(None),
            Ok(Some(any)) => prev_consensus_verdict(*client_id, *height, *scan) == Ok::<
                Option<AnyView>,
                Failure,
            >(Some(any@)),
            Err(error) => prev_consensus_verdict(*client_id, *height, *scan) == Err::<
                Option<AnyView>,
                Failure,
            >(error@),
        },
{
    match scan {
        Err(fault) => Err(scan_error(*fault, client_id, height)),
        Ok(entries) => {
            let found = highest_below(entries, height);
            decode_found(entries, found)
        },
    }
}

/// What reading the time of a client's last update gives.
pub open spec fn client_update_time_verdict(
    client_id: ClientId,
    stored: Result<Option<Vec<u8>>, StorageError>,
) -> Result<Timestamp, Failure> {
    match stored {
        Ok(Some(value)) => match timestamp_decoded(value@) {
            Ok(time) => Ok(time),
            Err(_) => Err(
                Failure::ClientOther(
                    "Decoding the client update time failed: ID "@ + client_id@,
                ),
            ),
        },
        Ok(None) => Err(
            Failure::ClientSpecific("The client update time doesn't exist: ID "@ + client_id@),
        ),
        Err(_) => Err(
            Failure::ClientOther("Reading the client update time failed: ID "@ + client_id@),
        ),
    }
}

/// The time at which a client was last updated, from what is stored under
/// the client's key for it. One time is kept for a client, whatever the
/// height that is asked for.
pub fn client_update_time(
    client_id: &ClientId,
    _height: &Height,
    stored: &Result<Option<Vec<u8>>, StorageError>,
) -> (time: Result<Timestamp, ContextError>)
    ensures
        outcome(time) == client_update_time_verdict(*client_id, *stored),
        time matches Ok(time) ==> time.well_formed(),
{
    match stored {
        Ok(Some(value)) => match decode_timestamp(value.as_slice()) {
            Ok(time) => Ok(time),
            Err(_) => {
                let mut description = String::from_str(
                    "Decoding the client update time failed: ID ",
                );
                description.append(client_id.0.as_str());
                Err(client_other(description))
            },
        },
        Ok(None) => {
            let mut description = String::from_str("The client update time doesn't exist: ID ");
            description.append(client_id.0.as_str());
            Err(client_specific(description))
        },
        Err(_) => {
            let mut description = String::from_str("Reading the client update time failed: ID ");
            description.append(client_id.0.as_str());
            Err(client_other(description))
        },
    }
}

/// What reading the height of a client's last update gives.
pub open spec fn client_update_height_verdict(
    client_id: ClientId,
    stored: Result<Option<Vec<u8>>, StorageError>,
) -> Result<Height, Failure> {
    match stored {
        Ok(Some(value)) => match height_decoded(value@) {
            Ok(height) => Ok(height),
            Err(fault) => Err(
                Failure::ClientOther(
                    "Decoding the height failed: Key "@ + ("ibc/"@ + "clients/"@ + client_id@
                        + "/"@ + "update_height"@) + ", error "@ + fault.text(),
                ),
            ),
        },
        Ok(None) => Err(
            Failure::ClientSpecific("The client update height doesn't exist: ID "@ + client_id@),
        ),
        Err(_) => Err(
            Failure::ClientOther("Reading the client update height failed: ID "@ + client_id@),
        ),
    }
}

/// The height at which a client was last updated, from what is stored under
/// the client's key for it. One height is kept for a client, whatever the
/// height that is asked for.
pub fn client_update_height(
    client_id: &ClientId,
    _height: &Height,
    stored: &Result<Option<Vec<u8>>, StorageError>,
) -> (height: Result<Height, ContextError>)
    ensures
        outcome(height) == client_update_height_verdict(*client_id, *stored),
        height matches Ok(height) ==> height.well_formed(),
{
    match stored {
        Ok(Some(value)) => match decode_height(value.as_slice()) {
            Ok(height) => Ok(height),
            Err(fault) => {
                let key = client_update_height_key(client_id);
                let mut description = String::from_str("Decoding the height failed: Key ");
                description.append(key.path.as_str());
                description.append(", error ");
                description.append(fault.message());
                Err(client_other(description))
            },
        },
        Ok(None) => {
            let mut description = String::from_str("The client update height doesn't exist: ID ");
            description.append(client_id.0.as_str());
            Err(client_specific(description))
        },
        Err(_) => {
            let mut description = String::from_str(
                "Reading the client update height failed: ID ",
            );
            description.append(client_id.0.as_str());
            Err(client_other(description))
        },
    }
}

/// The commitment of a packet, from what is stored under the packet's key
/// for it.
pub fn get_packet_commitment(
    path: &CommitmentPath,
    stored: &Result<Option<Vec<u8>>, StorageError>,
) -> (commitment: Result<PacketCommitment, ContextError>)
    ensures
        match commitment {
            Ok(commitment) => *stored matches Ok(Some(value)) && commitment.0@ == value@,
            Err(error) => match *stored {
                Ok(Some(_)) => false,
                Ok(None) => error@ == Failure::PacketCommitmentNotFound(path.sequence),
                Err(_) => error@ == Failure::PacketChannelOther(
                    "Reading commitment failed: Key "@ + ("ibc/"@ + packet_path_text(
                        "commitments"@,
                        *path,
                    )),
                ),
            },
        },
{
    match stored {
        Ok(Some(value)) => Ok(PacketCommitment(value.clone())),
        Ok(None) => Err(
            ContextError::PacketError(
                PacketError::PacketCommitmentNotFound { sequence: path.sequence },
            ),
        ),
        Err(_) => {
            let key = commitment_key(path);
            let mut description = String::from_str("Reading commitment failed: Key ");
            description.append(key.path.as_str());
            Err(packet_channel_other(description))
        },
    }
}

/// The receipt of a packet, from what is stored under the packet's key for
/// it: whatever is stored there says that the packet was received.
pub fn get_packet_receipt(path: &ReceiptPath, stored: &Result<Option<Vec<u8>>, StorageError>) -> (receipt:
    Result<Receipt, ContextError>)
    ensures
        match receipt {
            Ok(receipt) => *stored matches Ok(Some(_)),
            Err(error) => match *stored {
                Ok(Some(_)) => false,
                Ok(None) => error@ == Failure::PacketReceiptNotFound(path.sequence),
                Err(_) => error@ == Failure::PacketChannelOther(
                    "Reading the receipt failed: Key "@ + ("ibc/"@ + packet_path_text(
                        "receipts"@,
                        *path,
                    )),
                ),
            },
        },
{
    match stored {
        Ok(Some(_)) => Ok(Receipt::Received),
        Ok(None) => Err(
            ContextError::PacketError(
                PacketError::PacketReceiptNotFound { sequence: path.sequence },
            ),
        ),
        Err(_) => {
            let key = receipt_key(path);
            let mut description = String::from_str("Reading the receipt failed: Key ");
            description.append(key.path.as_str());
            Err(packet_channel_other(description))
        },
    }
}

/// The acknowledgement of a packet, from what is stored under the packet's
/// key for it.
pub fn get_packet_acknowledgement(
    path: &AckPath,
    stored: &Result<Option<Vec<u8>>, StorageError>,
) -> (acknowledgement: Result<AcknowledgementCommitment, ContextError>)
    ensures
        match acknowledgement {
            Ok(acknowledgement) => *stored matches Ok(Some(value)) && acknowledgement.0@
                == value@,
            Err(error) => match *stored {
                Ok(Some(_)) => false,
                Ok(None) => error@ == Failure::PacketAcknowledgementNotFound(path.sequence),
                Err(_) => error@ == Failure::PacketChannelOther(
                    "Reading the ack commitment failed: Key "@ + ("ibc/"@ + packet_path_text(
                        "acks"@,
                        *path,
                    )),
                ),
            },
        },
{
    match stored {
        Ok(Some(value)) => Ok(AcknowledgementCommitment(value.clone())),
        Ok(None) => Err(
            ContextError::PacketError(
                PacketError::PacketAcknowledgementNotFound { sequence: path.sequence },
            ),
        ),
        Err(_) => {
            let key = ack_key(path);
            let mut description = String::from_str("Reading the ack commitment failed: Key ");
            description.append(key.path.as_str());
            Err(packet_channel_other(description))
        },
    }
}

/// The prefix under which the host chain commits to its IBC state.
pub fn commitment_prefix() -> (prefix: Vec<u8>)
    ensures
        prefix@ == seq![0x69u8, 0x62u8, 0x63u8],
{
    let mut prefix: Vec<u8> = Vec::new();
    prefix.push(0x69);
    prefix.push(0x62);
    prefix.push(0x63);
    assert(prefix@ =~= seq![0x69u8, 0x62u8, 0x63u8]);
    prefix
}

} // verus!
