//! The values that the validation context reads and hands out: identifiers,
//! heights, times, headers, client states and consensus states.

use crate::ibc::error::ClientError;
use crate::ibc::text::{decimal, to_decimal};
use vstd::prelude::*;
use vstd::string::StringExecFns;

verus! {

/// The identifier of a light client.
#[derive(Clone, Debug, PartialEq, Eq)]
pub struct ClientId(pub String);

impl View for ClientId {
    type V = Seq<char>;

    open spec fn view(&self) -> Seq<char> {
        self.0@
    }
}

/// The identifier of a port.
#[derive(Clone, Debug, PartialEq, Eq)]
pub struct PortId(pub String);

impl View for PortId {
    type V = Seq<char>;

    open spec fn view(&self) -> Seq<char> {
        self.0@
    }
}

/// The identifier of a channel.
#[derive(Clone, Debug, PartialEq, Eq)]
pub struct ChannelId(pub String);

impl View for ChannelId {
    type V = Seq<char>;

    open spec fn view(&self) -> Seq<char> {
        self.0@
    }
}

/// The number of a packet within its channel.
#[derive(Clone, Copy, Debug, PartialEq, Eq, Structural)]
pub struct Sequence(pub u64);

/// The path of a channel's end: of its next sequence numbers.
#[derive(Clone, Debug, PartialEq, Eq)]
pub struct ChannelPath {
    pub port_id: PortId,
    pub channel_id: ChannelId,
}

/// The path of the next sequence number to receive.
pub type SeqRecvPath = ChannelPath;

/// The path of the next sequence number to acknowledge.
pub type SeqAckPath = ChannelPath;

/// The path of what is kept for one packet.
#[derive(Clone, Debug, PartialEq, Eq)]
pub struct PacketPath {
    pub port_id: PortId,
    pub channel_id: ChannelId,
    pub sequence: Sequence,
}

/// The path of a packet's commitment.
pub type CommitmentPath = PacketPath;

/// The path of a packet's receipt.
pub type ReceiptPath = PacketPath;

/// The path of a packet's acknowledgement.
pub type AckPath = PacketPath;

/// A height of a chain: the revision of the chain, and the height within it.
/// Heights are ordered by revision first.
#[derive(Clone, Copy, Debug, PartialEq, Eq, Structural, PartialOrd, Ord)]
pub struct Height {
    pub revision_number: u64,
    pub revision_height: u64,
}

impl Height {
    /// What holds of every height that this library makes: there is no
    /// height 0.
    pub open spec fn well_formed(self) -> bool {
        self.revision_height != 0
    }

    /// `self < other`.
    pub open spec fn precedes(self, other: Height) -> bool {
        self.revision_number < other.revision_number || (self.revision_number
            == other.revision_number && self.revision_height < other.revision_height)
    }

    /// A height as text: the revision, a hyphen, the height within it.
    pub open spec fn text(self) -> Seq<char> {
        decimal(self.revision_number as nat) + "-"@ + decimal(self.revision_height as nat)
    }

    /// The height `revision_height` of the revision `revision_number`. There
    /// is no height 0.
    pub fn new(revision_number: u64, revision_height: u64) -> (height: Result<Height, ClientError>)
        ensures
            revision_height != 0 ==> height == Ok::<Height, ClientError>(
                Height { revision_number, revision_height },
            ),
            revision_height == 0 ==> height == Err::<Height, ClientError>(
                ClientError::InvalidHeight,
            ),
            height matches Ok(height) ==> height.well_formed(),
    {
        if revision_height == 0 {
            return Err(ClientError::InvalidHeight);
        }
        Ok(Height { revision_number, revision_height })
    }

    /// The revision of the chain.
    pub fn revision_number(&self) -> (number: u64)
        ensures
            number == self.revision_number,
    {
        self.revision_number
    }

    /// The height within the revision.
    pub fn revision_height(&self) -> (height: u64)
        ensures
            height == self.revision_height,
    {
        self.revision_height
    }

    /// `self < other`.
    pub fn lt(&self, other: &Height) -> (less: bool)
        ensures
            less == self.precedes(*other),
    {
        self.revision_number < other.revision_number || (self.revision_number
            == other.revision_number && self.revision_height < other.revision_height)
    }

    /// `self > other`.
    pub fn gt(&self, other: &Height) -> (greater: bool)
        ensures
            greater == other.precedes(*self),
    {
        other.lt(self)
    }

    /// The height as text.
    pub fn to_text(&self) -> (text: String)
        ensures
            text@ == self.text(),
    {
        let mut text = to_decimal(self.revision_number);
        text.append("-");
        let height = to_decimal(self.revision_height);
        text.append(height.as_str());
        text
    }
}

/// The least number of seconds since the Unix epoch that a timestamp can
/// hold: the first second of the year 1.
pub const MIN_SECONDS: i64 = -62_135_596_800;

/// The greatest number of seconds since the Unix epoch that a timestamp can
/// hold: the last second of the year 9999.
pub const MAX_SECONDS: i64 = 253_402_300_799;

/// The nanoseconds of a timestamp stay below one second.
pub const MAX_NANOS: u32 = 999_999_999;

/// A wall time as the host chain keeps it in its headers: seconds since the
/// Unix epoch and nanoseconds on top.
#[derive(Clone, Copy, Debug, PartialEq, Eq, Structural)]
pub struct DateTimeUtc {
    pub seconds: i64,
    pub nanos: u32,
}

impl DateTimeUtc {
    /// The time can be written as a protobuf timestamp: its year is between
    /// 1 and 9999, and its nanoseconds stay below one second.
    pub open spec fn encodable(self) -> bool {
        MIN_SECONDS <= self.seconds <= MAX_SECONDS && self.nanos <= MAX_NANOS
    }

    /// Whether the time can be written as a protobuf timestamp.
    pub fn is_encodable(&self) -> (encodable: bool)
        ensures
            encodable == self.encodable(),
    {
        MIN_SECONDS <= self.seconds && self.seconds <= MAX_SECONDS && self.nanos <= MAX_NANOS
    }
}

/// A point in time that can be written as a protobuf timestamp.
#[derive(Clone, Copy, Debug, PartialEq, Eq, Structural)]
pub struct Timestamp {
    pub seconds: i64,
    pub nanos: u32,
}

impl Timestamp {
    /// What holds of every timestamp that this library makes: its year is
    /// between 1 and 9999, and its nanoseconds stay below one second.
    pub open spec fn well_formed(self) -> bool {
        MIN_SECONDS <= self.seconds <= MAX_SECONDS && self.nanos <= MAX_NANOS
    }

    /// The timestamp of a wall time, where it has one.
    pub fn from_date_time(time: DateTimeUtc) -> (timestamp: Option<Timestamp>)
        ensures
            timestamp == if time.encodable() {
                Some(Timestamp { seconds: time.seconds, nanos: time.nanos })
            } else {
                None
            },
            timestamp matches Some(timestamp) ==> timestamp.well_formed(),
    {
        if time.is_encodable() {
            Some(Timestamp { seconds: time.seconds, nanos: time.nanos })
        } else {
            None
        }
    }
}

/// A header of the host chain.
#[derive(Clone, Debug, PartialEq, Eq)]
pub struct Header {
    /// The hash of the block.
    pub hash: Vec<u8>,
    /// The time of the block.
    pub time: DateTimeUtc,
    /// The hash of the validator set of the next block.
    pub next_validators_hash: Vec<u8>,
}

/// The identifier of a chain, with the revision that it names.
#[derive(Clone, Debug, PartialEq, Eq)]
pub struct ChainId {
    pub id: String,
    pub version: u64,
}

impl ChainId {
    /// The revision that the identifier names.
    pub fn version(&self) -> (version: u64)
        ensures
            version == self.version,
    {
        self.version
    }

    /// The identifier as text.
    pub fn as_str(&self) -> (id: &str)
        ensures
            id@ == self.id@,
    {
        self.id.as_str()
    }
}

/// The share of the validator set that a light client trusts: a fraction
/// with a denominator that is not 0.
#[derive(Clone, Copy, Debug, PartialEq, Eq, Structural)]
pub struct TrustThreshold {
    numerator: u64,
    denominator: u64,
}

impl TrustThreshold {
    /// What holds of every trust threshold: its denominator is not 0.
    #[verifier::type_invariant]
    pub open spec fn well_formed(self) -> bool {
        self.spec_denominator() > 0
    }

    /// The threshold is less than a third, both fractions taken in whole
    /// numbers.
    pub open spec fn below_one_third(self) -> bool {
        self.spec_numerator() / self.spec_denominator() < 1nat / 3nat
    }

    /// Taken in whole numbers, no threshold is less than a third.
    pub proof fn lemma_never_below_one_third(self)
        requires
            self.well_formed(),
        ensures
            !self.below_one_third(),
    {
        assert(self.spec_numerator() / self.spec_denominator() >= 0) by (nonlinear_arith)
            requires
                self.spec_denominator() > 0,
        ;
    }

    /// The numerator, as contracts speak of it.
    pub closed spec fn spec_numerator(self) -> nat {
        self.numerator as nat
    }

    /// The denominator, as contracts speak of it.
    pub closed spec fn spec_denominator(self) -> nat {
        self.denominator as nat
    }

    /// The threshold `numerator / denominator`. It is refused where the
    /// denominator is 0 or the fraction is more than 1.
    pub fn new(numerator: u64, denominator: u64) -> (threshold: Option<TrustThreshold>)
        ensures
            threshold is Some <==> denominator != 0 && numerator <= denominator,
            threshold matches Some(t) ==> t.spec_numerator() == numerator && t.spec_denominator()
                == denominator,
    {
        if denominator == 0 || numerator > denominator {
            None
        } else {
            Some(TrustThreshold { numerator, denominator })
        }
    }

    /// One third: the least share that a light client of this chain may
    /// trust.
    pub fn one_third() -> (threshold: TrustThreshold)
        ensures
            threshold.spec_numerator() == 1,
            threshold.spec_denominator() == 3,
    {
        TrustThreshold { numerator: 1, denominator: 3 }
    }

    /// The numerator.
    pub fn numerator(&self) -> (numerator: u64)
        ensures
            numerator == self.spec_numerator(),
    {
        self.numerator
    }

    /// The denominator.
    pub fn denominator(&self) -> (denominator: u64)
        ensures
            denominator == self.spec_denominator(),
            denominator > 0,
    {
        proof {
            use_type_invariant(self);
        }
        self.denominator
    }
}

/// A proof specification, held by its encoding: two specifications are the
/// same where their encodings are.
#[derive(Clone, Debug, PartialEq, Eq)]
pub struct ProofSpec {
    pub encoding: Vec<u8>,
}

/// The proof specifications of a chain, in their order.
#[derive(Clone, Debug, PartialEq, Eq)]
pub struct ProofSpecs {
    pub specs: Vec<ProofSpec>,
}

impl View for ProofSpecs {
    type V = Seq<Seq<u8>>;

    open spec fn view(&self) -> Seq<Seq<u8>> {
        self.specs@.map_values(|spec: ProofSpec| spec.encoding@)
    }
}

/// Whether two byte strings are the same.
pub fn same_bytes(a: &Vec<u8>, b: &Vec<u8>) -> (same: bool)
    ensures
        same == (a@ == b@),
{
    if a.len() != b.len() {
        return false;
    }
    let mut i: usize = 0;
    while i < a.len()
        invariant
            a.len() == b.len(),
            i <= a.len(),
            forall|j: int| 0 <= j < i ==> a@[j] == b@[j],
        decreases a.len() - i,
    {
        if a[i] != b[i] {
            return false;
        }
        i += 1;
    }
    assert(a@ =~= b@);
    true
}

impl ProofSpecs {
    /// Whether these are the same specifications, in the same order.
    pub fn same_as(&self, other: &ProofSpecs) -> (same: bool)
        ensures
            same == (self@ == other@),
    {
        if self.specs.len() != other.specs.len() {
            assert(self@.len() != other@.len());
            return false;
        }
        let mut i: usize = 0;
        while i < self.specs.len()
            invariant
                self.specs.len() == other.specs.len(),
                i <= self.specs.len(),
                forall|j: int| 0 <= j < i ==> self@[j] == other@[j],
            decreases self.specs.len() - i,
        {
            if !same_bytes(&self.specs[i].encoding, &other.specs[i].encoding) {
                assert(self@[i as int] != other@[i as int]);
                return false;
            }
            i += 1;
        }
        assert(self@ =~= other@);
        true
    }
}

/// The state of a Tendermint light client.
#[derive(Clone, Debug, PartialEq, Eq)]
pub struct TmClientState {
    /// The chain that the client follows.
    pub chain_id: ChainId,
    /// The share of the validator set that the client trusts.
    pub trust_level: TrustThreshold,
    /// The latest height that the client has been updated to.
    pub latest_height: Height,
    /// The proof specifications of the chain.
    pub proof_specs: ProofSpecs,
    /// Whether the client has been frozen for misbehaviour.
    pub is_frozen: bool,
}

/// The state of a light client, by the kind of the client.
#[derive(Clone, Debug, PartialEq, Eq)]
pub enum ClientState {
    /// A Tendermint light client.
    Tendermint(TmClientState),
    /// A client of another kind, named by the type URL of its state.
    Foreign { type_url: String },
}

/// A consensus state of a Tendermint chain: what a block has committed to.
#[derive(Clone, Debug, PartialEq, Eq)]
pub struct TmConsensusState {
    /// The root of the commitments.
    pub commitment_root: Vec<u8>,
    /// The time of the block.
    pub time: Timestamp,
    /// The hash of the validator set of the next block.
    pub next_validators_hash: Vec<u8>,
}

/// A consensus state, by the kind of the client that it belongs to.
#[derive(Clone, Debug, PartialEq, Eq)]
pub enum ConsensusState {
    /// A consensus state of a Tendermint chain.
    Tendermint(TmConsensusState),
    /// A consensus state of another kind, named by its type URL.
    Foreign { type_url: String },
}

/// What is stored of a packet that was sent: a commitment to its data.
#[derive(Clone, Debug, PartialEq, Eq)]
pub struct PacketCommitment(pub Vec<u8>);

/// What is stored of a packet that was acknowledged: a commitment to the
/// acknowledgement.
#[derive(Clone, Debug, PartialEq, Eq)]
pub struct AcknowledgementCommitment(pub Vec<u8>);

/// What is stored of a packet that was received: that it was.
#[derive(Clone, Copy, Debug, PartialEq, Eq, Structural)]
pub enum Receipt {
    Received,
}

/// A time span in whole seconds.
#[derive(Clone, Copy, Debug, PartialEq, Eq, Structural)]
pub struct DurationSecs(pub u64);

/// A protobuf `Any` envelope: a type URL and the encoded value.
#[derive(Clone, Debug, PartialEq, Eq)]
pub struct Any {
    pub type_url: String,
    pub value: Vec<u8>,
}

/// An envelope, as contracts speak of it.
pub struct AnyView {
    pub type_url: Seq<char>,
    pub value: Seq<u8>,
}

impl View for Any {
    type V = AnyView;

    open spec fn view(&self) -> AnyView {
        AnyView { type_url: self.type_url@, value: self.value@ }
    }
}

} // verus!
