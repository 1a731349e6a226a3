//! The errors that the validation context hands to the IBC handler.

use crate::ibc::types::Sequence;
use vstd::prelude::*;

verus! {

/// The store could not be read.
#[derive(Clone, Copy, Debug, PartialEq, Eq, Structural)]
pub struct StorageError;

/// Why a protobuf message could not be decoded.
#[derive(Clone, Copy, Debug, PartialEq, Eq, Structural)]
pub enum DecodeFault {
    /// A varint ends too early, runs over ten bytes or exceeds 64 bits.
    InvalidVarint,
    /// A field key exceeds 32 bits.
    InvalidKey,
    /// A field key names a wire type that does not exist.
    InvalidWireType,
    /// A field key has the tag 0.
    InvalidTag,
    /// A known field is not encoded in the wire type of its kind.
    UnexpectedWireType,
    /// A field is longer than what is left of the message.
    BufferUnderflow,
    /// A string field is not UTF-8.
    InvalidString,
    /// A field that the message does not know is cut short or malformed.
    InvalidUnknownField,
    /// The message decodes to a value that is out of its type's range.
    InvalidValue,
}

impl DecodeFault {
    /// The fault in words.
    pub open spec fn text(self) -> Seq<char> {
        match self {
            DecodeFault::InvalidVarint => "invalid varint"@,
            DecodeFault::InvalidKey => "invalid key value"@,
            DecodeFault::InvalidWireType => "invalid wire type value"@,
            DecodeFault::InvalidTag => "invalid tag value: 0"@,
            DecodeFault::UnexpectedWireType => "invalid wire type"@,
            DecodeFault::BufferUnderflow => "buffer underflow"@,
            DecodeFault::InvalidString => "invalid string value: data is not UTF-8 encoded"@,
            DecodeFault::InvalidUnknownField => "invalid unknown field"@,
            DecodeFault::InvalidValue => "value out of range"@,
        }
    }

    /// The fault in words.
    pub fn message(&self) -> (text: &'static str)
        ensures
            text@ == self.text(),
    {
        match self {
            DecodeFault::InvalidVarint => "invalid varint",
            DecodeFault::InvalidKey => "invalid key value",
            DecodeFault::InvalidWireType => "invalid wire type value",
            DecodeFault::InvalidTag => "invalid tag value: 0",
            DecodeFault::UnexpectedWireType => "invalid wire type",
            DecodeFault::BufferUnderflow => "buffer underflow",
            DecodeFault::InvalidString => "invalid string value: data is not UTF-8 encoded",
            DecodeFault::InvalidUnknownField => "invalid unknown field",
            DecodeFault::InvalidValue => "value out of range",
        }
    }
}

/// An error of the client layer.
#[derive(Clone, Debug, PartialEq, Eq)]
pub enum ClientError {
    /// A description of what went wrong.
    Other { description: String },
    /// A description of what is wrong with this very client.
    ClientSpecific { description: String },
    /// A stored or received value could not be decoded.
    Decode(DecodeFault),
    /// A height with the revision height 0.
    InvalidHeight,
}

/// An error of the connection layer.
#[derive(Clone, Debug, PartialEq, Eq)]
pub enum ConnectionError {
    /// A description of what went wrong.
    Other { description: String },
}

/// An error of the channel layer.
#[derive(Clone, Debug, PartialEq, Eq)]
pub enum ChannelError {
    /// A description of what went wrong.
    Other { description: String },
}

/// An error of the packet layer.
#[derive(Clone, Debug, PartialEq, Eq)]
pub enum PacketError {
    /// No commitment is stored for the packet with this sequence number.
    PacketCommitmentNotFound { sequence: Sequence },
    /// No receipt is stored for the packet with this sequence number.
    PacketReceiptNotFound { sequence: Sequence },
    /// No acknowledgement is stored for the packet with this sequence number.
    PacketAcknowledgementNotFound { sequence: Sequence },
    /// An error of the channel below.
    Channel(ChannelError),
}

/// An error of the validation context.
#[derive(Clone, Debug, PartialEq, Eq)]
pub enum ContextError {
    ClientError(ClientError),
    ConnectionError(ConnectionError),
    ChannelError(ChannelError),
    PacketError(PacketError),
}

/// An error of the validation context, as contracts speak of it: each
/// description by its text.
pub enum Failure {
    ClientOther(Seq<char>),
    ClientSpecific(Seq<char>),
    ClientDecode(DecodeFault),
    ClientInvalidHeight,
    ConnectionOther(Seq<char>),
    ChannelOther(Seq<char>),
    PacketCommitmentNotFound(Sequence),
    PacketReceiptNotFound(Sequence),
    PacketAcknowledgementNotFound(Sequence),
    PacketChannelOther(Seq<char>),
}

impl View for ContextError {
    type V = Failure;

    open spec fn view(&self) -> Failure {
        match *self {
            ContextError::ClientError(ClientError::Other { description }) => Failure::ClientOther(
                description@,
            ),
            ContextError::ClientError(ClientError::ClientSpecific { description }) =>
                Failure::ClientSpecific(description@),
            ContextError::ClientError(ClientError::Decode(fault)) => Failure::ClientDecode(fault),
            ContextError::ClientError(ClientError::InvalidHeight) => Failure::ClientInvalidHeight,
            ContextError::ConnectionError(ConnectionError::Other { description }) =>
                Failure::ConnectionOther(description@),
            ContextError::ChannelError(ChannelError::Other { description }) =>
                Failure::ChannelOther(description@),
            ContextError::PacketError(PacketError::PacketCommitmentNotFound { sequence }) =>
                Failure::PacketCommitmentNotFound(sequence),
            ContextError::PacketError(PacketError::PacketReceiptNotFound { sequence }) =>
                Failure::PacketReceiptNotFound(sequence),
            ContextError::PacketError(PacketError::PacketAcknowledgementNotFound { sequence }) =>
                Failure::PacketAcknowledgementNotFound(sequence),
            ContextError::PacketError(PacketError::Channel(ChannelError::Other { description })) =>
                Failure::PacketChannelOther(description@),
        }
    }
}

/// A client error with the given description.
pub fn client_other(description: String) -> (error: ContextError)
    ensures
        error@ == Failure::ClientOther(description@),
{
    ContextError::ClientError(ClientError::Other { description })
}

/// A client error with the given description of this very client.
pub fn client_specific(description: String) -> (error: ContextError)
    ensures
        error@ == Failure::ClientSpecific(description@),
{
    ContextError::ClientError(ClientError::ClientSpecific { description })
}

/// A packet error of the channel below, with the given description.
pub fn packet_channel_other(description: String) -> (error: ContextError)
    ensures
        error@ == Failure::PacketChannelOther(description@),
{
    ContextError::PacketError(PacketError::Channel(ChannelError::Other { description }))
}

/// A connection error with the given description.
pub fn connection_other(description: String) -> (error: ContextError)
    ensures
        error@ == Failure::ConnectionOther(description@),
{
    ContextError::ConnectionError(ConnectionError::Other { description })
}

} // verus!
