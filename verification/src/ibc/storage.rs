//! The storage keys of the IBC state and of the chain parameters that the
//! validation context reads.

use crate::ibc::text::{
    chars_of, decimal, find_first, find_last, first_place, last_place, lemma_decimal_reads_back,
    lemma_first_place, lemma_is_first_place, lemma_is_last_place, lemma_parse_of_decimal,
    parse_number, parsed_number, to_decimal,
};
use crate::ibc::types::{ChannelPath, ClientId, Height, PacketPath};
use crate::storage::Key;
use vstd::prelude::*;
use vstd::string::StringExecFns;

verus! {

/// The key of an IBC path: the path below `ibc`.
pub fn ibc_key(path: &str) -> (key: Key)
    ensures
        key@ == "ibc/"@ + path@,
{
    let mut text = String::from_str("ibc/");
    text.append(path);
    Key { path: text }
}

/// The key of the counter of clients.
pub fn client_counter_key() -> (key: Key)
    ensures
        key@ == "ibc/"@ + "clientCounter"@,
{
    ibc_key("clientCounter")
}

/// The key of the counter of connections.
pub fn connection_counter_key() -> (key: Key)
    ensures
        key@ == "ibc/"@ + "connectionCounter"@,
{
    ibc_key("connectionCounter")
}

/// The key of the counter of channels.
pub fn channel_counter_key() -> (key: Key)
    ensures
        key@ == "ibc/"@ + "channelCounter"@,
{
    ibc_key("channelCounter")
}

/// The key of what is kept for a client under the name `part`.
fn client_key(client_id: &ClientId, part: &str) -> (key: Key)
    ensures
        key@ == "ibc/"@ + "clients/"@ + client_id@ + "/"@ + part@,
{
    let mut text = String::from_str("ibc/");
    text.append("clients/");
    text.append(client_id.0.as_str());
    text.append("/");
    text.append(part);
    Key { path: text }
}

/// The prefix of the keys of a client's consensus states.
pub fn consensus_state_prefix(client_id: &ClientId) -> (key: Key)
    ensures
        key@ == "ibc/"@ + "clients/"@ + client_id@ + "/"@ + "consensusStates"@,
{
    client_key(client_id, "consensusStates")
}

/// The key of the time at which a client was last updated.
pub fn client_update_timestamp_key(client_id: &ClientId) -> (key: Key)
    ensures
        key@ == "ibc/"@ + "clients/"@ + client_id@ + "/"@ + "update_time"@,
{
    client_key(client_id, "update_time")
}

/// The key of the height at which a client was last updated.
pub fn client_update_height_key(client_id: &ClientId) -> (key: Key)
    ensures
        key@ == "ibc/"@ + "clients/"@ + client_id@ + "/"@ + "update_height"@,
{
    client_key(client_id, "update_height")
}

/// `head` is the prefix of the keys of some client's consensus states: the
/// client's identifier, which is not empty and holds no `/`, between
/// `ibc/clients/` and `/consensusStates`.
pub open spec fn is_consensus_state_prefix(head: Seq<char>) -> bool {
    let before = "ibc/clients/"@;
    let after = "/consensusStates"@;
    &&& head.len() > before.len() + after.len()
    &&& head.subrange(0, before.len() as int) == before
    &&& head.subrange(head.len() - after.len(), head.len() as int) == after
    &&& first_place(head.subrange(before.len() as int, head.len() - after.len()), '/') is None
}

/// The height that the key of a consensus state names: what follows the
/// last `/` of the key is the revision, a hyphen, and the height within
/// the revision, and what precedes it is the prefix of a client's consensus
/// states. There is no height 0.
pub open spec fn consensus_height_of(path: Seq<char>) -> Option<Height> {
    match last_place(path, '/') {
        None => None,
        Some(slash) => {
            let tail = path.subrange(slash + 1, path.len() as int);
            match first_place(tail, '-') {
                None => None,
                Some(hyphen) => match (
                    parsed_number(tail.subrange(0, hyphen)),
                    parsed_number(tail.subrange(hyphen + 1, tail.len() as int)),
                ) {
                    (Some(revision_number), Some(revision_height)) => if revision_height != 0
                        && is_consensus_state_prefix(path.subrange(0, slash)) {
                        Some(Height { revision_number, revision_height })
                    } else {
                        None
                    },
                    _ => None,
                },
            }
        },
    }
}

/// The key of a client's consensus state at a height, as text.
pub open spec fn consensus_state_key_text(client_id: Seq<char>, height: Height) -> Seq<char> {
    "ibc/clients/"@ + client_id + "/consensusStates"@ + "/"@ + height.text()
}

/// The key of a client's consensus state at a height.
pub fn consensus_state_key(client_id: &ClientId, height: &Height) -> (key: Key)
    ensures
        key@ == consensus_state_key_text(client_id@, *height),
{
    let mut text = String::from_str("ibc/clients/");
    text.append(client_id.0.as_str());
    text.append("/consensusStates");
    text.append("/");
    let height = height.to_text();
    text.append(height.as_str());
    Key { path: text }
}

/// The key of a client's consensus state names the height it was made for:
/// a key that is written for a height, and read again, gives that height.
pub proof fn lemma_consensus_height_of_key(client_id: Seq<char>, height: Height)
    requires
        client_id.len() > 0,
        forall|i: int| 0 <= i < client_id.len() ==> client_id[i] != '/',
        height.revision_height != 0,
    ensures
        consensus_height_of(consensus_state_key_text(client_id, height)) == Some(height),
{
    reveal_strlit("ibc/clients/");
    reveal_strlit("/consensusStates");
    reveal_strlit("/");
    reveal_strlit("-");
    let before = "ibc/clients/"@;
    let after = "/consensusStates"@;
    let revision = decimal(height.revision_number as nat);
    let within = decimal(height.revision_height as nat);
    let path = consensus_state_key_text(client_id, height);
    let head = before + client_id + after;
    let tail = revision + "-"@ + within;
    let slash = head.len() as int;
    lemma_decimal_reads_back(height.revision_number as nat);
    lemma_decimal_reads_back(height.revision_height as nat);
    lemma_parse_of_decimal(height.revision_number);
    lemma_parse_of_decimal(height.revision_height);
    assert(height.text() =~= tail);
    assert(path =~= head + "/"@ + tail);
    assert(path[slash] == '/');
    assert forall|i: int| slash < i < path.len() implies path[i] != '/' by {
        let j = i - slash - 1;
        assert(path[i] == tail[j]);
        if j < revision.len() {
            assert(tail[j] == revision[j]);
        } else if j > revision.len() {
            assert(tail[j] == within[j - revision.len() - 1]);
        }
    }
    lemma_is_last_place(path, '/', slash);
    assert(path.subrange(slash + 1, path.len() as int) =~= tail);
    let hyphen = revision.len() as int;
    assert(tail[hyphen] == '-');
    assert forall|i: int| 0 <= i < hyphen implies tail[i] != '-' by {
        assert(tail[i] == revision[i]);
    }
    lemma_is_first_place(tail, '-', hyphen);
    assert(tail.subrange(0, hyphen) =~= revision);
    assert(tail.subrange(hyphen + 1, tail.len() as int) =~= within);
    assert(path.subrange(0, slash) =~= head);
    assert(head.subrange(0, before.len() as int) =~= before);
    assert(head.subrange(head.len() - after.len(), head.len() as int) =~= after);
    assert(head.subrange(before.len() as int, head.len() - after.len()) =~= client_id);
    lemma_first_place(client_id, '/');
}

/// Whether `word` stands among the characters from `from` on.
fn stands_at(chars: &Vec<char>, from: usize, word: &Vec<char>) -> (stands: bool)
    requires
        from + word@.len() <= chars@.len(),
    ensures
        stands == (chars@.subrange(from as int, (from + word@.len()) as int) == word@),
{
    let mut at: usize = 0;
    while at < word.len()
        invariant
            at <= word@.len(),
            word@.len() == word.len(),
            from + word@.len() <= chars.len(),
            forall|i: int| 0 <= i < at ==> chars@[from + i] == word@[i],
        decreases word@.len() - at,
    {
        if chars[from + at] != word[at] {
            assert(chars@.subrange(from as int, (from + word@.len()) as int)[at as int] != word@[at as int]);
            return false;
        }
        at += 1;
    }
    assert(chars@.subrange(from as int, (from + word@.len()) as int) =~= word@);
    true
}

/// Whether the first `upto` characters are the prefix of the keys of some
/// client's consensus states.
fn names_consensus_states(chars: &Vec<char>, upto: usize) -> (names: bool)
    requires
        upto <= chars@.len(),
    ensures
        names == is_consensus_state_prefix(chars@.subrange(0, upto as int)),
{
    let before = chars_of("ibc/clients/");
    let after = chars_of("/consensusStates");
    let ghost head = chars@.subrange(0, upto as int);
    if before.len() > upto || after.len() >= upto - before.len() {
        return false;
    }
    let middle_ends: usize = upto - after.len();
    assert(head.subrange(0, before@.len() as int) =~= chars@.subrange(0int, (0 + before@.len()) as int));
    assert(head.subrange(head.len() - after@.len(), head.len() as int) =~= chars@.subrange(
        middle_ends as int,
        (middle_ends + after@.len()) as int,
    ));
    assert(head.subrange(before@.len() as int, head.len() - after@.len()) =~= chars@.subrange(
        before@.len() as int,
        middle_ends as int,
    ));
    if !stands_at(chars, 0, &before) {
        return false;
    }
    if !stands_at(chars, middle_ends, &after) {
        return false;
    }
    find_first(chars, '/', before.len(), middle_ends).is_none()
}

/// Reads the height that the key of a consensus state names.
pub fn consensus_height(key: &Key) -> (height: Option<Height>)
    ensures
        height == consensus_height_of(key@),
        height matches Some(height) ==> height.well_formed(),
{
    let chars = chars_of(key.path.as_str());
    let slash = match find_last(&chars, '/') {
        Some(slash) => slash,
        None => {
            return None;
        },
    };
    assert(slash < chars.len());
    let ghost tail = chars@.subrange(slash + 1, chars@.len() as int);
    let hyphen = match find_first(&chars, '-', slash + 1, chars.len()) {
        Some(hyphen) => hyphen,
        None => {
            return None;
        },
    };
    assert(tail.subrange(0, hyphen - slash - 1) =~= chars@.subrange(slash + 1, hyphen as int));
    assert(tail.subrange(hyphen - slash, tail.len() as int) =~= chars@.subrange(
        hyphen + 1,
        chars@.len() as int,
    ));
    let revision_number = parse_number(&chars, slash + 1, hyphen);
    let revision_height = parse_number(&chars, hyphen + 1, chars.len());
    match (revision_number, revision_height) {
        (Some(revision_number), Some(revision_height)) => {
            if revision_height != 0 && names_consensus_states(&chars, slash) {
                Some(Height { revision_number, revision_height })
            } else {
                None
            }
        },
        _ => None,
    }
}

/// The path of what is kept for a channel's end under the name `kind`.
pub open spec fn channel_path_text(kind: Seq<char>, path: ChannelPath) -> Seq<char> {
    kind + "/ports/"@ + path.port_id@ + "/channels/"@ + path.channel_id@
}

/// The path of what is kept for a packet under the name `kind`.
pub open spec fn packet_path_text(kind: Seq<char>, path: PacketPath) -> Seq<char> {
    kind + "/ports/"@ + path.port_id@ + "/channels/"@ + path.channel_id@ + "/sequences/"@
        + decimal(path.sequence.0 as nat)
}

/// The key of what is kept for a channel's end under the name `kind`.
fn channel_key(kind: &str, path: &ChannelPath) -> (key: Key)
    ensures
        key@ == "ibc/"@ + channel_path_text(kind@, *path),
{
    let mut text = String::from_str("ibc/");
    text.append(kind);
    text.append("/ports/");
    text.append(path.port_id.0.as_str());
    text.append("/channels/");
    text.append(path.channel_id.0.as_str());
    assert(text@ =~= "ibc/"@ + channel_path_text(kind@, *path));
    Key { path: text }
}

/// The key of what is kept for a packet under the name `kind`.
fn packet_key(kind: &str, path: &PacketPath) -> (key: Key)
    ensures
        key@ == "ibc/"@ + packet_path_text(kind@, *path),
{
    let mut text = String::from_str("ibc/");
    text.append(kind);
    text.append("/ports/");
    text.append(path.port_id.0.as_str());
    text.append("/channels/");
    text.append(path.channel_id.0.as_str());
    text.append("/sequences/");
    let sequence = to_decimal(path.sequence.0);
    text.append(sequence.as_str());
    assert(text@ =~= "ibc/"@ + packet_path_text(kind@, *path));
    Key { path: text }
}

/// The key of the next sequence number that a channel's end receives.
pub fn next_sequence_recv_key(path: &ChannelPath) -> (key: Key)
    ensures
        key@ == "ibc/"@ + channel_path_text("nextSequenceRecv"@, *path),
{
    channel_key("nextSequenceRecv", path)
}

/// The key of the next sequence number that a channel's end acknowledges.
pub fn next_sequence_ack_key(path: &ChannelPath) -> (key: Key)
    ensures
        key@ == "ibc/"@ + channel_path_text("nextSequenceAck"@, *path),
{
    channel_key("nextSequenceAck", path)
}

/// The key of a packet's commitment.
pub fn commitment_key(path: &PacketPath) -> (key: Key)
    ensures
        key@ == "ibc/"@ + packet_path_text("commitments"@, *path),
{
    packet_key("commitments", path)
}

/// The key of a packet's receipt.
pub fn receipt_key(path: &PacketPath) -> (key: Key)
    ensures
        key@ == "ibc/"@ + packet_path_text("receipts"@, *path),
{
    packet_key("receipts", path)
}

/// The key of a packet's acknowledgement.
pub fn ack_key(path: &PacketPath) -> (key: Key)
    ensures
        key@ == "ibc/"@ + packet_path_text("acks"@, *path),
{
    packet_key("acks", path)
}

/// The key of the chain parameter that bounds the time between two blocks.
pub fn max_expected_time_per_block_key() -> (key: Key)
    ensures
        key@ == "parameters/max_expected_time_per_block"@,
{
    Key::new("parameters/max_expected_time_per_block")
}

} // verus!
