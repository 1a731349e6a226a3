//! Decoding of the protobuf messages that the store holds: `Any` envelopes,
//! heights and timestamps. The messages are walked field by field here; the
//! varints in them are read, and unknown fields skipped, by `prost`.

use crate::ibc::error::DecodeFault;
use crate::ibc::types::{Any, AnyView, Height, Timestamp, MAX_NANOS, MAX_SECONDS, MIN_SECONDS};
use vstd::prelude::*;
use vstd::slice::{slice_subrange, slice_to_vec};
use vstd::utf8::{decode_utf8, valid_utf8};

verus! {

/// The error that `prost` gives where it cannot decode.
#[verifier::external_type_specification]
#[verifier::external_body]
pub struct ExDecodeError(prost::DecodeError);

/// The varint at the head of `bytes`, read with at most `limit` bytes: its
/// value and its length. Each byte gives seven bits, the lowest first, and
/// all but the last byte have the high bit set. The tenth byte of a varint
/// may only be 0 or 1, as 64 bits hold no more.
pub open spec fn varint(bytes: Seq<u8>, limit: nat) -> Option<(nat, nat)>
    decreases limit,
{
    if limit == 0 || bytes.len() == 0 {
        None
    } else if bytes[0] < 0x80 {
        if limit == 1 && bytes[0] >= 2 {
            None
        } else {
            Some((bytes[0] as nat, 1nat))
        }
    } else {
        match varint(bytes.drop_first(), (limit - 1) as nat) {
            Some((value, length)) => Some(((bytes[0] - 0x80) as nat + 128 * value, length + 1)),
            None => None,
        }
    }
}

/// A varint has at least one byte, and no more than there are.
pub proof fn lemma_varint_length(bytes: Seq<u8>, limit: nat)
    ensures
        varint(bytes, limit) matches Some((_, length)) ==> 1 <= length <= bytes.len() && length
            <= limit,
    decreases limit,
{
    if limit != 0 && bytes.len() != 0 && bytes[0] >= 0x80 {
        lemma_varint_length(bytes.drop_first(), (limit - 1) as nat);
    }
}

/// Reads the varint at the head of `bytes` with `prost::encoding::decode_varint`,
/// and returns its value with the number of bytes that are left after it.
/// The contract states what that function reads: a varint of at most ten
/// bytes as [`varint`] defines it, and an error where there is none.
#[verifier::external_body]
fn read_varint(bytes: &[u8]) -> (read: Result<(u64, usize), prost::DecodeError>)
    ensures
        match read {
            Ok((value, left)) => left <= bytes@.len() && varint(bytes@, 10) == Some(
                (value as nat, (bytes@.len() - left) as nat),
            ),
            Err(_) => varint(bytes@, 10) is None,
        },
{
    let mut rest = bytes;
    let value = prost::encoding::decode_varint(&mut rest)?;
    Ok((value, rest.len()))
}

/// The number of bytes that a group takes which was begun under `tag`, from
/// the first byte after its opening key through its closing key.
pub uninterp spec fn group_skipped(tag: u32, bytes: Seq<u8>) -> Option<nat>;

/// The number of bytes that the value of a field takes which is skipped:
/// a varint; eight bytes; a length and as many bytes; a group; four bytes.
/// `None` where the value is cut short or malformed, and for the key that
/// closes a group.
pub open spec fn skipped(wire_type: u8, tag: u32, bytes: Seq<u8>) -> Option<nat> {
    if wire_type == 0 {
        match varint(bytes, 10) {
            Some((_, length)) => Some(length),
            None => None,
        }
    } else if wire_type == 1 {
        if bytes.len() >= 8 {
            Some(8nat)
        } else {
            None
        }
    } else if wire_type == 2 {
        match varint(bytes, 10) {
            Some((size, length)) => if size <= bytes.len() - length {
                Some(length + size)
            } else {
                None
            },
            None => None,
        }
    } else if wire_type == 3 {
        group_skipped(tag, bytes)
    } else if wire_type == 5 {
        if bytes.len() >= 4 {
            Some(4nat)
        } else {
            None
        }
    } else {
        None
    }
}

/// Skips the value of a field with `prost::encoding::skip_field`, and
/// returns the number of bytes that are left after it. The contract states
/// what that function skips for each wire type, as [`skipped`] defines it;
/// of a group it only gives the length a name.
#[verifier::external_body]
fn skip_value(wire_type: u8, tag: u32, bytes: &[u8]) -> (left: Result<usize, prost::DecodeError>)
    requires
        wire_type <= 5,
    ensures
        match left {
            Ok(left) => left <= bytes@.len() && skipped(wire_type, tag, bytes@) == Some(
                (bytes@.len() - left) as nat,
            ),
            Err(_) => skipped(wire_type, tag, bytes@) is None,
        },
        wire_type == 3 ==> match left {
            Ok(left) => group_skipped(tag, bytes@) == Some((bytes@.len() - left) as nat),
            Err(_) => group_skipped(tag, bytes@) is None,
        },
{
    let mut rest = bytes;
    let wire_type = prost::encoding::WireType::try_from(u64::from(wire_type))?;
    let context = prost::encoding::DecodeContext::default();
    prost::encoding::skip_field(wire_type, tag, &mut rest, context)?;
    Ok(rest.len())
}

/// Turns bytes into text with `String::from_utf8`: the text that the bytes
/// encode, where they are UTF-8, and nothing where they are not.
#[verifier::external_body]
fn text_of(bytes: Vec<u8>) -> (text: Option<String>)
    ensures
        text is Some <==> valid_utf8(bytes@),
        text matches Some(text) ==> text@ == decode_utf8(bytes@),
{
    String::from_utf8(bytes).ok()
}

/// The key at the head of `bytes`: the tag of the field, its wire type, and
/// the length of the key.
pub open spec fn key(bytes: Seq<u8>) -> Result<(u32, u8, nat), DecodeFault> {
    match varint(bytes, 10) {
        None => Err(DecodeFault::InvalidVarint),
        Some((key, length)) => if key > u32::MAX {
            Err(DecodeFault::InvalidKey)
        } else if key % 8 > 5 {
            Err(DecodeFault::InvalidWireType)
        } else if key / 8 == 0 {
            Err(DecodeFault::InvalidTag)
        } else {
            Ok(((key / 8) as u32, (key % 8) as u8, length))
        },
    }
}

/// The varint field at the head of `bytes`, given the wire type that its key
/// named: its value and its length.
pub open spec fn varint_field(wire_type: u8, bytes: Seq<u8>) -> Result<(u64, nat), DecodeFault> {
    if wire_type != 0 {
        Err(DecodeFault::UnexpectedWireType)
    } else {
        match varint(bytes, 10) {
            None => Err(DecodeFault::InvalidVarint),
            Some((value, length)) => Ok((value as u64, length)),
        }
    }
}

/// The length-delimited field at the head of `bytes`, given the wire type
/// that its key named: its bytes, and its length with the length prefix.
pub open spec fn delimited_field(wire_type: u8, bytes: Seq<u8>) -> Result<
    (Seq<u8>, nat),
    DecodeFault,
> {
    if wire_type != 2 {
        Err(DecodeFault::UnexpectedWireType)
    } else {
        match varint(bytes, 10) {
            None => Err(DecodeFault::InvalidVarint),
            Some((size, length)) => if size > bytes.len() - length {
                Err(DecodeFault::BufferUnderflow)
            } else {
                Ok((bytes.subrange(length as int, (length + size) as int), length + size))
            },
        }
    }
}

/// The unknown field at the head of `bytes`, which is skipped: its length.
pub open spec fn unknown_field(wire_type: u8, tag: u32, bytes: Seq<u8>) -> Result<
    nat,
    DecodeFault,
> {
    match skipped(wire_type, tag, bytes) {
        Some(length) => if length <= bytes.len() {
            Ok(length)
        } else {
            Err(DecodeFault::InvalidUnknownField)
        },
        None => Err(DecodeFault::InvalidUnknownField),
    }
}

/// Reads the key of the field that begins at `at`, and returns its tag, its
/// wire type and the place after it.
fn read_key(bytes: &[u8], at: usize) -> (read: Result<(u32, u8, usize), DecodeFault>)
    requires
        at <= bytes@.len(),
    ensures
        match read {
            Ok((tag, wire_type, next)) => at < next <= bytes@.len() && wire_type <= 5 && tag >= 1
                && key(bytes@.skip(at as int)) == Ok::<(u32, u8, nat), DecodeFault>(
                (tag, wire_type, (next - at) as nat),
            ),
            Err(fault) => key(bytes@.skip(at as int)) == Err::<(u32, u8, nat), DecodeFault>(fault),
        },
{
    let rest = slice_subrange(bytes, at, bytes.len());
    proof {
        lemma_varint_length(rest@, 10);
    }
    match read_varint(rest) {
        Err(_) => Err(DecodeFault::InvalidVarint),
        Ok((key, left)) => {
            if key > 0xffff_ffff {
                Err(DecodeFault::InvalidKey)
            } else if key % 8 > 5 {
                Err(DecodeFault::InvalidWireType)
            } else if key / 8 == 0 {
                Err(DecodeFault::InvalidTag)
            } else {
                Ok(((key / 8) as u32, (key % 8) as u8, bytes.len() - left))
            }
        },
    }
}

/// Reads the varint field that begins at `at`, and returns its value and
/// the place after it.
fn read_varint_field(wire_type: u8, bytes: &[u8], at: usize) -> (read: Result<
    (u64, usize),
    DecodeFault,
>)
    requires
        at <= bytes@.len(),
    ensures
        match read {
            Ok((value, next)) => at < next <= bytes@.len() && varint_field(
                wire_type,
                bytes@.skip(at as int),
            ) == Ok::<(u64, nat), DecodeFault>((value, (next - at) as nat)),
            Err(fault) => varint_field(wire_type, bytes@.skip(at as int)) == Err::<
                (u64, nat),
                DecodeFault,
            >(fault),
        },
{
    if wire_type != 0 {
        return Err(DecodeFault::UnexpectedWireType);
    }
    let rest = slice_subrange(bytes, at, bytes.len());
    proof {
        lemma_varint_length(rest@, 10);
    }
    match read_varint(rest) {
        Err(_) => Err(DecodeFault::InvalidVarint),
        Ok((value, left)) => Ok((value, bytes.len() - left)),
    }
}

/// Reads the length-delimited field that begins at `at`, and returns its
/// bytes and the place after it.
fn read_delimited_field(wire_type: u8, bytes: &[u8], at: usize) -> (read: Result<
    (Vec<u8>, usize),
    DecodeFault,
>)
    requires
        at <= bytes@.len(),
    ensures
        match read {
            Ok((value, next)) => at < next <= bytes@.len() && delimited_field(
                wire_type,
                bytes@.skip(at as int),
            ) == Ok::<(Seq<u8>, nat), DecodeFault>((value@, (next - at) as nat)),
            Err(fault) => delimited_field(wire_type, bytes@.skip(at as int)) == Err::<
                (Seq<u8>, nat),
                DecodeFault,
            >(fault),
        },
{
    if wire_type != 2 {
        return Err(DecodeFault::UnexpectedWireType);
    }
    let rest = slice_subrange(bytes, at, bytes.len());
    proof {
        lemma_varint_length(rest@, 10);
    }
    match read_varint(rest) {
        Err(_) => Err(DecodeFault::InvalidVarint),
        Ok((size, left)) => {
            if size > left as u64 {
                return Err(DecodeFault::BufferUnderflow);
            }
            let from: usize = bytes.len() - left;
            let next: usize = from + size as usize;
            let value = slice_to_vec(slice_subrange(bytes, from, next));
            assert(value@ =~= bytes@.skip(at as int).subrange(from - at, next - at));
            Ok((value, next))
        },
    }
}

/// Skips the unknown field that begins at `at`, and returns the place after
/// it.
fn skip_unknown_field(wire_type: u8, tag: u32, bytes: &[u8], at: usize) -> (read: Result<
    usize,
    DecodeFault,
>)
    requires
        at <= bytes@.len(),
        wire_type <= 5,
    ensures
        match read {
            Ok(next) => at <= next <= bytes@.len() && unknown_field(
                wire_type,
                tag,
                bytes@.skip(at as int),
            ) == Ok::<nat, DecodeFault>((next - at) as nat),
            Err(fault) => unknown_field(wire_type, tag, bytes@.skip(at as int)) == Err::<
                nat,
                DecodeFault,
            >(fault),
        },
{
    let rest = slice_subrange(bytes, at, bytes.len());
    match skip_value(wire_type, tag, rest) {
        Err(_) => Err(DecodeFault::InvalidUnknownField),
        Ok(left) => Ok(bytes.len() - left),
    }
}

/// The envelope that the fields in `bytes` make of `any`: field 1 is the
/// type URL, field 2 the value, the last of each counts, and other fields
/// are skipped.
pub open spec fn any_fields(bytes: Seq<u8>, any: AnyView) -> Result<AnyView, DecodeFault>
    decreases bytes.len(),
{
    if bytes.len() == 0 {
        Ok(any)
    } else {
        match key(bytes) {
            Err(fault) => Err(fault),
            Ok((tag, wire_type, start)) => {
                let rest = bytes.skip(start as int);
                proof {
                    lemma_varint_length(bytes, 10);
                }
                if tag == 1 {
                    match delimited_field(wire_type, rest) {
                        Err(fault) => Err(fault),
                        Ok((text, length)) => if !valid_utf8(text) {
                            Err(DecodeFault::InvalidString)
                        } else {
                            any_fields(
                                rest.skip(length as int),
                                AnyView { type_url: decode_utf8(text), value: any.value },
                            )
                        },
                    }
                } else if tag == 2 {
                    match delimited_field(wire_type, rest) {
                        Err(fault) => Err(fault),
                        Ok((value, length)) => any_fields(
                            rest.skip(length as int),
                            AnyView { type_url: any.type_url, value },
                        ),
                    }
                } else {
                    match unknown_field(wire_type, tag, rest) {
                        Err(fault) => Err(fault),
                        Ok(length) => any_fields(rest.skip(length as int), any),
                    }
                }
            },
        }
    }
}

/// The envelope that `bytes` encode.
pub open spec fn any_decoded(bytes: Seq<u8>) -> Result<AnyView, DecodeFault> {
    any_fields(bytes, AnyView { type_url: Seq::empty(), value: Seq::empty() })
}

/// Decodes an `Any` envelope.
pub fn decode_any(bytes: &[u8]) -> (decoded: Result<Any, DecodeFault>)
    ensures
        match decoded {
            Ok(any) => any_decoded(bytes@) == Ok::<AnyView, DecodeFault>(any@),
            Err(fault) => any_decoded(bytes@) == Err::<AnyView, DecodeFault>(fault),
        },
{
    let mut any = Any { type_url: String::new(), value: Vec::new() };
    let mut at: usize = 0;
    assert(bytes@.skip(0) =~= bytes@);
    while at < bytes.len()
        invariant
            at <= bytes@.len(),
            any_decoded(bytes@) == any_fields(bytes@.skip(at as int), any@),
        decreases bytes@.len() - at,
    {
        let ghost here = bytes@.skip(at as int);
        let (tag, wire_type, start) = match read_key(bytes, at) {
            Ok(key) => key,
            Err(fault) => {
                return Err(fault);
            },
        };
        assert(here.skip(start - at) =~= bytes@.skip(start as int));
        if tag == 1 {
            let (text, next) = match read_delimited_field(wire_type, bytes, start) {
                Ok(field) => field,
                Err(fault) => {
                    return Err(fault);
                },
            };
            assert(bytes@.skip(start as int).skip(next - start) =~= bytes@.skip(next as int));
            match text_of(text) {
                Some(type_url) => {
                    any.type_url = type_url;
                },
                None => {
                    return Err(DecodeFault::InvalidString);
                },
            }
            at = next;
        } else if tag == 2 {
            let (value, next) = match read_delimited_field(wire_type, bytes, start) {
                Ok(field) => field,
                Err(fault) => {
                    return Err(fault);
                },
            };
            assert(bytes@.skip(start as int).skip(next - start) =~= bytes@.skip(next as int));
            any.value = value;
            at = next;
        } else {
            let next = match skip_unknown_field(wire_type, tag, bytes, start) {
                Ok(next) => next,
                Err(fault) => {
                    return Err(fault);
                },
            };
            assert(bytes@.skip(start as int).skip(next - start) =~= bytes@.skip(next as int));
            at = next;
        }
    }
    Ok(any)
}

/// The revision and the height that the fields in `bytes` make of
/// `number` and `height`: field 1 is the revision, field 2 the height, the
/// last of each counts, and other fields are skipped.
pub open spec fn height_fields(bytes: Seq<u8>, number: u64, height: u64) -> Result<
    (u64, u64),
    DecodeFault,
>
    decreases bytes.len(),
{
    if bytes.len() == 0 {
        Ok((number, height))
    } else {
        match key(bytes) {
            Err(fault) => Err(fault),
            Ok((tag, wire_type, start)) => {
                let rest = bytes.skip(start as int);
                proof {
                    lemma_varint_length(bytes, 10);
                    lemma_varint_length(rest, 10);
                }
                if tag == 1 {
                    match varint_field(wire_type, rest) {
                        Err(fault) => Err(fault),
                        Ok((value, length)) => height_fields(
                            rest.skip(length as int),
                            value,
                            height,
                        ),
                    }
                } else if tag == 2 {
                    match varint_field(wire_type, rest) {
                        Err(fault) => Err(fault),
                        Ok((value, length)) => height_fields(
                            rest.skip(length as int),
                            number,
                            value,
                        ),
                    }
                } else {
                    match unknown_field(wire_type, tag, rest) {
                        Err(fault) => Err(fault),
                        Ok(length) => height_fields(rest.skip(length as int), number, height),
                    }
                }
            },
        }
    }
}

/// The height that `bytes` encode. There is no height 0.
pub open spec fn height_decoded(bytes: Seq<u8>) -> Result<Height, DecodeFault> {
    match height_fields(bytes, 0, 0) {
        Err(fault) => Err(fault),
        Ok((number, height)) => if height == 0 {
            Err(DecodeFault::InvalidValue)
        } else {
            Ok(Height { revision_number: number, revision_height: height })
        },
    }
}

/// Decodes a height.
pub fn decode_height(bytes: &[u8]) -> (decoded: Result<Height, DecodeFault>)
    ensures
        decoded == height_decoded(bytes@),
        decoded matches Ok(height) ==> height.well_formed(),
{
    let mut number: u64 = 0;
    let mut height: u64 = 0;
    let mut at: usize = 0;
    assert(bytes@.skip(0) =~= bytes@);
    while at < bytes.len()
        invariant
            at <= bytes@.len(),
            height_fields(bytes@, 0, 0) == height_fields(bytes@.skip(at as int), number, height),
        decreases bytes@.len() - at,
    {
        let ghost here = bytes@.skip(at as int);
        let (tag, wire_type, start) = match read_key(bytes, at) {
            Ok(key) => key,
            Err(fault) => {
                return Err(fault);
            },
        };
        assert(here.skip(start - at) =~= bytes@.skip(start as int));
        if tag == 1 || tag == 2 {
            let (value, next) = match read_varint_field(wire_type, bytes, start) {
                Ok(field) => field,
                Err(fault) => {
                    return Err(fault);
                },
            };
            assert(bytes@.skip(start as int).skip(next - start) =~= bytes@.skip(next as int));
            if tag == 1 {
                number = value;
            } else {
                height = value;
            }
            at = next;
        } else {
            let next = match skip_unknown_field(wire_type, tag, bytes, start) {
                Ok(next) => next,
                Err(fault) => {
                    return Err(fault);
                },
            };
            assert(bytes@.skip(start as int).skip(next - start) =~= bytes@.skip(next as int));
            at = next;
        }
    }
    if height == 0 {
        return Err(DecodeFault::InvalidValue);
    }
    Ok(Height { revision_number: number, revision_height: height })
}

/// The signed number of 64 bits that a varint's value stands for.
pub open spec fn as_int64(value: u64) -> int {
    if value < 0x8000_0000_0000_0000 {
        value as int
    } else {
        value - 0x1_0000_0000_0000_0000
    }
}

/// The signed number of 32 bits that a varint's value stands for: that of
/// its low 32 bits.
pub open spec fn as_int32(value: u64) -> int {
    let low = value % 0x1_0000_0000;
    if low < 0x8000_0000 {
        low as int
    } else {
        low - 0x1_0000_0000
    }
}

/// The signed number of 64 bits that a varint's value stands for.
fn to_int64(value: u64) -> (number: i64)
    ensures
        number == as_int64(value),
{
    if value < 0x8000_0000_0000_0000 {
        value as i64
    } else {
        let below: u64 = 0xffff_ffff_ffff_ffff - value;
        -(below as i64) - 1
    }
}

/// The signed number of 32 bits that a varint's value stands for.
fn to_int32(value: u64) -> (number: i32)
    ensures
        number == as_int32(value),
{
    let low: u64 = value % 0x1_0000_0000;
    if low < 0x8000_0000 {
        low as i32
    } else {
        let below: u64 = 0xffff_ffff - low;
        -(below as i32) - 1
    }
}

/// The seconds and the nanoseconds that the fields in `bytes` make of
/// `seconds` and `nanos`: field 1 is the seconds, field 2 the nanoseconds,
/// the last of each counts, and other fields are skipped.
pub open spec fn timestamp_fields(bytes: Seq<u8>, seconds: int, nanos: int) -> Result<
    (int, int),
    DecodeFault,
>
    decreases bytes.len(),
{
    if bytes.len() == 0 {
        Ok((seconds, nanos))
    } else {
        match key(bytes) {
            Err(fault) => Err(fault),
            Ok((tag, wire_type, start)) => {
                let rest = bytes.skip(start as int);
                proof {
                    lemma_varint_length(bytes, 10);
                    lemma_varint_length(rest, 10);
                }
                if tag == 1 {
                    match varint_field(wire_type, rest) {
                        Err(fault) => Err(fault),
                        Ok((value, length)) => timestamp_fields(
                            rest.skip(length as int),
                            as_int64(value),
                            nanos,
                        ),
                    }
                } else if tag == 2 {
                    match varint_field(wire_type, rest) {
                        Err(fault) => Err(fault),
                        Ok((value, length)) => timestamp_fields(
                            rest.skip(length as int),
                            seconds,
                            as_int32(value),
                        ),
                    }
                } else {
                    match unknown_field(wire_type, tag, rest) {
                        Err(fault) => Err(fault),
                        Ok(length) => timestamp_fields(rest.skip(length as int), seconds, nanos),
                    }
                }
            },
        }
    }
}

/// The timestamp that `bytes` encode. Its year is between 1 and 9999, and
/// its nanoseconds stay below one second.
pub open spec fn timestamp_decoded(bytes: Seq<u8>) -> Result<Timestamp, DecodeFault> {
    match timestamp_fields(bytes, 0, 0) {
        Err(fault) => Err(fault),
        Ok((seconds, nanos)) => if MIN_SECONDS <= seconds <= MAX_SECONDS && 0 <= nanos
            <= MAX_NANOS {
            Ok(Timestamp { seconds: seconds as i64, nanos: nanos as u32 })
        } else {
            Err(DecodeFault::InvalidValue)
        },
    }
}

/// Decodes a timestamp.
pub fn decode_timestamp(bytes: &[u8]) -> (decoded: Result<Timestamp, DecodeFault>)
    ensures
        decoded == timestamp_decoded(bytes@),
        decoded matches Ok(time) ==> time.well_formed(),
{
    let mut seconds: i64 = 0;
    let mut nanos: i32 = 0;
    let mut at: usize = 0;
    assert(bytes@.skip(0) =~= bytes@);
    while at < bytes.len()
        invariant
            at <= bytes@.len(),
            timestamp_fields(bytes@, 0, 0) == timestamp_fields(
                bytes@.skip(at as int),
                seconds as int,
                nanos as int,
            ),
        decreases bytes@.len() - at,
    {
        let ghost here = bytes@.skip(at as int);
        let (tag, wire_type, start) = match read_key(bytes, at) {
            Ok(key) => key,
            Err(fault) => {
                return Err(fault);
            },
        };
        assert(here.skip(start - at) =~= bytes@.skip(start as int));
        if tag == 1 || tag == 2 {
            let (value, next) = match read_varint_field(wire_type, bytes, start) {
                Ok(field) => field,
                Err(fault) => {
                    return Err(fault);
                },
            };
            assert(bytes@.skip(start as int).skip(next - start) =~= bytes@.skip(next as int));
            if tag == 1 {
                seconds = to_int64(value);
            } else {
                nanos = to_int32(value);
            }
            at = next;
        } else {
            let next = match skip_unknown_field(wire_type, tag, bytes, start) {
                Ok(next) => next,
                Err(fault) => {
                    return Err(fault);
                },
            };
            assert(bytes@.skip(start as int).skip(next - start) =~= bytes@.skip(next as int));
            at = next;
        }
    }
    if MIN_SECONDS <= seconds && seconds <= MAX_SECONDS && 0 <= nanos && nanos <= 999_999_999 {
        Ok(Timestamp { seconds, nanos: nanos as u32 })
    } else {
        Err(DecodeFault::InvalidValue)
    }
}

} // verus!
