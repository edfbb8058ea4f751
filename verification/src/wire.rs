//! The protobuf wire format, as far as the messages of this protocol need it.
//!
//! Keys and varints are written and read by the `prost` crate. The fields of
//! messages are put together from them here.

use vstd::prelude::*;
use vstd::slice::slice_subrange;

verus! {

/// The ways in which a field's value is laid out on the wire.
#[derive(Debug, Clone, Copy, PartialEq, Eq, Structural)]
pub enum WireType {
    Varint,
    SixtyFourBit,
    LengthDelimited,
    StartGroup,
    EndGroup,
    ThirtyTwoBit,
}

impl WireType {
    /// The three bits by which a key names the wire type.
    pub open spec fn code(self) -> u8 {
        match self {
            WireType::Varint => 0,
            WireType::SixtyFourBit => 1,
            WireType::LengthDelimited => 2,
            WireType::StartGroup => 3,
            WireType::EndGroup => 4,
            WireType::ThirtyTwoBit => 5,
        }
    }

    /// The wire type with the given code, if there is one.
    pub open spec fn from_code(code: nat) -> Option<WireType> {
        if code == 0 {
            Some(WireType::Varint)
        } else if code == 1 {
            Some(WireType::SixtyFourBit)
        } else if code == 2 {
            Some(WireType::LengthDelimited)
        } else if code == 3 {
            Some(WireType::StartGroup)
        } else if code == 4 {
            Some(WireType::EndGroup)
        } else if code == 5 {
            Some(WireType::ThirtyTwoBit)
        } else {
            None
        }
    }
}

/// The smallest field number above the valid ones.
pub const TAG_LIMIT: u32 = 0x2000_0000;

/// A number as a varint: seven bits to a byte, the low ones first, and the high
/// bit set in every byte but the last.
pub open spec fn varint(value: nat) -> Seq<u8>
    decreases value,
{
    if value < 128 {
        seq![value as u8]
    } else {
        seq![(value % 128 + 128) as u8] + varint(value / 128)
    }
}

/// The varint that `bytes` begins with and what follows it. It has at most
/// `budget` bytes; in a varint of the full length the last byte is 0 or 1.
pub open spec fn varint_within(bytes: Seq<u8>, budget: nat) -> Option<(nat, Seq<u8>)>
    decreases budget,
{
    if budget == 0 || bytes.len() == 0 {
        None
    } else if bytes[0] < 128 {
        if budget == 1 && bytes[0] >= 2 {
            None
        } else {
            Some((bytes[0] as nat, bytes.skip(1)))
        }
    } else {
        match varint_within(bytes.skip(1), (budget - 1) as nat) {
            None => None,
            Some((high, rest)) => Some(((bytes[0] - 128 + 128 * high) as nat, rest)),
        }
    }
}

/// The 64-bit varint that `bytes` begins with, and what follows it.
pub open spec fn leading_varint(bytes: Seq<u8>) -> Option<(nat, Seq<u8>)> {
    varint_within(bytes, 10)
}

/// A field's key: its number and its wire type in one varint.
pub open spec fn key(tag: u32, wire: WireType) -> Seq<u8> {
    varint((tag * 8 + wire.code()) as nat)
}

/// The key that `bytes` begins with, and what follows it. A key fits in 32 bits
/// and its field number is not zero.
pub open spec fn leading_key(bytes: Seq<u8>) -> Option<(u32, WireType, Seq<u8>)> {
    match leading_varint(bytes) {
        None => None,
        Some((value, rest)) => match WireType::from_code(value % 8) {
            Some(wire) if 8 <= value <= u32::MAX => Some(((value / 8) as u32, wire, rest)),
            _ => None,
        },
    }
}

/// How many groups may stand one in the other in a message. A submessage counts as
/// a group.
pub const NESTING_LIMIT: u32 = 100;

/// What is left of `bytes` when a field's value is passed over, if there is one at
/// their front. Groups in it may nest `depth` levels deep.
pub open spec fn after_value(wire: WireType, tag: u32, bytes: Seq<u8>, depth: nat) -> Option<
    Seq<u8>,
>
    decreases depth, bytes.len(), 1nat,
{
    if depth == 0 {
        None
    } else {
        match wire {
            WireType::Varint => match leading_varint(bytes) {
                Some((_, rest)) => Some(rest),
                None => None,
            },
            WireType::SixtyFourBit => after_bytes(bytes, 8),
            WireType::LengthDelimited => match leading_varint(bytes) {
                Some((len, rest)) => after_bytes(rest, len),
                None => None,
            },
            WireType::StartGroup => after_group(tag, bytes, depth),
            WireType::EndGroup => None,
            WireType::ThirtyTwoBit => after_bytes(bytes, 4),
        }
    }
}

/// What is left of `bytes` without the first `count`, if there are so many.
pub open spec fn after_bytes(bytes: Seq<u8>, count: nat) -> Option<Seq<u8>> {
    if count <= bytes.len() {
        Some(bytes.skip(count as int))
    } else {
        None
    }
}

/// What is left of `bytes` when the fields of a group are passed over, up to and
/// with the key that ends the group.
pub open spec fn after_group(tag: u32, bytes: Seq<u8>, depth: nat) -> Option<Seq<u8>>
    decreases depth, bytes.len(), 0nat,
{
    match leading_key(bytes) {
        Some((inner, wire, rest)) if depth > 0 => if wire is EndGroup {
            if inner == tag {
                Some(rest)
            } else {
                None
            }
        } else {
            match after_value(wire, inner, rest, (depth - 1) as nat) {
                Some(left) if left.len() < bytes.len() => after_group(tag, left, depth),
                _ => None,
            }
        },
        _ => None,
    }
}

/// The error of the `prost` crate's decoder.
#[verifier::external_type_specification]
#[verifier::external_body]
pub struct ExDecodeError(prost::DecodeError);

/// Calls `prost::encoding::encode_varint`, which appends the value as a varint.
#[verifier::external_body]
fn put_varint(value: u64, out: &mut Vec<u8>)
    ensures
        final(out)@ == old(out)@ + varint(value as nat),
{
    prost::encoding::encode_varint(value, out)
}

/// Calls `prost::encoding::encode_key`, which appends the key of a field. It
/// takes only valid field numbers.
#[verifier::external_body]
fn put_key(tag: u32, wire: WireType, out: &mut Vec<u8>)
    requires
        1 <= tag < TAG_LIMIT,
    ensures
        final(out)@ == old(out)@ + key(tag, wire),
{
    let outer = match wire {
        WireType::Varint => prost::encoding::WireType::Varint,
        WireType::SixtyFourBit => prost::encoding::WireType::SixtyFourBit,
        WireType::LengthDelimited => prost::encoding::WireType::LengthDelimited,
        WireType::StartGroup => prost::encoding::WireType::StartGroup,
        WireType::EndGroup => prost::encoding::WireType::EndGroup,
        WireType::ThirtyTwoBit => prost::encoding::WireType::ThirtyTwoBit,
    };
    prost::encoding::encode_key(tag, outer, out)
}

/// Calls `prost::encoding::decode_varint`, which reads a varint of at most ten
/// bytes off the front of the slice and rejects one that exceeds 64 bits.
#[verifier::external_body]
fn take_varint(bytes: &[u8]) -> (r: Result<(u64, &[u8]), prost::DecodeError>)
    ensures
        match leading_varint(bytes@) {
            Some((value, rest)) => r matches Ok((v, left)) && v == value && left@ == rest,
            None => r is Err,
        },
{
    let mut rest = bytes;
    let value = prost::encoding::decode_varint(&mut rest)?;
    Ok((value, rest))
}

/// Calls `prost::encoding::decode_key`, which reads a varint off the front of
/// the slice and takes it apart into field number and wire type.
#[verifier::external_body]
fn take_key(bytes: &[u8]) -> (r: Result<(u32, WireType, &[u8]), prost::DecodeError>)
    ensures
        match leading_key(bytes@) {
            Some((tag, wire, rest)) => r matches Ok((t, w, left)) && t == tag && w == wire
                && left@ == rest,
            None => r is Err,
        },
{
    let mut rest = bytes;
    let (tag, outer) = prost::encoding::decode_key(&mut rest)?;
    let wire = match outer {
        prost::encoding::WireType::Varint => WireType::Varint,
        prost::encoding::WireType::SixtyFourBit => WireType::SixtyFourBit,
        prost::encoding::WireType::LengthDelimited => WireType::LengthDelimited,
        prost::encoding::WireType::StartGroup => WireType::StartGroup,
        prost::encoding::WireType::EndGroup => WireType::EndGroup,
        prost::encoding::WireType::ThirtyTwoBit => WireType::ThirtyTwoBit,
    };
    Ok((tag, wire, rest))
}

/// Calls `prost::encoding::skip_field` with a fresh `DecodeContext`. It reads a
/// field's value off the front of the slice and drops it, a group with all that
/// is in it, as long as no more than a hundred levels are open at once.
#[verifier::external_body]
fn pass_field(wire: WireType, tag: u32, bytes: &[u8]) -> (r: Result<&[u8], prost::DecodeError>)
    ensures
        match after_value(wire, tag, bytes@, NESTING_LIMIT as nat) {
            Some(rest) => r matches Ok(left) && left@ == rest,
            None => r is Err,
        },
{
    let outer = match wire {
        WireType::Varint => prost::encoding::WireType::Varint,
        WireType::SixtyFourBit => prost::encoding::WireType::SixtyFourBit,
        WireType::LengthDelimited => prost::encoding::WireType::LengthDelimited,
        WireType::StartGroup => prost::encoding::WireType::StartGroup,
        WireType::EndGroup => prost::encoding::WireType::EndGroup,
        WireType::ThirtyTwoBit => prost::encoding::WireType::ThirtyTwoBit,
    };
    let mut rest = bytes;
    let context = prost::encoding::DecodeContext::default();
    prost::encoding::skip_field(outer, tag, &mut rest, context)?;
    Ok(rest)
}

/// The bytes do not hold a valid message.
#[derive(Debug, Clone, Copy, PartialEq, Eq, Structural)]
pub struct MalformedMessage {}

/// The low 32 bits of a number.
pub open spec fn low_u32(value: nat) -> u32 {
    (value % 0x1_0000_0000) as u32
}

/// The low 32 bits of a number, read as a signed one.
pub open spec fn low_i32(value: nat) -> i32 {
    let low = value % 0x1_0000_0000;
    if low < 0x8000_0000 {
        low as i32
    } else {
        (low - 0x1_0000_0000) as i32
    }
}

/// A signed number extended to 64 bits.
pub open spec fn sign_extended(value: i32) -> nat {
    if value >= 0 {
        value as nat
    } else {
        (value + 0x1_0000_0000_0000_0000) as nat
    }
}

/// An unsigned field: absent where it is zero.
pub open spec fn uint32_field(tag: u32, value: u32) -> Seq<u8> {
    if value == 0 {
        Seq::empty()
    } else {
        key(tag, WireType::Varint) + varint(value as nat)
    }
}

/// A signed field or an enumeration: absent where it is zero.
pub open spec fn int32_field(tag: u32, value: i32) -> Seq<u8> {
    if value == 0 {
        Seq::empty()
    } else {
        key(tag, WireType::Varint) + varint(sign_extended(value))
    }
}

/// A boolean field: absent where it is false.
pub open spec fn bool_field(tag: u32, value: bool) -> Seq<u8> {
    if value {
        key(tag, WireType::Varint) + varint(1)
    } else {
        Seq::empty()
    }
}

/// A field that holds another message.
pub open spec fn message_field(tag: u32, payload: Seq<u8>) -> Seq<u8> {
    key(tag, WireType::LengthDelimited) + (varint(payload.len()) + payload)
}

/// A field of raw bytes: absent where there are none.
pub open spec fn bytes_field(tag: u32, value: Seq<u8>) -> Seq<u8> {
    if value.len() == 0 {
        Seq::empty()
    } else {
        message_field(tag, value)
    }
}

/// Reads the value of an unsigned field: the last 32 bits of a varint.
pub open spec fn uint32_value(wire: WireType, bytes: Seq<u8>) -> Option<(u32, Seq<u8>)> {
    match leading_varint(bytes) {
        Some((value, rest)) if wire is Varint => Some((low_u32(value), rest)),
        _ => None,
    }
}

/// Reads the value of a signed field or an enumeration.
pub open spec fn int32_value(wire: WireType, bytes: Seq<u8>) -> Option<(i32, Seq<u8>)> {
    match leading_varint(bytes) {
        Some((value, rest)) if wire is Varint => Some((low_i32(value), rest)),
        _ => None,
    }
}

/// Reads the value of a boolean field: any number but zero is true.
pub open spec fn bool_value(wire: WireType, bytes: Seq<u8>) -> Option<(bool, Seq<u8>)> {
    match leading_varint(bytes) {
        Some((value, rest)) if wire is Varint => Some((value != 0, rest)),
        _ => None,
    }
}

/// Reads the value of a field of raw bytes or of a submessage.
pub open spec fn bytes_value(wire: WireType, bytes: Seq<u8>) -> Option<(Seq<u8>, Seq<u8>)> {
    match leading_varint(bytes) {
        Some((len, rest)) if wire is LengthDelimited && len <= rest.len() => Some(
            (rest.take(len as int), rest.skip(len as int)),
        ),
        _ => None,
    }
}

pub(crate) fn push_uint32(tag: u32, value: u32, out: &mut Vec<u8>)
    requires
        1 <= tag < TAG_LIMIT,
    ensures
        final(out)@ == old(out)@ + uint32_field(tag, value),
{
    if value != 0 {
        put_key(tag, WireType::Varint, out);
        put_varint(value as u64, out);
    }
}

pub(crate) fn push_int32(tag: u32, value: i32, out: &mut Vec<u8>)
    requires
        1 <= tag < TAG_LIMIT,
    ensures
        final(out)@ == old(out)@ + int32_field(tag, value),
{
    if value != 0 {
        put_key(tag, WireType::Varint, out);
        let extended: u64 = if value >= 0 {
            value as u64
        } else {
            u64::MAX - ((-(value as i64)) as u64 - 1)
        };
        put_varint(extended, out);
    }
}

pub(crate) fn push_bool(tag: u32, value: bool, out: &mut Vec<u8>)
    requires
        1 <= tag < TAG_LIMIT,
    ensures
        final(out)@ == old(out)@ + bool_field(tag, value),
{
    if value {
        put_key(tag, WireType::Varint, out);
        put_varint(1, out);
    }
}

pub(crate) fn push_message(tag: u32, payload: &Vec<u8>, out: &mut Vec<u8>)
    requires
        1 <= tag < TAG_LIMIT,
    ensures
        final(out)@ == old(out)@ + message_field(tag, payload@),
{
    put_key(tag, WireType::LengthDelimited, out);
    put_varint(payload.len() as u64, out);
    push_all(payload.as_slice(), out);
}

pub(crate) fn push_bytes(tag: u32, value: &Vec<u8>, out: &mut Vec<u8>)
    requires
        1 <= tag < TAG_LIMIT,
    ensures
        final(out)@ == old(out)@ + bytes_field(tag, value@),
{
    if value.len() != 0 {
        push_message(tag, value, out);
    }
}

/// Appends a slice to a vector.
pub(crate) fn push_all(bytes: &[u8], out: &mut Vec<u8>)
    ensures
        final(out)@ == old(out)@ + bytes@,
{
    let ghost before = out@;
    for i in 0..bytes.len()
        invariant
            out@ == before + bytes@.take(i as int),
    {
        out.push(bytes[i]);
        assert(bytes@.take(i + 1) =~= bytes@.take(i as int).push(bytes@[i as int]));
    }
    assert(bytes@.take(bytes@.len() as int) =~= bytes@);
}

/// Reads a field's key.
pub(crate) fn read_key(bytes: &[u8]) -> (r: Result<(u32, WireType, &[u8]), MalformedMessage>)
    ensures
        match leading_key(bytes@) {
            Some((tag, wire, rest)) => r matches Ok((t, w, left)) && t == tag && w == wire
                && left@ == rest,
            None => r is Err,
        },
{
    match take_key(bytes) {
        Ok(taken) => Ok(taken),
        Err(_) => Err(MalformedMessage {  }),
    }
}

/// Reads the varint that the value of a field with wire type `Varint` is.
fn read_varint(wire: WireType, bytes: &[u8]) -> (r: Result<(u64, &[u8]), MalformedMessage>)
    ensures
        match leading_varint(bytes@) {
            Some((value, rest)) if wire is Varint => r matches Ok((v, left)) && v == value
                && left@ == rest,
            _ => r is Err,
        },
{
    match wire {
        WireType::Varint => match take_varint(bytes) {
            Ok(taken) => Ok(taken),
            Err(_) => Err(MalformedMessage {  }),
        },
        _ => Err(MalformedMessage {  }),
    }
}

pub(crate) fn read_uint32(wire: WireType, bytes: &[u8]) -> (r: Result<
    (u32, &[u8]),
    MalformedMessage,
>)
    ensures
        match uint32_value(wire, bytes@) {
            Some((value, rest)) => r matches Ok((v, left)) && v == value && left@ == rest
                && rest.len() < bytes@.len(),
            None => r is Err,
        },
{
    proof {
        lemma_varint_consumes(bytes@, 10);
    }
    match read_varint(wire, bytes) {
        Ok((value, rest)) => {
            let low: u64 = value % 0x1_0000_0000;
            Ok((low as u32, rest))
        },
        Err(e) => Err(e),
    }
}

pub(crate) fn read_int32(wire: WireType, bytes: &[u8]) -> (r: Result<
    (i32, &[u8]),
    MalformedMessage,
>)
    ensures
        match int32_value(wire, bytes@) {
            Some((value, rest)) => r matches Ok((v, left)) && v == value && left@ == rest
                && rest.len() < bytes@.len(),
            None => r is Err,
        },
{
    proof {
        lemma_varint_consumes(bytes@, 10);
    }
    match read_varint(wire, bytes) {
        Ok((value, rest)) => {
            let low: u64 = value % 0x1_0000_0000;
            if low < 0x8000_0000 {
                Ok((low as i32, rest))
            } else {
                Ok(((low as i64 - 0x1_0000_0000) as i32, rest))
            }
        },
        Err(e) => Err(e),
    }
}

pub(crate) fn read_bool(wire: WireType, bytes: &[u8]) -> (r: Result<
    (bool, &[u8]),
    MalformedMessage,
>)
    ensures
        match bool_value(wire, bytes@) {
            Some((value, rest)) => r matches Ok((v, left)) && v == value && left@ == rest
                && rest.len() < bytes@.len(),
            None => r is Err,
        },
{
    proof {
        lemma_varint_consumes(bytes@, 10);
    }
    match read_varint(wire, bytes) {
        Ok((value, rest)) => Ok((value != 0, rest)),
        Err(e) => Err(e),
    }
}

pub(crate) fn read_bytes(wire: WireType, bytes: &[u8]) -> (r: Result<
    (&[u8], &[u8]),
    MalformedMessage,
>)
    ensures
        match bytes_value(wire, bytes@) {
            Some((value, rest)) => r matches Ok((v, left)) && v@ == value && left@ == rest
                && rest.len() < bytes@.len(),
            None => r is Err,
        },
{
    proof {
        lemma_varint_consumes(bytes@, 10);
    }
    match wire {
        WireType::LengthDelimited => match take_varint(bytes) {
            Ok((len, rest)) => {
                if len <= rest.len() as u64 {
                    let value = slice_subrange(rest, 0, len as usize);
                    let left = slice_subrange(rest, len as usize, rest.len());
                    Ok((value, left))
                } else {
                    Err(MalformedMessage {  })
                }
            },
            Err(_) => Err(MalformedMessage {  }),
        },
        _ => Err(MalformedMessage {  }),
    }
}

/// Passes over a field of a message that is not known.
pub(crate) fn skip_unknown(wire: WireType, tag: u32, bytes: &[u8]) -> (r: Result<
    &[u8],
    MalformedMessage,
>)
    ensures
        match after_value(wire, tag, bytes@, NESTING_LIMIT as nat) {
            Some(rest) => r matches Ok(left) && left@ == rest && rest.len() <= bytes@.len(),
            None => r is Err,
        },
{
    proof {
        lemma_value_tail(wire, tag, bytes@, NESTING_LIMIT as nat);
    }
    match pass_field(wire, tag, bytes) {
        Ok(rest) => Ok(rest),
        Err(_) => Err(MalformedMessage {  }),
    }
}

/// Passes over a field of a submessage that is not known. A submessage is one
/// level of nesting, as a group is: its fields are those that could stand in a
/// group.
pub(crate) fn skip_unknown_nested(wire: WireType, tag: u32, bytes: &[u8]) -> (r: Result<
    &[u8],
    MalformedMessage,
>)
    requires
        1 <= tag < TAG_LIMIT,
    ensures
        match after_value(wire, tag, bytes@, (NESTING_LIMIT - 1) as nat) {
            Some(rest) => r matches Ok(left) && left@ == rest && rest.len() <= bytes@.len(),
            None => r is Err,
        },
{
    proof {
        lemma_value_tail(wire, tag, bytes@, NESTING_LIMIT as nat);
        lemma_value_deeper(wire, tag, bytes@, (NESTING_LIMIT - 1) as nat);
    }
    match pass_field(wire, tag, bytes) {
        Ok(rest) => {
            let mut group: Vec<u8> = Vec::new();
            put_key(tag, wire, &mut group);
            push_all(slice_subrange(bytes, 0, bytes.len() - rest.len()), &mut group);
            put_key(tag, WireType::EndGroup, &mut group);
            proof {
                let value = bytes@.take(bytes@.len() - rest@.len());
                assert(bytes@ =~= value + rest@);
                assert(group@ =~= key(tag, wire) + (value + key(tag, WireType::EndGroup)));
                lemma_value_in_group(wire, tag, value, rest@, NESTING_LIMIT as nat);
            }
            match pass_field(WireType::StartGroup, tag, group.as_slice()) {
                Ok(_) => Ok(rest),
                Err(_) => Err(MalformedMessage {  }),
            }
        },
        Err(_) => Err(MalformedMessage {  }),
    }
}

/// What is left behind a varint is the tail of what began with it, and does not
/// matter for what the varint is.
proof fn lemma_varint_local(value: Seq<u8>, rest: Seq<u8>, other: Seq<u8>, budget: nat)
    requires
        varint_within(value + rest, budget) matches Some((_, left)) && left.len() >= rest.len(),
    ensures
        ({
            let (number, left) = varint_within(value + rest, budget)->0;
            let kept = value.skip(value.len() + rest.len() - left.len());
            &&& left == kept + rest
            &&& varint_within(value + other, budget) == Some((number, kept + other))
        }),
    decreases budget,
{
    let bytes = value + rest;
    let (number, left) = varint_within(bytes, budget)->0;
    lemma_varint_consumes(bytes, budget);
    assert(value.len() > 0);
    assert(bytes[0] == value[0] && (value + other)[0] == value[0]);
    assert(bytes.skip(1) =~= value.skip(1) + rest);
    assert((value + other).skip(1) =~= value.skip(1) + other);
    if bytes[0] < 128 {
        assert(left =~= value.skip(1) + rest);
    } else {
        lemma_varint_local(value.skip(1), rest, other, (budget - 1) as nat);
        let count = value.len() + rest.len() - left.len();
        assert(value.skip(1).skip(count - 1) =~= value.skip(count));
    }
}

/// What is left behind a value is the tail of what began with it.
proof fn lemma_value_tail(wire: WireType, tag: u32, bytes: Seq<u8>, depth: nat)
    ensures
        after_value(wire, tag, bytes, depth) matches Some(rest) ==> rest.len() <= bytes.len()
            && rest == bytes.skip(bytes.len() - rest.len()),
    decreases depth, bytes.len(), 1nat,
{
    if depth > 0 {
        match wire {
            WireType::Varint | WireType::LengthDelimited => {
                lemma_varint_tail(bytes, 10);
                if let Some((len, rest)) = leading_varint(bytes) {
                    if len <= rest.len() {
                        assert(rest.skip(len as int) =~= bytes.skip(
                            bytes.len() - rest.len() + len as int,
                        ));
                    }
                }
            },
            WireType::StartGroup => lemma_group_tail(tag, bytes, depth),
            _ => {},
        }
    }
}

proof fn lemma_group_tail(tag: u32, bytes: Seq<u8>, depth: nat)
    requires
        depth > 0,
    ensures
        after_group(tag, bytes, depth) matches Some(rest) ==> rest.len() < bytes.len() && rest
            == bytes.skip(bytes.len() - rest.len()),
    decreases depth, bytes.len(), 0nat,
{
    lemma_varint_tail(bytes, 10);
    if let Some((inner, wire, rest)) = leading_key(bytes) {
        if !(wire is EndGroup) {
            lemma_value_tail(wire, inner, rest, (depth - 1) as nat);
            if let Some(left) = after_value(wire, inner, rest, (depth - 1) as nat) {
                if left.len() < bytes.len() {
                    lemma_group_tail(tag, left, depth);
                    assert(left =~= bytes.skip(bytes.len() - left.len()));
                    if let Some(end) = after_group(tag, left, depth) {
                        assert(end =~= bytes.skip(bytes.len() - end.len()));
                    }
                }
            }
        }
    }
}

/// What follows a varint is the tail of what began with it.
proof fn lemma_varint_tail(bytes: Seq<u8>, budget: nat)
    ensures
        varint_within(bytes, budget) matches Some((_, rest)) ==> rest.len() < bytes.len() && rest
            == bytes.skip(bytes.len() - rest.len()),
    decreases budget,
{
    if budget > 0 && bytes.len() > 0 && bytes[0] >= 128 {
        lemma_varint_tail(bytes.skip(1), (budget - 1) as nat);
        if let Some((_, rest)) = varint_within(bytes.skip(1), (budget - 1) as nat) {
            assert(rest =~= bytes.skip(bytes.len() - rest.len()));
        }
    }
}

/// What is passed over with some nesting is passed over with more.
proof fn lemma_value_deeper(wire: WireType, tag: u32, bytes: Seq<u8>, depth: nat)
    ensures
        after_value(wire, tag, bytes, depth) is Some ==> after_value(wire, tag, bytes, depth + 1)
            == after_value(wire, tag, bytes, depth),
    decreases depth, bytes.len(), 1nat,
{
    if depth > 0 && wire is StartGroup {
        lemma_group_deeper(tag, bytes, depth);
    }
}

proof fn lemma_group_deeper(tag: u32, bytes: Seq<u8>, depth: nat)
    requires
        depth > 0,
    ensures
        after_group(tag, bytes, depth) is Some ==> after_group(tag, bytes, depth + 1)
            == after_group(tag, bytes, depth),
    decreases depth, bytes.len(), 0nat,
{
    if let Some((inner, wire, rest)) = leading_key(bytes) {
        if !(wire is EndGroup) {
            lemma_key_consumes(bytes);
            lemma_value_deeper(wire, inner, rest, (depth - 1) as nat);
            if let Some(left) = after_value(wire, inner, rest, (depth - 1) as nat) {
                if left.len() < bytes.len() {
                    lemma_group_deeper(tag, left, depth);
                }
            }
        }
    }
}

/// What follows a value does not matter for what the value is.
proof fn lemma_value_local(
    wire: WireType,
    tag: u32,
    value: Seq<u8>,
    rest: Seq<u8>,
    other: Seq<u8>,
    depth: nat,
)
    requires
        after_value(wire, tag, value + rest, depth) matches Some(left) && left.len() >= rest.len(),
    ensures
        ({
            let left = after_value(wire, tag, value + rest, depth)->0;
            let kept = value.skip(value.len() + rest.len() - left.len());
            &&& left.len() <= value.len() + rest.len()
            &&& left == kept + rest
            &&& after_value(wire, tag, value + other, depth) == Some(kept + other)
        }),
    decreases depth, value.len(), 1nat,
{
    let bytes = value + rest;
    lemma_value_tail(wire, tag, bytes, depth);
    let left = after_value(wire, tag, bytes, depth)->0;
    let count = bytes.len() - left.len();
    assert(left =~= value.skip(count) + rest);
    match wire {
        WireType::Varint => lemma_varint_local(value, rest, other, 10),
        WireType::LengthDelimited => {
            lemma_varint_local(value, rest, other, 10);
            let (len, body) = leading_varint(bytes)->0;
            let kept = value.skip(bytes.len() - body.len());
            assert(left.len() == body.len() - len);
            assert(body.len() == kept.len() + rest.len());
            let start = bytes.len() - body.len();
            assert(0 <= start && count == start + len && count <= value.len()) by {
                lemma_varint_consumes(bytes, 10);
            }
            assert(value.skip(start).skip(len as int) =~= value.skip(start + len as int));
            assert((kept + other).skip(len as int) =~= kept.skip(len as int) + other);
        },
        WireType::StartGroup => lemma_group_local(tag, value, rest, other, depth),
        WireType::EndGroup => {},
        WireType::SixtyFourBit | WireType::ThirtyTwoBit => {
            assert((value + other).skip(count) =~= value.skip(count) + other);
        },
    }
}

proof fn lemma_group_local(tag: u32, value: Seq<u8>, rest: Seq<u8>, other: Seq<u8>, depth: nat)
    requires
        depth > 0,
        after_group(tag, value + rest, depth) matches Some(left) && left.len() >= rest.len(),
    ensures
        ({
            let left = after_group(tag, value + rest, depth)->0;
            let kept = value.skip(value.len() + rest.len() - left.len());
            &&& left.len() <= value.len() + rest.len()
            &&& left == kept + rest
            &&& after_group(tag, value + other, depth) == Some(kept + other)
        }),
    decreases depth, value.len(), 0nat,
{
    let bytes = value + rest;
    lemma_group_tail(tag, bytes, depth);
    lemma_key_consumes(bytes);
    let left = after_group(tag, bytes, depth)->0;
    let (inner, wire, body) = leading_key(bytes)->0;
    if wire is EndGroup {
        lemma_varint_local(value, rest, other, 10);
    } else {
        let next = after_value(wire, inner, body, (depth - 1) as nat)->0;
        lemma_value_tail(wire, inner, body, (depth - 1) as nat);
        lemma_group_tail(tag, next, depth);
        lemma_varint_local(value, rest, other, 10);
        let kept = value.skip(bytes.len() - body.len());
        assert(body == kept + rest);
        lemma_value_local(wire, inner, kept, rest, other, (depth - 1) as nat);
        let further = kept.skip(body.len() - next.len());
        assert(next == further + rest);
        assert(leading_key(value + other) == Some((inner, wire, kept + other)));
        lemma_group_local(tag, further, rest, other, depth);
        assert(further =~= value.skip(bytes.len() - next.len()));
        assert(further.skip(next.len() - left.len()) =~= value.skip(bytes.len() - left.len()));
    }
}

/// A value can stand in a submessage just if it can stand in a group.
proof fn lemma_value_in_group(wire: WireType, tag: u32, value: Seq<u8>, rest: Seq<u8>, depth: nat)
    requires
        1 <= tag < TAG_LIMIT,
        depth > 1,
        after_value(wire, tag, value + rest, depth) == Some(rest),
    ensures
        ({
            let group = key(tag, wire) + (value + key(tag, WireType::EndGroup));
            let inside = after_value(wire, tag, value + rest, (depth - 1) as nat);
            &&& inside is Some ==> inside == Some(rest)
            &&& inside is Some <==> after_value(WireType::StartGroup, tag, group, depth) is Some
        }),
{
    let end = key(tag, WireType::EndGroup);
    let group = key(tag, wire) + (value + end);
    let less = (depth - 1) as nat;
    lemma_key_roundtrip(tag, wire, value + end);
    lemma_key_roundtrip(tag, WireType::EndGroup, Seq::empty());
    assert(end + Seq::<u8>::empty() =~= end);
    lemma_key_consumes(group);
    lemma_key_consumes(end);
    lemma_value_deeper(wire, tag, value + rest, less);
    lemma_value_deeper(wire, tag, value + end, less);
    lemma_value_local(wire, tag, value, rest, end, depth);
    assert(value.skip(value.len() as int) + end =~= end);
    assert(after_value(wire, tag, value + end, depth) == Some(end));
    assert(after_group(tag, end, depth) == Some(Seq::<u8>::empty()));
    assert(!(wire is EndGroup));
    if after_value(wire, tag, value + rest, less) is Some {
        lemma_value_local(wire, tag, value, rest, end, less);
        assert(after_value(wire, tag, value + end, less) == Some(end));
        assert(after_group(tag, group, depth) == after_group(tag, end, depth));
    }
    if after_value(wire, tag, value + end, less) is Some {
        lemma_value_local(wire, tag, value, end, rest, less);
        assert(value.skip(value.len() as int) + rest =~= rest);
    }
}

/// The numbers that a varint of at most `budget` bytes can hold.
spec fn varint_capacity(budget: nat) -> nat
    decreases budget,
{
    if budget <= 1 {
        2
    } else {
        128 * varint_capacity((budget - 1) as nat)
    }
}

proof fn lemma_varint_within(value: nat, budget: nat, rest: Seq<u8>)
    requires
        budget >= 1,
        value < varint_capacity(budget),
    ensures
        varint_within(varint(value) + rest, budget) == Some((value, rest)),
    decreases budget,
{
    let bytes = varint(value) + rest;
    if value < 128 {
        assert(bytes.skip(1) =~= rest);
    } else {
        assert(varint_capacity(1) == 2);
        lemma_varint_within(value / 128, (budget - 1) as nat, rest);
        assert(bytes.skip(1) =~= varint(value / 128) + rest);
        assert(bytes[0] == (value % 128 + 128) as u8);
    }
}

/// A varint read back is the number that was written, and nothing after it is
/// touched.
pub proof fn lemma_varint_roundtrip(value: nat, rest: Seq<u8>)
    requires
        value < 0x1_0000_0000_0000_0000,
    ensures
        leading_varint(varint(value) + rest) == Some((value, rest)),
{
    reveal_with_fuel(varint_capacity, 10);
    assert(varint_capacity(10) == 0x1_0000_0000_0000_0000);
    lemma_varint_within(value, 10, rest);
}

/// A key read back is the one that was written.
pub proof fn lemma_key_roundtrip(tag: u32, wire: WireType, rest: Seq<u8>)
    requires
        1 <= tag < TAG_LIMIT,
    ensures
        leading_key(key(tag, wire) + rest) == Some((tag, wire, rest)),
{
    let value = (tag * 8 + wire.code()) as nat;
    lemma_varint_roundtrip(value, rest);
    assert(value % 8 == wire.code());
    assert(value / 8 == tag);
}

/// The value of an unsigned field read back.
pub(crate) proof fn lemma_uint32_roundtrip(value: u32, rest: Seq<u8>)
    ensures
        uint32_value(WireType::Varint, varint(value as nat) + rest) == Some((value, rest)),
{
    lemma_varint_roundtrip(value as nat, rest);
}

/// The value of a signed field read back.
pub(crate) proof fn lemma_int32_roundtrip(value: i32, rest: Seq<u8>)
    ensures
        int32_value(WireType::Varint, varint(sign_extended(value)) + rest) == Some((value, rest)),
{
    lemma_varint_roundtrip(sign_extended(value), rest);
}

/// The value of a boolean field read back.
pub(crate) proof fn lemma_bool_roundtrip(rest: Seq<u8>)
    ensures
        bool_value(WireType::Varint, varint(1) + rest) == Some((true, rest)),
{
    lemma_varint_roundtrip(1, rest);
}

/// The value of a field of raw bytes read back.
pub(crate) proof fn lemma_bytes_roundtrip(value: Seq<u8>, rest: Seq<u8>)
    requires
        value.len() < 0x1_0000_0000_0000_0000,
    ensures
        bytes_value(WireType::LengthDelimited, varint(value.len()) + value + rest) == Some(
            (value, rest),
        ),
{
    assert(varint(value.len()) + value + rest =~= varint(value.len()) + (value + rest));
    lemma_varint_roundtrip(value.len(), value + rest);
    assert((value + rest).take(value.len() as int) =~= value);
    assert((value + rest).skip(value.len() as int) =~= rest);
}

/// A varint of a 64-bit number has at most ten bytes.
pub(crate) proof fn lemma_varint_len(value: nat)
    requires
        value < 0x1_0000_0000_0000_0000,
    ensures
        1 <= varint(value).len() <= 10,
{
    reveal_with_fuel(varint, 11);
}

/// What follows a key is shorter than what began with it.
pub(crate) proof fn lemma_key_consumes(bytes: Seq<u8>)
    ensures
        leading_key(bytes) matches Some((_, _, rest)) ==> rest.len() < bytes.len(),
        leading_key(bytes) matches Some((tag, _, _)) ==> 1 <= tag < TAG_LIMIT,
{
    lemma_varint_consumes(bytes, 10);
}

/// What follows a varint is shorter than what began with it.
pub(crate) proof fn lemma_varint_consumes(bytes: Seq<u8>, budget: nat)
    ensures
        varint_within(bytes, budget) matches Some((_, rest)) ==> rest.len() < bytes.len(),
    decreases budget,
{
    if budget > 0 && bytes.len() > 0 && bytes[0] >= 128 {
        lemma_varint_consumes(bytes.skip(1), (budget - 1) as nat);
    }
}

} // verus!
