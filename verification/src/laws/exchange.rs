//! What goes over the wire, byte by byte.

use crate::codec::{read_frame, FrameError, MessageView};
use crate::convert::{message_destination, message_next_hop, ConversionError};
use crate::net::{be_bytes, parsed_prefix, IpAddr, IpNet};
use crate::pb;
use crate::pb::{decoded, merged, Message};
use crate::types::{Destination, MessageType, NextHop};
use crate::wire::{
    after_value, bool_field, int32_field, key, leading_key, leading_varint, lemma_bytes_roundtrip,
    lemma_key_roundtrip, lemma_varint_roundtrip, low_i32, low_u32, message_field, uint32_field,
    varint, varint_within, WireType, TAG_LIMIT,
};
use vstd::arithmetic::power2::pow2;
use vstd::prelude::*;

verus! {

/// A frame is the version, the length of the payload in two bytes, the high one
/// first, the number of the kind of message, and the payload.
pub proof fn lemma_frame_layout(message: MessageView)
    requires
        message.payload().len() < 65536,
    ensures
        ({
            let frame = message.frame();
            &&& frame.len() == 4 + message.payload().len()
            &&& frame[0] == 1
            &&& frame[1] * 256 + frame[2] == message.payload().len()
            &&& frame[3] == match message {
                MessageView::Hello(_) => 1u8,
                MessageView::Keepalive => 2,
                MessageView::Subscribe(_) => 3,
                MessageView::Unsubscribe(_) => 4,
                MessageView::Update(_) => 5,
            }
            &&& frame.skip(4) == message.payload()
        }),
{
    assert(message.frame().skip(4) =~= message.payload());
}

/// What is read off a buffer. Nothing is read before the header is there; another
/// version is refused; nothing is read before the payload is there; then header and
/// payload are taken, whatever they hold, and what follows is left.
pub proof fn lemma_reading_frames(bytes: Seq<u8>)
    ensures
        ({
            let (outcome, rest) = read_frame(bytes);
            let len = 4 + bytes[1] * 256 + bytes[2];
            if bytes.len() < 4 {
                outcome == Ok::<Option<MessageView>, FrameError>(None) && rest == bytes
            } else if bytes[0] != 1 {
                outcome == Err::<Option<MessageView>, FrameError>(FrameError::Version(bytes[0]))
                    && rest == bytes
            } else if bytes.len() < len {
                outcome == Ok::<Option<MessageView>, FrameError>(None) && rest == bytes
            } else {
                &&& rest == bytes.skip(len)
                &&& match outcome {
                    Ok(Some(message)) => 1 <= bytes[3] <= 5 && MessageView::of_payload(
                        message.kind(),
                        bytes.subrange(4, len),
                    ) == Some(message) && bytes[3] == match message {
                        MessageView::Hello(_) => 1u8,
                        MessageView::Keepalive => 2,
                        MessageView::Subscribe(_) => 3,
                        MessageView::Unsubscribe(_) => 4,
                        MessageView::Update(_) => 5,
                    },
                    Ok(None) => false,
                    Err(FrameError::MessageType(byte)) => byte == bytes[3] && !(1 <= byte <= 5),
                    Err(FrameError::Malformed) => 1 <= bytes[3] <= 5 && bytes[3] != 2,
                    Err(_) => false,
                }
            }
        }),
{
}

/// The payload of a message is the encoding of what it holds, and of nothing for a
/// keepalive. What comes with a keepalive is not looked at.
pub proof fn lemma_payloads(message: MessageView, bytes: Seq<u8>)
    ensures
        message matches MessageView::Hello(hello) ==> message.payload() == pb::Hello::payload(hello)
            && message.kind() == MessageType::Hello,
        message is Keepalive ==> message.payload().len() == 0 && message.kind()
            == MessageType::Keepalive,
        message matches MessageView::Subscribe(sub) ==> message.payload()
            == pb::Subscription::payload(sub) && message.kind() == MessageType::Subscribe,
        message matches MessageView::Unsubscribe(sub) ==> message.payload()
            == pb::Subscription::payload(sub) && message.kind() == MessageType::Unsubscribe,
        message matches MessageView::Update(update) ==> message.payload() == pb::Update::payload(
            update,
        ) && message.kind() == MessageType::Update,
        MessageView::of_payload(MessageType::Keepalive, bytes) == Some(MessageView::Keepalive),
        MessageView::of_payload(MessageType::Subscribe, bytes) matches Some(m) ==> m is Subscribe,
        MessageView::of_payload(MessageType::Unsubscribe, bytes) matches Some(
            m,
        ) ==> m is Unsubscribe,
        MessageView::of_payload(MessageType::Hello, bytes) matches Some(m) ==> m is Hello,
        MessageView::of_payload(MessageType::Update, bytes) matches Some(m) ==> m is Update,
        MessageView::of_payload(MessageType::Subscribe, bytes) is Some <==> MessageView::of_payload(
            MessageType::Unsubscribe,
            bytes,
        ) is Some,
{
}

/// A varint has seven bits to a byte, the low ones first; the high bit is set in every
/// byte but the last.
pub proof fn lemma_varint_layout(value: nat)
    ensures
        value < 128 ==> varint(value) == seq![value as u8],
        value >= 128 ==> varint(value)[0] == value % 128 + 128 && varint(value).skip(1) == varint(
            value / 128,
        ),
{
    if value >= 128 {
        assert(varint(value).skip(1) =~= varint(value / 128));
    }
}

/// How a varint is read: a byte below 128 ends it, any other one adds its low seven
/// bits to 128 times what follows. There is no more than one bit in a tenth byte, and
/// no eleventh.
pub proof fn lemma_reading_varints(byte: u8, rest: Seq<u8>, budget: nat)
    ensures
        ({
            let bytes = seq![byte] + rest;
            &&& leading_varint(bytes) == varint_within(bytes, 10)
            &&& varint_within(Seq::empty(), budget) is None
            &&& varint_within(bytes, 0) is None
            &&& budget > 1 && byte < 128 ==> varint_within(bytes, budget) == Some(
                (byte as nat, rest),
            )
            &&& budget == 1 && byte < 2 ==> varint_within(bytes, budget) == Some(
                (byte as nat, rest),
            )
            &&& budget == 1 && byte >= 2 ==> varint_within(bytes, budget) is None
            &&& budget > 1 && byte >= 128 ==> match varint_within(rest, (budget - 1) as nat) {
                Some((high, left)) => varint_within(bytes, budget) == Some(
                    ((byte - 128 + 128 * high) as nat, left),
                ),
                None => varint_within(bytes, budget) is None,
            }
        }),
{
    let bytes = seq![byte] + rest;
    assert(bytes.skip(1) =~= rest);
    reveal_with_fuel(varint_within, 2);
}

/// A key is eight times the number of the field, and the number of the wire type.
pub proof fn lemma_keys(tag: u32, wire: WireType, bytes: Seq<u8>)
    ensures
        key(tag, wire) == varint(
            (tag * 8 + match wire {
                WireType::Varint => 0int,
                WireType::SixtyFourBit => 1,
                WireType::LengthDelimited => 2,
                WireType::StartGroup => 3,
                WireType::EndGroup => 4,
                WireType::ThirtyTwoBit => 5,
            }) as nat,
        ),
        leading_key(bytes) matches Some((t, w, rest)) ==> t >= 1 && leading_varint(bytes) == Some(
            (
                (t * 8 + match w {
                    WireType::Varint => 0int,
                    WireType::SixtyFourBit => 1,
                    WireType::LengthDelimited => 2,
                    WireType::StartGroup => 3,
                    WireType::EndGroup => 4,
                    WireType::ThirtyTwoBit => 5,
                }) as nat,
                rest,
            ),
        ),
        leading_key(bytes) is None ==> match leading_varint(bytes) {
            Some((value, _)) => value % 8 > 5 || value < 8 || value > u32::MAX,
            None => true,
        },
{
}

/// A number as it stands in a field: nothing at all where it is zero.
pub open spec fn number_bytes(key: u8, value: nat) -> Seq<u8> {
    if value == 0 {
        Seq::empty()
    } else {
        seq![key] + varint(value)
    }
}

/// Bytes as they stand in a field.
pub open spec fn block_bytes(key: u8, value: Seq<u8>) -> Seq<u8> {
    seq![key] + varint(value.len()) + value
}

/// A signed number as an unsigned one of 64 bits.
pub open spec fn unsigned(value: int) -> nat {
    if value >= 0 {
        value as nat
    } else {
        (value + 0x1_0000_0000_0000_0000) as nat
    }
}

proof fn lemma_small_key(tag: u32, wire: WireType)
    requires
        1 <= tag <= 5,
    ensures
        key(tag, wire) == seq![(tag * 8 + wire.code()) as u8],
{
}

proof fn lemma_number_fields(tag: u32, value: u32, signed: i32, flag: bool)
    requires
        1 <= tag <= 5,
    ensures
        uint32_field(tag, value) == number_bytes((tag * 8) as u8, value as nat),
        int32_field(tag, signed) == number_bytes((tag * 8) as u8, unsigned(signed as int)),
        bool_field(tag, flag) == number_bytes(
            (tag * 8) as u8,
            if flag {
                1
            } else {
                0
            },
        ),
{
    lemma_small_key(tag, WireType::Varint);
}

proof fn lemma_block_field(tag: u32, value: Seq<u8>)
    requires
        1 <= tag <= 5,
    ensures
        message_field(tag, value) == block_bytes((tag * 8 + 2) as u8, value),
{
    lemma_small_key(tag, WireType::LengthDelimited);
    assert(message_field(tag, value) =~= block_bytes((tag * 8 + 2) as u8, value));
}

/// The bytes of a `Hello` and of a subscription.
pub proof fn lemma_hello_bytes(hello: pb::Hello, sub: pb::Subscription)
    ensures
        pb::Hello::payload(hello) == number_bytes(8, hello.keepalive_interval as nat)
            + number_bytes(
            16,
            if hello.is_server {
                1
            } else {
                0
            },
        ),
        pb::Subscription::payload(sub) == number_bytes(8, sub.vni as nat),
{
    lemma_number_fields(1, hello.keepalive_interval, 0, false);
    lemma_number_fields(2, 0, 0, hello.is_server);
    lemma_number_fields(1, sub.vni, 0, false);
}

/// The bytes of a destination.
pub proof fn lemma_destination_bytes(dest: pb::DestinationView)
    ensures
        pb::Destination::payload(dest) == number_bytes(8, unsigned(dest.ip_version as int)) + (
        if dest.prefix.len() == 0 {
            Seq::empty()
        } else {
            block_bytes(18, dest.prefix)
        }) + number_bytes(24, dest.prefix_length as nat),
{
    lemma_number_fields(1, 0, dest.ip_version, false);
    lemma_block_field(2, dest.prefix);
    lemma_number_fields(3, dest.prefix_length, 0, false);
}

/// The bytes of a next hop.
pub proof fn lemma_next_hop_bytes(nh: pb::NextHopView)
    ensures
        pb::NextHop::payload(nh) == (if nh.target_address.len() == 0 {
            Seq::empty()
        } else {
            block_bytes(10, nh.target_address)
        }) + number_bytes(16, nh.target_vni as nat) + number_bytes(
            24,
            unsigned(nh.hop_type as int),
        ) + number_bytes(32, nh.nat_port_range_from as nat) + number_bytes(
            40,
            nh.nat_port_range_to as nat,
        ),
{
    lemma_block_field(1, nh.target_address);
    lemma_number_fields(2, nh.target_vni, 0, false);
    lemma_number_fields(3, 0, nh.hop_type, false);
    lemma_number_fields(4, nh.nat_port_range_from, 0, false);
    lemma_number_fields(5, nh.nat_port_range_to, 0, false);
}

/// The bytes of an update.
pub proof fn lemma_update_bytes(update: pb::UpdateView)
    ensures
        pb::Update::payload(update) == number_bytes(8, unsigned(update.action as int))
            + number_bytes(16, update.vni as nat) + (match update.destination {
            Some(d) => block_bytes(26, pb::Destination::payload(d)),
            None => Seq::empty(),
        }) + (match update.next_hop {
            Some(n) => block_bytes(34, pb::NextHop::payload(n)),
            None => Seq::empty(),
        }),
{
    lemma_number_fields(1, 0, update.action, false);
    lemma_number_fields(2, update.vni, 0, false);
    if let Some(d) = update.destination {
        lemma_block_field(3, pb::Destination::payload(d));
    }
    if let Some(n) = update.next_hop {
        lemma_block_field(4, pb::NextHop::payload(n));
    }
}

/// The octets of an address, the most significant first.
pub proof fn lemma_octets(addr: IpAddr, i: int)
    requires
        0 <= i < addr.octets().len(),
    ensures
        match addr {
            IpAddr::V4(value) => addr.octets().len() == 4 && addr.octets()[i] == value as nat
                / pow2((8 * (3 - i)) as nat) % 256,
            IpAddr::V6(value) => addr.octets().len() == 16 && addr.octets()[i] == value as nat
                / pow2((8 * (15 - i)) as nat) % 256,
        },
{
    crate::net::lemma_octets_len(addr);
    match addr {
        IpAddr::V4(value) => lemma_be_index(value as nat, 4, i),
        IpAddr::V6(value) => lemma_be_index(value as nat, 16, i),
    }
}

proof fn lemma_be_index(value: nat, count: nat, i: int)
    requires
        0 <= i < count,
    ensures
        be_bytes(value, count).len() == count,
        be_bytes(value, count)[i] == value / pow2((8 * (count - 1 - i)) as nat) % 256,
    decreases count,
{
    vstd::arithmetic::power2::lemma2_to64();
    if count > 1 {
        lemma_be_index(value / 256, (count - 1) as nat, if i < count - 1 {
            i
        } else {
            0
        });
    } else {
        reveal_with_fuel(be_bytes, 2);
    }
    if i < count - 1 {
        let less = (8 * (count - 2 - i)) as nat;
        vstd::arithmetic::power2::lemma_pow2_adds(8, less);
        vstd::arithmetic::power2::lemma_pow2_pos(less);
        vstd::arithmetic::div_mod::lemma_div_denominator(value as int, 256, pow2(less) as int);
        assert(pow2(8) == 256);
        assert((8 + less) as nat == (8 * (count - 1 - i)) as nat);
    } else {
        assert(pow2(0) == 1);
        assert(value / 1 == value);
    }
}

/// A destination from the wire is its bytes and its length. It is refused just if the
/// bytes are not those of an address, or more bits count than the address has.
pub proof fn lemma_received_destination(message: pb::DestinationView)
    requires
        message.prefix.len() <= usize::MAX,
    ensures
        match message_destination(message) {
            Ok(dest) => {
                &&& message.prefix.len() == 4 || message.prefix.len() == 16
                &&& message.prefix_length % 256 <= 8 * message.prefix.len()
                &&& dest.prefix.addr() is V4 <==> message.prefix.len() == 4
                &&& dest.prefix.addr().octets() == message.prefix
                &&& dest.prefix.prefix_len() == message.prefix_length % 256
            },
            Err(ConversionError::AddressLength(len)) => len == message.prefix.len() && len != 4
                && len != 16,
            Err(ConversionError::PrefixLength(len)) => len == message.prefix_length % 256 && (
            message.prefix.len() == 4 || message.prefix.len() == 16) && len > 8
                * message.prefix.len(),
        },
{
    crate::net::lemma_of_octets_roundtrip(message.prefix);
    if let Ok(dest) = message_destination(message) {
        crate::net::lemma_prefix_parts(
            dest.prefix,
            IpAddr::of_octets(message.prefix)->0,
            (message.prefix_length % 256) as u8,
        );
    }
}

/// A next hop from the wire is its fields. It is refused just if the bytes are not
/// those of an address. An unknown type counts as the standard one.
pub proof fn lemma_received_next_hop(message: pb::NextHopView)
    requires
        message.target_address.len() <= usize::MAX,
    ensures
        match message_next_hop(message) {
            Ok(nh) => {
                &&& nh.target_address is V4 ==> message.target_address.len() == 4
                &&& nh.target_address is V6 ==> message.target_address.len() == 16
                &&& nh.target_address.octets() == message.target_address
                &&& nh.target_vni == message.target_vni
                &&& nh.nat_port_range_from == message.nat_port_range_from % 65536
                &&& nh.nat_port_range_to == message.nat_port_range_to % 65536
                &&& nh.hop_type == if message.hop_type == 1 {
                    pb::NextHopType::Nat
                } else if message.hop_type == 2 {
                    pb::NextHopType::LoadbalancerTarget
                } else {
                    pb::NextHopType::Standard
                }
            },
            Err(ConversionError::AddressLength(len)) => len == message.target_address.len() && len
                != 4 && len != 16,
            Err(ConversionError::PrefixLength(_)) => false,
        },
{
    crate::net::lemma_of_octets_roundtrip(message.target_address);
}

/// The destination that a text is has the address and the length that are read from
/// it.
pub proof fn lemma_parsed_destination(text: Seq<char>)
    ensures
        match Destination::parsed(text) {
            Some(dest) => parsed_prefix(text) == Some(
                (dest.prefix.addr(), dest.prefix.prefix_len()),
            ),
            None => parsed_prefix(text) is None,
        },
{
    if let Some((addr, len)) = parsed_prefix(text) {
        crate::net::lemma_prefix_parts(IpNet::of(addr, len), addr, len);
    }
}

/// The low bits of a number: 32 of them, as an unsigned or a signed number.
pub proof fn lemma_low_bits(value: nat)
    ensures
        (value - low_u32(value)) % 0x1_0000_0000 == 0,
        (value - low_i32(value)) % 0x1_0000_0000 == 0,
        value <= u32::MAX ==> low_u32(value) == value,
        value <= i32::MAX ==> low_i32(value) == value,
{
}

/// A field that is read replaces what was there and nothing else. Of a number its last
/// 32 bits count, and any number but zero is true.
pub proof fn lemma_reading_fields(
    hello: pb::Hello,
    sub: pb::Subscription,
    dest: pb::DestinationView,
    nh: pb::NextHopView,
    update: pb::UpdateView,
    bytes: Seq<u8>,
    value: nat,
    rest: Seq<u8>,
)
    requires
        leading_varint(bytes) == Some((value, rest)),
    ensures
        ({
            let low = low_u32(value);
            let signed = low_i32(value);
            let wire = WireType::Varint;
            &&& pb::Hello::with_field(hello, 1, wire, bytes) == Some(
                (pb::Hello { keepalive_interval: low, ..hello }, rest),
            )
            &&& pb::Hello::with_field(hello, 2, wire, bytes) == Some(
                (pb::Hello { is_server: value != 0, ..hello }, rest),
            )
            &&& pb::Subscription::with_field(sub, 1, wire, bytes) == Some(
                (pb::Subscription { vni: low }, rest),
            )
            &&& pb::Destination::with_field(dest, 1, wire, bytes) == Some(
                (pb::DestinationView { ip_version: signed, ..dest }, rest),
            )
            &&& pb::Destination::with_field(dest, 3, wire, bytes) == Some(
                (pb::DestinationView { prefix_length: low, ..dest }, rest),
            )
            &&& pb::NextHop::with_field(nh, 2, wire, bytes) == Some(
                (pb::NextHopView { target_vni: low, ..nh }, rest),
            )
            &&& pb::NextHop::with_field(nh, 3, wire, bytes) == Some(
                (pb::NextHopView { hop_type: signed, ..nh }, rest),
            )
            &&& pb::NextHop::with_field(nh, 4, wire, bytes) == Some(
                (pb::NextHopView { nat_port_range_from: low, ..nh }, rest),
            )
            &&& pb::NextHop::with_field(nh, 5, wire, bytes) == Some(
                (pb::NextHopView { nat_port_range_to: low, ..nh }, rest),
            )
            &&& pb::Update::with_field(update, 1, wire, bytes) == Some(
                (pb::UpdateView { action: signed, ..update }, rest),
            )
            &&& pb::Update::with_field(update, 2, wire, bytes) == Some(
                (pb::UpdateView { vni: low, ..update }, rest),
            )
        }),
{
}

/// A field of bytes that is read replaces what was there; a submessage adds to it. The
/// bytes are as many as the varint before them says, and have to be there.
pub proof fn lemma_reading_blocks(
    dest: pb::DestinationView,
    nh: pb::NextHopView,
    update: pb::UpdateView,
    bytes: Seq<u8>,
    len: nat,
    rest: Seq<u8>,
)
    requires
        leading_varint(bytes) == Some((len, rest)),
    ensures
        ({
            let wire = WireType::LengthDelimited;
            let block = rest.take(len as int);
            let left = rest.skip(len as int);
            let old_dest = match update.destination {
                Some(d) => d,
                None => pb::DestinationView {
                    ip_version: 0,
                    prefix: Seq::empty(),
                    prefix_length: 0,
                },
            };
            let old_hop = match update.next_hop {
                Some(n) => n,
                None => pb::NextHopView {
                    target_address: Seq::empty(),
                    target_vni: 0,
                    hop_type: 0,
                    nat_port_range_from: 0,
                    nat_port_range_to: 0,
                },
            };
            if len > rest.len() {
                &&& pb::Destination::with_field(dest, 2, wire, bytes) is None
                &&& pb::NextHop::with_field(nh, 1, wire, bytes) is None
                &&& pb::Update::with_field(update, 3, wire, bytes) is None
                &&& pb::Update::with_field(update, 4, wire, bytes) is None
            } else {
                &&& pb::Destination::with_field(dest, 2, wire, bytes) == Some(
                    (pb::DestinationView { prefix: block, ..dest }, left),
                )
                &&& pb::NextHop::with_field(nh, 1, wire, bytes) == Some(
                    (pb::NextHopView { target_address: block, ..nh }, left),
                )
                &&& pb::Update::with_field(update, 3, wire, bytes) == match merged::<
                    pb::Destination,
                >(old_dest, block) {
                    Some(d) => Some((pb::UpdateView { destination: Some(d), ..update }, left)),
                    None => None,
                }
                &&& pb::Update::with_field(update, 4, wire, bytes) == match merged::<pb::NextHop>(
                    old_hop,
                    block,
                ) {
                    Some(n) => Some((pb::UpdateView { next_hop: Some(n), ..update }, left)),
                    None => None,
                }
            }
        }),
{
}

/// A message is read field by field: without bytes nothing changes; the field that the
/// bytes begin with is read first, and then what follows it; and a key or a field that
/// is malformed makes the message so. What was not read is as in an empty message.
pub proof fn lemma_reading_messages<M: Message>(value: M::V, bytes: Seq<u8>)
    ensures
        decoded::<M>(bytes) == merged::<M>(M::cleared(), bytes),
        merged::<M>(value, Seq::empty()) == Some(value),
        bytes.len() > 0 ==> match leading_key(bytes) {
            None => merged::<M>(value, bytes) is None,
            Some((tag, wire, body)) => match M::with_field(value, tag, wire, body) {
                None => merged::<M>(value, bytes) is None,
                Some((next, rest)) => rest.len() <= body.len() ==> merged::<M>(value, bytes)
                    == merged::<M>(next, rest),
            },
        },
        pb::Hello::cleared() == (pb::Hello { keepalive_interval: 0, is_server: false }),
        pb::Subscription::cleared() == (pb::Subscription { vni: 0 }),
        pb::Update::cleared() == (pb::UpdateView {
            action: 0,
            vni: 0,
            destination: None,
            next_hop: None,
        }),
{
    crate::wire::lemma_key_consumes(bytes);
}

/// A known field in another form than its own makes a message malformed.
pub proof fn lemma_wrong_forms(
    hello: pb::Hello,
    sub: pb::Subscription,
    dest: pb::DestinationView,
    nh: pb::NextHopView,
    update: pb::UpdateView,
    tag: u32,
    wire: WireType,
    bytes: Seq<u8>,
)
    ensures
        wire != WireType::Varint && (tag == 1 || tag == 2) ==> pb::Hello::with_field(
            hello,
            tag,
            wire,
            bytes,
        ) is None && pb::Update::with_field(update, tag, wire, bytes) is None,
        wire != WireType::Varint && tag == 1 ==> pb::Subscription::with_field(
            sub,
            tag,
            wire,
            bytes,
        ) is None,
        wire != WireType::Varint && (tag == 1 || tag == 3) ==> pb::Destination::with_field(
            dest,
            tag,
            wire,
            bytes,
        ) is None,
        wire != WireType::Varint && 2 <= tag <= 5 ==> pb::NextHop::with_field(
            nh,
            tag,
            wire,
            bytes,
        ) is None,
        wire != WireType::LengthDelimited && tag == 2 ==> pb::Destination::with_field(
            dest,
            tag,
            wire,
            bytes,
        ) is None,
        wire != WireType::LengthDelimited && tag == 1 ==> pb::NextHop::with_field(
            nh,
            tag,
            wire,
            bytes,
        ) is None,
        wire != WireType::LengthDelimited && (tag == 3 || tag == 4) ==> pb::Update::with_field(
            update,
            tag,
            wire,
            bytes,
        ) is None,
{
}

/// A field that is not known changes nothing: its value is passed over.
pub proof fn lemma_unknown_fields(
    hello: pb::Hello,
    sub: pb::Subscription,
    dest: pb::DestinationView,
    nh: pb::NextHopView,
    update: pb::UpdateView,
    tag: u32,
    wire: WireType,
    bytes: Seq<u8>,
)
    requires
        tag > 0,
    ensures
        match after_value(wire, tag, bytes, 100) {
            Some(rest) => {
                &&& tag > 2 ==> pb::Hello::with_field(hello, tag, wire, bytes) == Some(
                    (hello, rest),
                )
                &&& tag > 1 ==> pb::Subscription::with_field(sub, tag, wire, bytes) == Some(
                    (sub, rest),
                )
                &&& tag > 4 ==> pb::Update::with_field(update, tag, wire, bytes) == Some(
                    (update, rest),
                )
            },
            None => {
                &&& tag > 2 ==> pb::Hello::with_field(hello, tag, wire, bytes) is None
                &&& tag > 1 ==> pb::Subscription::with_field(sub, tag, wire, bytes) is None
                &&& tag > 4 ==> pb::Update::with_field(update, tag, wire, bytes) is None
            },
        },
        match after_value(wire, tag, bytes, 99) {
            Some(rest) => {
                &&& tag > 3 ==> pb::Destination::with_field(dest, tag, wire, bytes) == Some(
                    (dest, rest),
                )
                &&& tag > 5 ==> pb::NextHop::with_field(nh, tag, wire, bytes) == Some((nh, rest))
            },
            None => {
                &&& tag > 3 ==> pb::Destination::with_field(dest, tag, wire, bytes) is None
                &&& tag > 5 ==> pb::NextHop::with_field(nh, tag, wire, bytes) is None
            },
        },
{
}

/// What is passed over: a varint, eight bytes, four bytes, or so many bytes as a
/// varint before them says.
pub proof fn lemma_passing_over(tag: u32, value: u64, block: Seq<u8>, rest: Seq<u8>, depth: nat)
    requires
        depth > 0,
        block.len() <= u64::MAX,
    ensures
        after_value(WireType::Varint, tag, varint(value as nat) + rest, depth) == Some(rest),
        after_value(WireType::LengthDelimited, tag, varint(block.len()) + block + rest, depth)
            == Some(rest),
        block.len() == 8 ==> after_value(WireType::SixtyFourBit, tag, block + rest, depth) == Some(
            rest,
        ),
        block.len() == 4 ==> after_value(WireType::ThirtyTwoBit, tag, block + rest, depth) == Some(
            rest,
        ),
        rest.len() < 8 ==> after_value(WireType::SixtyFourBit, tag, rest, depth) is None,
        rest.len() < 4 ==> after_value(WireType::ThirtyTwoBit, tag, rest, depth) is None,
        after_value(WireType::EndGroup, tag, rest, depth) is None,
        after_value(WireType::Varint, tag, varint(value as nat) + rest, 0) is None,
{
    lemma_varint_roundtrip(value as nat, rest);
    lemma_bytes_roundtrip(block, rest);
    assert((block + rest).skip(block.len() as int) =~= rest);
    assert(varint(block.len()) + block + rest =~= varint(block.len()) + (block + rest));
    lemma_varint_roundtrip(block.len(), block + rest);
}

/// A group ends at the key that bears its number, and its fields are passed over one
/// by one, each with one level less.
pub proof fn lemma_passing_over_groups(
    tag: u32,
    inner: u32,
    wire: WireType,
    body: Seq<u8>,
    rest: Seq<u8>,
    depth: nat,
)
    requires
        depth > 0,
        1 <= tag < TAG_LIMIT,
        1 <= inner < TAG_LIMIT,
    ensures
        after_value(WireType::StartGroup, tag, key(tag, WireType::EndGroup) + rest, depth) == Some(
            rest,
        ),
        inner != tag ==> after_value(
            WireType::StartGroup,
            tag,
            key(inner, WireType::EndGroup) + rest,
            depth,
        ) is None,
        wire != WireType::EndGroup && after_value(wire, inner, body + rest, (depth - 1) as nat)
            == Some(rest) ==> after_value(
            WireType::StartGroup,
            tag,
            key(inner, wire) + (body + rest),
            depth,
        ) == after_value(WireType::StartGroup, tag, rest, depth),
        wire != WireType::EndGroup && after_value(wire, inner, body, (depth - 1) as nat) is None
            ==> after_value(WireType::StartGroup, tag, key(inner, wire) + body, depth) is None,
{
    lemma_key_roundtrip(tag, WireType::EndGroup, rest);
    lemma_key_roundtrip(inner, WireType::EndGroup, rest);
    lemma_key_roundtrip(inner, wire, body + rest);
    lemma_key_roundtrip(inner, wire, body);
    crate::wire::lemma_key_consumes(key(inner, wire) + (body + rest));
}

/// The text of a next hop: its address, and its virtual network in brackets unless
/// that is zero.
pub proof fn lemma_next_hop_text(nh: NextHop, other: u32)
    ensures
        ({
            let address = crate::net::address_text(nh.target_address);
            let text = nh.text();
            &&& nh.target_vni == 0 ==> text == address
            &&& nh.target_vni != 0 ==> text == address + seq![' ', '(', 'V', 'N', 'I', ':', ' ']
                + crate::text::decimal(nh.target_vni as nat) + seq![')']
            &&& text == (NextHop { target_vni: other, ..nh }).text() <==> nh.target_vni == other
        }),
{
    reveal_strlit(" (VNI: ");
    reveal_strlit(")");
    let address = crate::net::address_text(nh.target_address);
    let (a, b) = (
        crate::text::decimal(nh.target_vni as nat),
        crate::text::decimal(other as nat),
    );
    assert(" (VNI: "@ =~= seq![' ', '(', 'V', 'N', 'I', ':', ' ']);
    assert(")"@ =~= seq![')']);
    let changed = (NextHop { target_vni: other, ..nh }).text();
    if nh.text() == changed {
        assert(nh.text().len() == changed.len());
        if nh.target_vni != 0 && other != 0 {
            let start = address.len() as int + 7;
            assert(nh.text().subrange(start, start + a.len()) =~= a);
            assert(changed.subrange(start, start + b.len()) =~= b);
            super::reading::lemma_decimal(nh.target_vni as nat);
            super::reading::lemma_decimal(other as nat);
        }
    }
}

} // verus!
