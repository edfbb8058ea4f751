//! The messages of the protocol and their protobuf encoding.

use crate::wire::{
    after_value, bool_field, bool_value, bytes_field, bytes_value, int32_field,
    int32_value, key, leading_key, lemma_bool_roundtrip, lemma_bytes_roundtrip,
    lemma_int32_roundtrip, lemma_key_consumes, lemma_key_roundtrip, lemma_uint32_roundtrip,
    lemma_varint_len, message_field, push_all, push_bool, push_bytes, push_int32, push_message, push_uint32,
    read_bool, read_bytes, read_int32, read_key, read_uint32, sign_extended, skip_unknown,
    skip_unknown_nested, uint32_field, uint32_value, varint, MalformedMessage, WireType, NESTING_LIMIT, TAG_LIMIT,
};
use vstd::prelude::*;

verus! {

/// Whether an update adds a route or removes one.
#[derive(Debug, Clone, Copy, PartialEq, Eq, PartialOrd, Ord, Hash, Structural)]
pub enum Action {
    Add,
    Remove,
}

/// The address family of a destination.
#[derive(Debug, Clone, Copy, PartialEq, Eq, PartialOrd, Ord, Hash, Structural)]
pub enum IpVersion {
    IPv4,
    IPv6,
}

/// How traffic to a next hop is treated.
#[derive(Debug, Clone, Copy, PartialEq, Eq, PartialOrd, Ord, Hash, Structural)]
pub enum NextHopType {
    Standard,
    Nat,
    LoadbalancerTarget,
}

impl Action {
    pub open spec fn spec_number(self) -> i32 {
        match self {
            Action::Add => 0,
            Action::Remove => 1,
        }
    }

    /// The number of the action on the wire.
    #[verifier::when_used_as_spec(spec_number)]
    pub fn number(self) -> (n: i32)
        ensures
            n == self.spec_number(),
    {
        match self {
            Action::Add => 0,
            Action::Remove => 1,
        }
    }
}

impl IpVersion {
    pub open spec fn spec_number(self) -> i32 {
        match self {
            IpVersion::IPv4 => 0,
            IpVersion::IPv6 => 1,
        }
    }

    /// The number of the address family on the wire.
    #[verifier::when_used_as_spec(spec_number)]
    pub fn number(self) -> (n: i32)
        ensures
            n == self.spec_number(),
    {
        match self {
            IpVersion::IPv4 => 0,
            IpVersion::IPv6 => 1,
        }
    }
}

impl NextHopType {
    pub open spec fn spec_number(self) -> i32 {
        match self {
            NextHopType::Standard => 0,
            NextHopType::Nat => 1,
            NextHopType::LoadbalancerTarget => 2,
        }
    }

    /// The number of the next hop type on the wire.
    #[verifier::when_used_as_spec(spec_number)]
    pub fn number(self) -> (n: i32)
        ensures
            n == self.spec_number(),
    {
        match self {
            NextHopType::Standard => 0,
            NextHopType::Nat => 1,
            NextHopType::LoadbalancerTarget => 2,
        }
    }
}

impl From<Action> for i32 {
    fn from(value: Action) -> (r: i32) {
        value.number()
    }
}

impl vstd::std_specs::convert::FromSpecImpl<Action> for i32 {
    open spec fn obeys_from_spec() -> bool {
        true
    }

    open spec fn from_spec(value: Action) -> i32 {
        value.number()
    }
}

impl From<IpVersion> for i32 {
    fn from(value: IpVersion) -> (r: i32) {
        value.number()
    }
}

impl vstd::std_specs::convert::FromSpecImpl<IpVersion> for i32 {
    open spec fn obeys_from_spec() -> bool {
        true
    }

    open spec fn from_spec(value: IpVersion) -> i32 {
        value.number()
    }
}

impl From<NextHopType> for i32 {
    fn from(value: NextHopType) -> (r: i32) {
        value.number()
    }
}

impl vstd::std_specs::convert::FromSpecImpl<NextHopType> for i32 {
    open spec fn obeys_from_spec() -> bool {
        true
    }

    open spec fn from_spec(value: NextHopType) -> i32 {
        value.number()
    }
}

/// A number that stands for no value of an enumeration.
#[derive(Debug, Clone, Copy, PartialEq, Eq, Structural)]
pub struct UnknownEnumValue(pub i32);

impl TryFrom<i32> for Action {
    type Error = UnknownEnumValue;

    fn try_from(value: i32) -> (r: Result<Self, UnknownEnumValue>) {
        if value == 0 {
            Ok(Action::Add)
        } else if value == 1 {
            Ok(Action::Remove)
        } else {
            Err(UnknownEnumValue(value))
        }
    }
}

impl vstd::std_specs::convert::TryFromSpecImpl<i32> for Action {
    open spec fn obeys_try_from_spec() -> bool {
        true
    }

    open spec fn try_from_spec(value: i32) -> Result<Self, UnknownEnumValue> {
        if value == 0 {
            Ok(Action::Add)
        } else if value == 1 {
            Ok(Action::Remove)
        } else {
            Err(UnknownEnumValue(value))
        }
    }
}

impl TryFrom<i32> for NextHopType {
    type Error = UnknownEnumValue;

    fn try_from(value: i32) -> (r: Result<Self, UnknownEnumValue>) {
        if value == 0 {
            Ok(NextHopType::Standard)
        } else if value == 1 {
            Ok(NextHopType::Nat)
        } else if value == 2 {
            Ok(NextHopType::LoadbalancerTarget)
        } else {
            Err(UnknownEnumValue(value))
        }
    }
}

impl vstd::std_specs::convert::TryFromSpecImpl<i32> for NextHopType {
    open spec fn obeys_try_from_spec() -> bool {
        true
    }

    open spec fn try_from_spec(value: i32) -> Result<Self, UnknownEnumValue> {
        if value == 0 {
            Ok(NextHopType::Standard)
        } else if value == 1 {
            Ok(NextHopType::Nat)
        } else if value == 2 {
            Ok(NextHopType::LoadbalancerTarget)
        } else {
            Err(UnknownEnumValue(value))
        }
    }
}

/// An ASCII letter in lower case; any other character as it is.
pub open spec fn ascii_lower(c: char) -> char {
    if 'A' <= c && c <= 'Z' {
        ((c as u32 + 32) as u8) as char
    } else {
        c
    }
}

/// A text with its letters in lower case, as Unicode defines it.
pub uninterp spec fn lowercased(text: Seq<char>) -> Seq<char>;

/// Calls `str::to_lowercase`. The text in lower case depends on the text alone;
/// an ASCII text is changed letter by letter.
#[verifier::external_body]
fn to_lowercase(text: &str) -> (lower: String)
    ensures
        lower@ == lowercased(text@),
        (forall|i: int| 0 <= i < text@.len() ==> (#[trigger] text@[i] as u32) < 128)
            ==> lower@ == text@.map_values(|c: char| ascii_lower(c)),
{
    text.to_lowercase()
}

/// The next hop type that a word in lower case stands for: `Standard` unless it
/// names another one.
pub open spec fn word_hop_type(lower: Seq<char>) -> NextHopType {
    if lower == "nat"@ {
        NextHopType::Nat
    } else if lower == "lb"@ || lower == "loadbalancer"@ || lower == "loadbalancer_target"@ {
        NextHopType::LoadbalancerTarget
    } else {
        NextHopType::Standard
    }
}

/// The next hop type that a word in lower case stands for.
pub fn hop_type_of_word(lower: &String) -> (t: NextHopType)
    ensures
        t == word_hop_type(lower@),
{
    if *lower == "nat".to_owned() {
        NextHopType::Nat
    } else if *lower == "lb".to_owned() || *lower == "loadbalancer".to_owned() || *lower
        == "loadbalancer_target".to_owned() {
        NextHopType::LoadbalancerTarget
    } else {
        NextHopType::Standard
    }
}

/// The next hop type that a word stands for, in upper or lower case: `nat`,
/// `lb`, `loadbalancer` and `loadbalancer_target` name one, and any other word
/// stands for `Standard`.
pub fn next_hop_type_from_str(s: &str) -> (t: NextHopType)
    ensures
        t == word_hop_type(lowercased(s@)),
        (forall|i: int| 0 <= i < s@.len() ==> (#[trigger] s@[i] as u32) < 128)
            ==> t == word_hop_type(s@.map_values(|c: char| ascii_lower(c))),
{
    hop_type_of_word(&to_lowercase(s))
}

/// What a message is to its encoding: a list of numbered fields.
pub trait Message: View + Sized {
    /// The message in which no field is set.
    spec fn cleared() -> Self::V;

    /// The bytes of a message.
    spec fn payload(value: Self::V) -> Seq<u8>;

    /// The message after one more field has been read into it, and what follows
    /// the field's value in `bytes`; `None` where the value is malformed.
    spec fn with_field(value: Self::V, tag: u32, wire: WireType, bytes: Seq<u8>) -> Option<
        (Self::V, Seq<u8>),
    >;

    fn empty() -> (message: Self)
        ensures
            message@ == Self::cleared(),
    ;

    /// Encodes the message.
    fn encode_to_vec(&self) -> (bytes: Vec<u8>)
        ensures
            bytes@ == Self::payload(self@),
    ;

    /// Reads the value of one field off the front of `bytes` and returns the rest.
    fn merge_field<'a>(&mut self, tag: u32, wire: WireType, bytes: &'a [u8]) -> (r: Result<
        &'a [u8],
        MalformedMessage,
    >)
        requires
            1 <= tag < TAG_LIMIT,
        ensures
            match Self::with_field(old(self)@, tag, wire, bytes@) {
                Some((value, rest)) => r matches Ok(left) && final(self)@ == value && left@ == rest
                    && rest.len() <= bytes@.len(),
                None => r is Err,
            },
    ;
}

/// A message after all the fields in `bytes` have been read into it, one after
/// the other.
pub open spec fn merged<M: Message>(value: M::V, bytes: Seq<u8>) -> Option<M::V>
    decreases bytes.len(),
{
    if bytes.len() == 0 {
        Some(value)
    } else {
        match leading_key(bytes) {
            None => None,
            Some((tag, wire, rest)) => match M::with_field(value, tag, wire, rest) {
                Some((next, left)) if left.len() < bytes.len() => merged::<M>(next, left),
                _ => None,
            },
        }
    }
}

/// The message that `bytes` encode.
pub open spec fn decoded<M: Message>(bytes: Seq<u8>) -> Option<M::V> {
    merged::<M>(M::cleared(), bytes)
}

/// Reads all the fields in `bytes` into a message.
fn merge_all<M: Message>(message: &mut M, bytes: &[u8]) -> (r: Result<(), MalformedMessage>)
    ensures
        match merged::<M>(old(message)@, bytes@) {
            Some(value) => r is Ok && final(message)@ == value,
            None => r is Err,
        },
{
    let ghost goal = merged::<M>(message@, bytes@);
    let mut rest: &[u8] = bytes;
    while rest.len() > 0
        invariant
            merged::<M>(message@, rest@) == goal,
            goal == merged::<M>(old(message)@, bytes@),
        decreases rest@.len(),
    {
        proof {
            lemma_key_consumes(rest@);
        }
        let (tag, wire, value): (u32, WireType, &[u8]) = match read_key(rest) {
            Ok(taken) => taken,
            Err(e) => {
                return Err(e);
            },
        };
        match message.merge_field(tag, wire, value) {
            Ok(left) => {
                rest = left;
            },
            Err(e) => {
                return Err(e);
            },
        }
    }
    Ok(())
}

/// Decodes a message.
pub fn decode<M: Message>(bytes: &[u8]) -> (r: Result<M, MalformedMessage>)
    ensures
        match decoded::<M>(bytes@) {
            Some(value) => r matches Ok(message) && message@ == value,
            None => r is Err,
        },
{
    let mut message = M::empty();
    match merge_all(&mut message, bytes) {
        Ok(_) => Ok(message),
        Err(e) => Err(e),
    }
}

/// Reading a field that a message's bytes begin with.
proof fn lemma_read_field<M: Message>(
    value: M::V,
    tag: u32,
    wire: WireType,
    body: Seq<u8>,
    rest: Seq<u8>,
    next: M::V,
)
    requires
        1 <= tag < TAG_LIMIT,
        M::with_field(value, tag, wire, body + rest) == Some((next, rest)),
    ensures
        merged::<M>(value, (key(tag, wire) + body) + rest) == merged::<M>(next, rest),
{
    let bytes = (key(tag, wire) + body) + rest;
    assert(bytes =~= key(tag, wire) + (body + rest));
    lemma_key_roundtrip(tag, wire, body + rest);
    lemma_key_consumes(bytes);
}

/// The first message of a connection: what each side asks of the other.
#[derive(Debug, Clone, Copy, PartialEq, Eq, Structural)]
pub struct Hello {
    /// Seconds between two keepalives.
    pub keepalive_interval: u32,
    pub is_server: bool,
}

impl View for Hello {
    type V = Hello;

    open spec fn view(&self) -> Hello {
        *self
    }
}

impl Message for Hello {
    open spec fn cleared() -> Hello {
        Hello { keepalive_interval: 0, is_server: false }
    }

    open spec fn payload(value: Hello) -> Seq<u8> {
        uint32_field(1, value.keepalive_interval) + bool_field(2, value.is_server)
    }

    open spec fn with_field(value: Hello, tag: u32, wire: WireType, bytes: Seq<u8>) -> Option<
        (Hello, Seq<u8>),
    > {
        if tag == 1 {
            match uint32_value(wire, bytes) {
                Some((keepalive_interval, rest)) => Some(
                    (Hello { keepalive_interval, ..value }, rest),
                ),
                None => None,
            }
        } else if tag == 2 {
            match bool_value(wire, bytes) {
                Some((is_server, rest)) => Some((Hello { is_server, ..value }, rest)),
                None => None,
            }
        } else {
            match after_value(wire, tag, bytes, NESTING_LIMIT as nat) {
                Some(rest) => Some((value, rest)),
                None => None,
            }
        }
    }

    fn empty() -> (message: Hello) {
        Hello { keepalive_interval: 0, is_server: false }
    }

    fn encode_to_vec(&self) -> (bytes: Vec<u8>) {
        let mut out: Vec<u8> = Vec::new();
        push_uint32(1, self.keepalive_interval, &mut out);
        push_bool(2, self.is_server, &mut out);
        assert(out@ =~= Self::payload(self@));
        out
    }

    fn merge_field<'a>(&mut self, tag: u32, wire: WireType, bytes: &'a [u8]) -> (r: Result<
        &'a [u8],
        MalformedMessage,
    >) {
        if tag == 1 {
            match read_uint32(wire, bytes) {
                Ok((value, rest)) => {
                    self.keepalive_interval = value;
                    Ok(rest)
                },
                Err(e) => Err(e),
            }
        } else if tag == 2 {
            match read_bool(wire, bytes) {
                Ok((value, rest)) => {
                    self.is_server = value;
                    Ok(rest)
                },
                Err(e) => Err(e),
            }
        } else {
            skip_unknown(wire, tag, bytes)
        }
    }
}

/// A declaration of interest in a virtual network, or its end.
#[derive(Debug, Clone, Copy, PartialEq, Eq, Structural)]
pub struct Subscription {
    pub vni: u32,
}

impl View for Subscription {
    type V = Subscription;

    open spec fn view(&self) -> Subscription {
        *self
    }
}

impl Message for Subscription {
    open spec fn cleared() -> Subscription {
        Subscription { vni: 0 }
    }

    open spec fn payload(value: Subscription) -> Seq<u8> {
        uint32_field(1, value.vni)
    }

    open spec fn with_field(value: Subscription, tag: u32, wire: WireType, bytes: Seq<u8>) -> Option<
        (Subscription, Seq<u8>),
    > {
        if tag == 1 {
            match uint32_value(wire, bytes) {
                Some((vni, rest)) => Some((Subscription { vni, ..value }, rest)),
                None => None,
            }
        } else {
            match after_value(wire, tag, bytes, NESTING_LIMIT as nat) {
                Some(rest) => Some((value, rest)),
                None => None,
            }
        }
    }

    fn empty() -> (message: Subscription) {
        Subscription { vni: 0 }
    }

    fn encode_to_vec(&self) -> (bytes: Vec<u8>) {
        let mut out: Vec<u8> = Vec::new();
        push_uint32(1, self.vni, &mut out);
        assert(out@ =~= Self::payload(self@));
        out
    }

    fn merge_field<'a>(&mut self, tag: u32, wire: WireType, bytes: &'a [u8]) -> (r: Result<
        &'a [u8],
        MalformedMessage,
    >) {
        if tag == 1 {
            match read_uint32(wire, bytes) {
                Ok((value, rest)) => {
                    self.vni = value;
                    Ok(rest)
                },
                Err(e) => Err(e),
            }
        } else {
            skip_unknown(wire, tag, bytes)
        }
    }
}

/// A destination as it goes over the wire, as a submessage of an [`Update`].
#[derive(Debug, Clone)]
pub struct Destination {
    pub ip_version: i32,
    pub prefix: Vec<u8>,
    pub prefix_length: u32,
}

/// What a [`Destination`] holds.
pub struct DestinationView {
    pub ip_version: i32,
    pub prefix: Seq<u8>,
    pub prefix_length: u32,
}

impl View for Destination {
    type V = DestinationView;

    open spec fn view(&self) -> DestinationView {
        DestinationView {
            ip_version: self.ip_version,
            prefix: self.prefix@,
            prefix_length: self.prefix_length,
        }
    }
}

impl Message for Destination {
    open spec fn cleared() -> DestinationView {
        DestinationView { ip_version: 0, prefix: Seq::empty(), prefix_length: 0 }
    }

    open spec fn payload(value: DestinationView) -> Seq<u8> {
        int32_field(1, value.ip_version)
            + bytes_field(2, value.prefix)
            + uint32_field(3, value.prefix_length)
    }

    open spec fn with_field(value: DestinationView, tag: u32, wire: WireType, bytes: Seq<u8>) -> Option<
        (DestinationView, Seq<u8>),
    > {
        if tag == 1 {
            match int32_value(wire, bytes) {
                Some((ip_version, rest)) => Some((DestinationView { ip_version, ..value }, rest)),
                None => None,
            }
        } else if tag == 2 {
            match bytes_value(wire, bytes) {
                Some((prefix, rest)) => Some((DestinationView { prefix, ..value }, rest)),
                None => None,
            }
        } else if tag == 3 {
            match uint32_value(wire, bytes) {
                Some((prefix_length, rest)) => Some((DestinationView { prefix_length, ..value }, rest)),
                None => None,
            }
        } else {
            match after_value(wire, tag, bytes, (NESTING_LIMIT - 1) as nat) {
                Some(rest) => Some((value, rest)),
                None => None,
            }
        }
    }

    fn empty() -> (message: Destination) {
        Destination { ip_version: 0, prefix: Vec::new(), prefix_length: 0 }
    }

    fn encode_to_vec(&self) -> (bytes: Vec<u8>) {
        let mut out: Vec<u8> = Vec::new();
        push_int32(1, self.ip_version, &mut out);
        push_bytes(2, &self.prefix, &mut out);
        push_uint32(3, self.prefix_length, &mut out);
        assert(out@ =~= Self::payload(self@));
        out
    }

    fn merge_field<'a>(&mut self, tag: u32, wire: WireType, bytes: &'a [u8]) -> (r: Result<
        &'a [u8],
        MalformedMessage,
    >) {
        if tag == 1 {
            match read_int32(wire, bytes) {
                Ok((value, rest)) => {
                    self.ip_version = value;
                    Ok(rest)
                },
                Err(e) => Err(e),
            }
        } else if tag == 2 {
            match read_bytes(wire, bytes) {
                Ok((value, rest)) => {
                    self.prefix = slice_to_vec(value);
                    Ok(rest)
                },
                Err(e) => Err(e),
            }
        } else if tag == 3 {
            match read_uint32(wire, bytes) {
                Ok((value, rest)) => {
                    self.prefix_length = value;
                    Ok(rest)
                },
                Err(e) => Err(e),
            }
        } else {
            skip_unknown_nested(wire, tag, bytes)
        }
    }
}

/// A next hop as it goes over the wire, as a submessage of an [`Update`].
#[derive(Debug, Clone)]
pub struct NextHop {
    pub target_address: Vec<u8>,
    pub target_vni: u32,
    pub hop_type: i32,
    pub nat_port_range_from: u32,
    pub nat_port_range_to: u32,
}

/// What a [`NextHop`] holds.
pub struct NextHopView {
    pub target_address: Seq<u8>,
    pub target_vni: u32,
    pub hop_type: i32,
    pub nat_port_range_from: u32,
    pub nat_port_range_to: u32,
}

impl View for NextHop {
    type V = NextHopView;

    open spec fn view(&self) -> NextHopView {
        NextHopView {
            target_address: self.target_address@,
            target_vni: self.target_vni,
            hop_type: self.hop_type,
            nat_port_range_from: self.nat_port_range_from,
            nat_port_range_to: self.nat_port_range_to,
        }
    }
}

impl Message for NextHop {
    open spec fn cleared() -> NextHopView {
        NextHopView { target_address: Seq::empty(), target_vni: 0, hop_type: 0, nat_port_range_from: 0, nat_port_range_to: 0 }
    }

    open spec fn payload(value: NextHopView) -> Seq<u8> {
        bytes_field(1, value.target_address)
            + uint32_field(2, value.target_vni)
            + int32_field(3, value.hop_type)
            + uint32_field(4, value.nat_port_range_from)
            + uint32_field(5, value.nat_port_range_to)
    }

    open spec fn with_field(value: NextHopView, tag: u32, wire: WireType, bytes: Seq<u8>) -> Option<
        (NextHopView, Seq<u8>),
    > {
        if tag == 1 {
            match bytes_value(wire, bytes) {
                Some((target_address, rest)) => Some((NextHopView { target_address, ..value }, rest)),
                None => None,
            }
        } else if tag == 2 {
            match uint32_value(wire, bytes) {
                Some((target_vni, rest)) => Some((NextHopView { target_vni, ..value }, rest)),
                None => None,
            }
        } else if tag == 3 {
            match int32_value(wire, bytes) {
                Some((hop_type, rest)) => Some((NextHopView { hop_type, ..value }, rest)),
                None => None,
            }
        } else if tag == 4 {
            match uint32_value(wire, bytes) {
                Some((nat_port_range_from, rest)) => Some((NextHopView { nat_port_range_from, ..value }, rest)),
                None => None,
            }
        } else if tag == 5 {
            match uint32_value(wire, bytes) {
                Some((nat_port_range_to, rest)) => Some((NextHopView { nat_port_range_to, ..value }, rest)),
                None => None,
            }
        } else {
            match after_value(wire, tag, bytes, (NESTING_LIMIT - 1) as nat) {
                Some(rest) => Some((value, rest)),
                None => None,
            }
        }
    }

    fn empty() -> (message: NextHop) {
        NextHop { target_address: Vec::new(), target_vni: 0, hop_type: 0, nat_port_range_from: 0, nat_port_range_to: 0 }
    }

    fn encode_to_vec(&self) -> (bytes: Vec<u8>) {
        let mut out: Vec<u8> = Vec::new();
        push_bytes(1, &self.target_address, &mut out);
        push_uint32(2, self.target_vni, &mut out);
        push_int32(3, self.hop_type, &mut out);
        push_uint32(4, self.nat_port_range_from, &mut out);
        push_uint32(5, self.nat_port_range_to, &mut out);
        assert(out@ =~= Self::payload(self@));
        out
    }

    fn merge_field<'a>(&mut self, tag: u32, wire: WireType, bytes: &'a [u8]) -> (r: Result<
        &'a [u8],
        MalformedMessage,
    >) {
        if tag == 1 {
            match read_bytes(wire, bytes) {
                Ok((value, rest)) => {
                    self.target_address = slice_to_vec(value);
                    Ok(rest)
                },
                Err(e) => Err(e),
            }
        } else if tag == 2 {
            match read_uint32(wire, bytes) {
                Ok((value, rest)) => {
                    self.target_vni = value;
                    Ok(rest)
                },
                Err(e) => Err(e),
            }
        } else if tag == 3 {
            match read_int32(wire, bytes) {
                Ok((value, rest)) => {
                    self.hop_type = value;
                    Ok(rest)
                },
                Err(e) => Err(e),
            }
        } else if tag == 4 {
            match read_uint32(wire, bytes) {
                Ok((value, rest)) => {
                    self.nat_port_range_from = value;
                    Ok(rest)
                },
                Err(e) => Err(e),
            }
        } else if tag == 5 {
            match read_uint32(wire, bytes) {
                Ok((value, rest)) => {
                    self.nat_port_range_to = value;
                    Ok(rest)
                },
                Err(e) => Err(e),
            }
        } else {
            skip_unknown_nested(wire, tag, bytes)
        }
    }
}

/// A field that holds another message, where there is one.
pub open spec fn optional_field<M: Message>(tag: u32, value: Option<M::V>) -> Seq<u8> {
    match value {
        Some(inner) => message_field(tag, M::payload(inner)),
        None => Seq::empty(),
    }
}

/// The content of an optional message.
pub open spec fn optional_view<M: Message>(value: Option<M>) -> Option<M::V> {
    match value {
        Some(inner) => Some(inner@),
        None => None,
    }
}

fn push_optional<M: Message>(tag: u32, value: &Option<M>, out: &mut Vec<u8>)
    requires
        1 <= tag < TAG_LIMIT,
    ensures
        final(out)@ == old(out)@ + optional_field::<M>(tag, optional_view(*value)),
{
    match value {
        Some(inner) => {
            let payload = inner.encode_to_vec();
            push_message(tag, &payload, out);
        },
        None => {},
    }
}

/// A route that has appeared or gone.
#[derive(Debug, Clone)]
pub struct Update {
    pub action: i32,
    pub vni: u32,
    pub destination: Option<Destination>,
    pub next_hop: Option<NextHop>,
}

/// What an [`Update`] holds.
pub struct UpdateView {
    pub action: i32,
    pub vni: u32,
    pub destination: Option<DestinationView>,
    pub next_hop: Option<NextHopView>,
}

impl View for Update {
    type V = UpdateView;

    open spec fn view(&self) -> UpdateView {
        UpdateView {
            action: self.action,
            vni: self.vni,
            destination: optional_view(self.destination),
            next_hop: optional_view(self.next_hop),
        }
    }
}

impl Message for Update {
    open spec fn cleared() -> UpdateView {
        UpdateView { action: 0, vni: 0, destination: None, next_hop: None }
    }

    open spec fn payload(value: UpdateView) -> Seq<u8> {
        int32_field(1, value.action)
            + uint32_field(2, value.vni)
            + optional_field::<Destination>(3, value.destination)
            + optional_field::<NextHop>(4, value.next_hop)
    }

    open spec fn with_field(value: UpdateView, tag: u32, wire: WireType, bytes: Seq<u8>) -> Option<
        (UpdateView, Seq<u8>),
    > {
        if tag == 1 {
            match int32_value(wire, bytes) {
                Some((action, rest)) => Some((UpdateView { action, ..value }, rest)),
                None => None,
            }
        } else if tag == 2 {
            match uint32_value(wire, bytes) {
                Some((vni, rest)) => Some((UpdateView { vni, ..value }, rest)),
                None => None,
            }
        } else if tag == 3 {
            match bytes_value(wire, bytes) {
                Some((payload, rest)) => {
                    let before = match value.destination {
                        Some(inner) => inner,
                        None => Destination::cleared(),
                    };
                    match merged::<Destination>(before, payload) {
                        Some(inner) => Some((UpdateView { destination: Some(inner), ..value }, rest)),
                        None => None,
                    }
                },
                None => None,
            }
        } else if tag == 4 {
            match bytes_value(wire, bytes) {
                Some((payload, rest)) => {
                    let before = match value.next_hop {
                        Some(inner) => inner,
                        None => NextHop::cleared(),
                    };
                    match merged::<NextHop>(before, payload) {
                        Some(inner) => Some((UpdateView { next_hop: Some(inner), ..value }, rest)),
                        None => None,
                    }
                },
                None => None,
            }
        } else {
            match after_value(wire, tag, bytes, NESTING_LIMIT as nat) {
                Some(rest) => Some((value, rest)),
                None => None,
            }
        }
    }

    fn empty() -> (message: Update) {
        Update { action: 0, vni: 0, destination: None, next_hop: None }
    }

    fn encode_to_vec(&self) -> (bytes: Vec<u8>) {
        let mut out: Vec<u8> = Vec::new();
        push_int32(1, self.action, &mut out);
        push_uint32(2, self.vni, &mut out);
        push_optional(3, &self.destination, &mut out);
        push_optional(4, &self.next_hop, &mut out);
        assert(out@ =~= Self::payload(self@));
        out
    }

    fn merge_field<'a>(&mut self, tag: u32, wire: WireType, bytes: &'a [u8]) -> (r: Result<
        &'a [u8],
        MalformedMessage,
    >) {
        if tag == 1 {
            match read_int32(wire, bytes) {
                Ok((value, rest)) => {
                    self.action = value;
                    Ok(rest)
                },
                Err(e) => Err(e),
            }
        } else if tag == 2 {
            match read_uint32(wire, bytes) {
                Ok((value, rest)) => {
                    self.vni = value;
                    Ok(rest)
                },
                Err(e) => Err(e),
            }
        } else if tag == 3 {
            match read_bytes(wire, bytes) {
                Ok((payload, rest)) => {
                    let mut inner: Destination = match self.destination.take() {
                        Some(inner) => inner,
                        None => Destination::empty(),
                    };
                    match merge_all(&mut inner, payload) {
                        Ok(_) => {
                            self.destination = Some(inner);
                            Ok(rest)
                        },
                        Err(e) => Err(e),
                    }
                },
                Err(e) => Err(e),
            }
        } else if tag == 4 {
            match read_bytes(wire, bytes) {
                Ok((payload, rest)) => {
                    let mut inner: NextHop = match self.next_hop.take() {
                        Some(inner) => inner,
                        None => NextHop::empty(),
                    };
                    match merge_all(&mut inner, payload) {
                        Ok(_) => {
                            self.next_hop = Some(inner);
                            Ok(rest)
                        },
                        Err(e) => Err(e),
                    }
                },
                Err(e) => Err(e),
            }
        } else {
            skip_unknown(wire, tag, bytes)
        }
    }
}

/// A vector with the bytes of a slice.
fn slice_to_vec(bytes: &[u8]) -> (v: Vec<u8>)
    ensures
        v@ == bytes@,
{
    let mut v: Vec<u8> = Vec::new();
    push_all(bytes, &mut v);
    assert(v@ =~= bytes@);
    v
}

/// Decoding an encoded `Hello` gives it back.
pub proof fn lemma_hello_roundtrip(value: Hello)
    ensures
        decoded::<Hello>(Hello::payload(value)) == Some(value),
{
    let r2 = Seq::<u8>::empty();
    let r1 = bool_field(2, value.is_server) + r2;
    assert(Hello::payload(value) =~= uint32_field(1, value.keepalive_interval) + r1);
    let b0 = Hello::cleared();
    let b1 = Hello { keepalive_interval: value.keepalive_interval, ..b0 };
    assert(merged::<Hello>(b0, uint32_field(1, value.keepalive_interval) + r1) == merged::<Hello>(b1, r1)) by {
        if value.keepalive_interval != 0 {
            lemma_uint32_roundtrip(value.keepalive_interval, r1);
            lemma_read_field::<Hello>(b0, 1, WireType::Varint, varint(value.keepalive_interval as nat), r1, b1);
        } else {
            assert(uint32_field(1, value.keepalive_interval) + r1 =~= r1);
        }
    }
    let b2 = Hello { is_server: value.is_server, ..b1 };
    assert(merged::<Hello>(b1, bool_field(2, value.is_server) + r2) == merged::<Hello>(b2, r2)) by {
        if value.is_server {
            lemma_bool_roundtrip(r2);
            lemma_read_field::<Hello>(b1, 2, WireType::Varint, varint(1), r2, b2);
        } else {
            assert(bool_field(2, value.is_server) + r2 =~= r2);
        }
    }
    assert(b2 == value);
}

/// Decoding an encoded `Subscription` gives it back.
pub proof fn lemma_subscription_roundtrip(value: Subscription)
    ensures
        decoded::<Subscription>(Subscription::payload(value)) == Some(value),
{
    let r1 = Seq::<u8>::empty();
    assert(Subscription::payload(value) =~= uint32_field(1, value.vni) + r1);
    let b0 = Subscription::cleared();
    let b1 = Subscription { vni: value.vni, ..b0 };
    assert(merged::<Subscription>(b0, uint32_field(1, value.vni) + r1) == merged::<Subscription>(b1, r1)) by {
        if value.vni != 0 {
            lemma_uint32_roundtrip(value.vni, r1);
            lemma_read_field::<Subscription>(b0, 1, WireType::Varint, varint(value.vni as nat), r1, b1);
        } else {
            assert(uint32_field(1, value.vni) + r1 =~= r1);
        }
    }
    assert(b1 == value);
}

/// Decoding an encoded `Destination` gives it back.
#[verifier::rlimit(40)]
pub proof fn lemma_destination_roundtrip(value: DestinationView)
    requires
        Destination::payload(value).len() <= u64::MAX,
    ensures
        decoded::<Destination>(Destination::payload(value)) == Some(value),
{
    let r3 = Seq::<u8>::empty();
    let r2 = uint32_field(3, value.prefix_length) + r3;
    let r1 = bytes_field(2, value.prefix) + r2;
    assert(Destination::payload(value) =~= int32_field(1, value.ip_version) + r1);
    let b0 = Destination::cleared();
    let b1 = DestinationView { ip_version: value.ip_version, ..b0 };
    assert(merged::<Destination>(b0, int32_field(1, value.ip_version) + r1) == merged::<Destination>(b1, r1)) by {
        if value.ip_version != 0 {
            lemma_int32_roundtrip(value.ip_version, r1);
            lemma_read_field::<Destination>(
                b0,
                1,
                WireType::Varint,
                varint(sign_extended(value.ip_version)),
                r1,
                b1,
            );
        } else {
            assert(int32_field(1, value.ip_version) + r1 =~= r1);
        }
    }
    let b2 = DestinationView { prefix: value.prefix, ..b1 };
    assert(merged::<Destination>(b1, bytes_field(2, value.prefix) + r2) == merged::<Destination>(b2, r2)) by {
        if value.prefix.len() != 0 {
            lemma_bytes_roundtrip(value.prefix, r2);
            lemma_read_field::<Destination>(
                b1,
                2,
                WireType::LengthDelimited,
                varint(value.prefix.len()) + value.prefix,
                r2,
                b2,
            );
        } else {
            assert(value.prefix =~= Seq::empty());
            assert(bytes_field(2, value.prefix) + r2 =~= r2);
        }
    }
    let b3 = DestinationView { prefix_length: value.prefix_length, ..b2 };
    assert(merged::<Destination>(b2, uint32_field(3, value.prefix_length) + r3) == merged::<Destination>(b3, r3)) by {
        if value.prefix_length != 0 {
            lemma_uint32_roundtrip(value.prefix_length, r3);
            lemma_read_field::<Destination>(b2, 3, WireType::Varint, varint(value.prefix_length as nat), r3, b3);
        } else {
            assert(uint32_field(3, value.prefix_length) + r3 =~= r3);
        }
    }
    assert(b3 == value);
}

/// Decoding an encoded `NextHop` gives it back.
#[verifier::rlimit(40)]
pub proof fn lemma_next_hop_roundtrip(value: NextHopView)
    requires
        NextHop::payload(value).len() <= u64::MAX,
    ensures
        decoded::<NextHop>(NextHop::payload(value)) == Some(value),
{
    let r5 = Seq::<u8>::empty();
    let r4 = uint32_field(5, value.nat_port_range_to) + r5;
    let r3 = uint32_field(4, value.nat_port_range_from) + r4;
    let r2 = int32_field(3, value.hop_type) + r3;
    let r1 = uint32_field(2, value.target_vni) + r2;
    assert(NextHop::payload(value) =~= bytes_field(1, value.target_address) + r1);
    let b0 = NextHop::cleared();
    let b1 = NextHopView { target_address: value.target_address, ..b0 };
    assert(merged::<NextHop>(b0, bytes_field(1, value.target_address) + r1) == merged::<NextHop>(b1, r1)) by {
        if value.target_address.len() != 0 {
            lemma_bytes_roundtrip(value.target_address, r1);
            lemma_read_field::<NextHop>(
                b0,
                1,
                WireType::LengthDelimited,
                varint(value.target_address.len()) + value.target_address,
                r1,
                b1,
            );
        } else {
            assert(value.target_address =~= Seq::empty());
            assert(bytes_field(1, value.target_address) + r1 =~= r1);
        }
    }
    let b2 = NextHopView { target_vni: value.target_vni, ..b1 };
    assert(merged::<NextHop>(b1, uint32_field(2, value.target_vni) + r2) == merged::<NextHop>(b2, r2)) by {
        if value.target_vni != 0 {
            lemma_uint32_roundtrip(value.target_vni, r2);
            lemma_read_field::<NextHop>(b1, 2, WireType::Varint, varint(value.target_vni as nat), r2, b2);
        } else {
            assert(uint32_field(2, value.target_vni) + r2 =~= r2);
        }
    }
    let b3 = NextHopView { hop_type: value.hop_type, ..b2 };
    assert(merged::<NextHop>(b2, int32_field(3, value.hop_type) + r3) == merged::<NextHop>(b3, r3)) by {
        if value.hop_type != 0 {
            lemma_int32_roundtrip(value.hop_type, r3);
            lemma_read_field::<NextHop>(
                b2,
                3,
                WireType::Varint,
                varint(sign_extended(value.hop_type)),
                r3,
                b3,
            );
        } else {
            assert(int32_field(3, value.hop_type) + r3 =~= r3);
        }
    }
    let b4 = NextHopView { nat_port_range_from: value.nat_port_range_from, ..b3 };
    assert(merged::<NextHop>(b3, uint32_field(4, value.nat_port_range_from) + r4) == merged::<NextHop>(b4, r4)) by {
        if value.nat_port_range_from != 0 {
            lemma_uint32_roundtrip(value.nat_port_range_from, r4);
            lemma_read_field::<NextHop>(b3, 4, WireType::Varint, varint(value.nat_port_range_from as nat), r4, b4);
        } else {
            assert(uint32_field(4, value.nat_port_range_from) + r4 =~= r4);
        }
    }
    let b5 = NextHopView { nat_port_range_to: value.nat_port_range_to, ..b4 };
    assert(merged::<NextHop>(b4, uint32_field(5, value.nat_port_range_to) + r5) == merged::<NextHop>(b5, r5)) by {
        if value.nat_port_range_to != 0 {
            lemma_uint32_roundtrip(value.nat_port_range_to, r5);
            lemma_read_field::<NextHop>(b4, 5, WireType::Varint, varint(value.nat_port_range_to as nat), r5, b5);
        } else {
            assert(uint32_field(5, value.nat_port_range_to) + r5 =~= r5);
        }
    }
    assert(b5 == value);
}

/// The bytes of the scalar fields are few.
pub(crate) proof fn lemma_field_lens(tag: u32, unsigned: u32, signed: i32, bytes: Seq<u8>)
    requires
        1 <= tag < TAG_LIMIT,
        bytes.len() <= u64::MAX,
    ensures
        uint32_field(tag, unsigned).len() <= 20,
        int32_field(tag, signed).len() <= 20,
        bytes_field(tag, bytes).len() <= bytes.len() + 20,
        message_field(tag, bytes).len() <= bytes.len() + 20,
        bool_field(tag, true).len() <= 20,
{
    lemma_varint_len(unsigned as nat);
    lemma_varint_len(sign_extended(signed));
    lemma_varint_len(bytes.len());
    lemma_varint_len(1);
    lemma_varint_len((tag * 8) as nat);
    lemma_varint_len((tag * 8 + 2) as nat);
}

/// Decoding an encoded `Update` gives it back.
#[verifier::rlimit(40)]
pub proof fn lemma_update_roundtrip(value: UpdateView)
    requires
        Update::payload(value).len() <= u64::MAX,
    ensures
        decoded::<Update>(Update::payload(value)) == Some(value),
{
    let r4 = Seq::<u8>::empty();
    let r3 = optional_field::<NextHop>(4, value.next_hop) + r4;
    let r2 = optional_field::<Destination>(3, value.destination) + r3;
    let r1 = uint32_field(2, value.vni) + r2;
    assert(Update::payload(value) =~= int32_field(1, value.action) + r1);
    let b0 = Update::cleared();
    let b1 = UpdateView { action: value.action, ..b0 };
    assert(merged::<Update>(b0, int32_field(1, value.action) + r1) == merged::<Update>(b1, r1)) by {
        if value.action != 0 {
            lemma_int32_roundtrip(value.action, r1);
            lemma_read_field::<Update>(
                b0,
                1,
                WireType::Varint,
                varint(sign_extended(value.action)),
                r1,
                b1,
            );
        } else {
            assert(int32_field(1, value.action) + r1 =~= r1);
        }
    }
    let b2 = UpdateView { vni: value.vni, ..b1 };
    assert(merged::<Update>(b1, uint32_field(2, value.vni) + r2) == merged::<Update>(b2, r2)) by {
        if value.vni != 0 {
            lemma_uint32_roundtrip(value.vni, r2);
            lemma_read_field::<Update>(b1, 2, WireType::Varint, varint(value.vni as nat), r2, b2);
        } else {
            assert(uint32_field(2, value.vni) + r2 =~= r2);
        }
    }
    let b3 = UpdateView { destination: value.destination, ..b2 };
    assert(merged::<Update>(b2, optional_field::<Destination>(3, value.destination) + r3) == merged::<Update>(
        b3,
        r3,
    )) by {
        match value.destination {
            Some(inner) => {
                lemma_destination_roundtrip(inner);
                let body = Destination::payload(inner);
                lemma_bytes_roundtrip(body, r3);
                lemma_read_field::<Update>(
                    b2,
                    3,
                    WireType::LengthDelimited,
                    varint(body.len()) + body,
                    r3,
                    b3,
                );
            },
            None => {
                assert(optional_field::<Destination>(3, value.destination) + r3 =~= r3);
            },
        }
    }
    let b4 = UpdateView { next_hop: value.next_hop, ..b3 };
    assert(merged::<Update>(b3, optional_field::<NextHop>(4, value.next_hop) + r4) == merged::<Update>(
        b4,
        r4,
    )) by {
        match value.next_hop {
            Some(inner) => {
                lemma_next_hop_roundtrip(inner);
                let body = NextHop::payload(inner);
                lemma_bytes_roundtrip(body, r4);
                lemma_read_field::<Update>(
                    b3,
                    4,
                    WireType::LengthDelimited,
                    varint(body.len()) + body,
                    r4,
                    b4,
                );
            },
            None => {
                assert(optional_field::<NextHop>(4, value.next_hop) + r4 =~= r4);
            },
        }
    }
    assert(b4 == value);
}

} // verus!
