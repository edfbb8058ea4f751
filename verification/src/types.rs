//! The values that the parts of the system exchange.

use crate::net::{address_text, IpAddr, IpNet, SocketAddr};
use crate::pb;
use crate::pb::NextHopType;
use crate::text::{decimal, push_decimal};
use std::cmp::Ordering;
use vstd::prelude::*;

verus! {

/// The identifier of a virtual network.
pub type Vni = u32;

/// An address family.
#[derive(Debug, Clone, Copy, PartialEq, Eq, Structural)]
pub enum IpVersion {
    V4,
    V6,
}

impl From<pb::IpVersion> for IpVersion {
    fn from(value: pb::IpVersion) -> (r: Self) {
        match value {
            pb::IpVersion::IPv4 => IpVersion::V4,
            pb::IpVersion::IPv6 => IpVersion::V6,
        }
    }
}

impl vstd::std_specs::convert::FromSpecImpl<pb::IpVersion> for IpVersion {
    open spec fn obeys_from_spec() -> bool {
        true
    }

    open spec fn from_spec(value: pb::IpVersion) -> Self {
        match value {
            pb::IpVersion::IPv4 => IpVersion::V4,
            pb::IpVersion::IPv6 => IpVersion::V6,
        }
    }
}

impl From<IpVersion> for pb::IpVersion {
    fn from(value: IpVersion) -> (r: Self) {
        match value {
            IpVersion::V4 => pb::IpVersion::IPv4,
            IpVersion::V6 => pb::IpVersion::IPv6,
        }
    }
}

impl vstd::std_specs::convert::FromSpecImpl<IpVersion> for pb::IpVersion {
    open spec fn obeys_from_spec() -> bool {
        true
    }

    open spec fn from_spec(value: IpVersion) -> Self {
        match value {
            IpVersion::V4 => pb::IpVersion::IPv4,
            IpVersion::V6 => pb::IpVersion::IPv6,
        }
    }
}

/// The network that a route leads to.
#[derive(Debug, Clone, Copy, PartialEq, Eq, Ord, Hash, Structural)]
pub struct Destination {
    pub prefix: IpNet,
}

/// The text is not a destination.
#[derive(Debug, Clone, Copy, PartialEq, Eq, Structural)]
pub struct InvalidDestination {}

impl Destination {
    /// The address family of the prefix.
    pub open spec fn spec_ip_version(&self) -> IpVersion {
        match self.prefix.addr() {
            IpAddr::V4(_) => IpVersion::V4,
            IpAddr::V6(_) => IpVersion::V6,
        }
    }

    /// The address family of the prefix.
    #[verifier::when_used_as_spec(spec_ip_version)]
    pub fn ip_version(&self) -> (version: IpVersion)
        ensures
            version == self.spec_ip_version(),
    {
        match self.prefix.addr() {
            IpAddr::V4(_) => IpVersion::V4,
            IpAddr::V6(_) => IpVersion::V6,
        }
    }

    /// The prefix in CIDR notation, which is read as the same destination again.
    pub fn to_string(&self) -> (text: String)
        ensures
            text@ == self.prefix.text(),
            Destination::parsed(text@) == Some(*self),
    {
        self.prefix.to_string()
    }

    /// The destination that a text in CIDR notation is, if it is one.
    pub open spec fn parsed(text: Seq<char>) -> Option<Destination> {
        match crate::net::parsed_prefix(text) {
            Some((addr, len)) => Some(Destination { prefix: IpNet::of(addr, len) }),
            None => None,
        }
    }

    /// Reads a destination in CIDR notation.
    pub fn from_str(s: &str) -> (r: Result<Destination, InvalidDestination>)
        ensures
            match Destination::parsed(s@) {
                Some(dest) => r == Ok::<Destination, InvalidDestination>(dest),
                None => r is Err,
            },
    {
        match IpNet::from_str(s) {
            Ok(prefix) => Ok(Destination { prefix }),
            Err(_) => Err(InvalidDestination {  }),
        }
    }

    /// Destinations are ordered by address, then by prefix length.
    pub open spec fn before(self, other: Destination) -> bool {
        if self.prefix.addr() == other.prefix.addr() {
            self.prefix.prefix_len() < other.prefix.prefix_len()
        } else {
            address_before(self.prefix.addr(), other.prefix.addr())
        }
    }

    /// Whether the destination comes first in the order of destinations.
    pub fn is_before(&self, other: &Destination) -> (r: bool)
        ensures
            r == self.before(*other),
    {
        let a = self.prefix.addr();
        let b = other.prefix.addr();
        if a == b {
            self.prefix.prefix_len() < other.prefix.prefix_len()
        } else {
            is_address_before(a, b)
        }
    }
}

/// Addresses are ordered by family, IPv4 first, then by number.
pub open spec fn address_before(a: IpAddr, b: IpAddr) -> bool {
    match (a, b) {
        (IpAddr::V4(x), IpAddr::V4(y)) => x < y,
        (IpAddr::V4(_), IpAddr::V6(_)) => true,
        (IpAddr::V6(_), IpAddr::V4(_)) => false,
        (IpAddr::V6(x), IpAddr::V6(y)) => x < y,
    }
}

fn is_address_before(a: IpAddr, b: IpAddr) -> (r: bool)
    ensures
        r == address_before(a, b),
{
    match (a, b) {
        (IpAddr::V4(x), IpAddr::V4(y)) => x < y,
        (IpAddr::V4(_), IpAddr::V6(_)) => true,
        (IpAddr::V6(_), IpAddr::V4(_)) => false,
        (IpAddr::V6(x), IpAddr::V6(y)) => x < y,
    }
}

impl PartialOrd for Destination {
    fn partial_cmp(&self, other: &Self) -> (r: Option<Ordering>) {
        if self.is_before(other) {
            Some(Ordering::Less)
        } else if other.is_before(self) {
            Some(Ordering::Greater)
        } else {
            Some(Ordering::Equal)
        }
    }
}

impl vstd::std_specs::cmp::PartialOrdSpecImpl for Destination {
    open spec fn obeys_partial_cmp_spec() -> bool {
        true
    }

    open spec fn partial_cmp_spec(&self, other: &Self) -> Option<Ordering> {
        if self.before(*other) {
            Some(Ordering::Less)
        } else if other.before(*self) {
            Some(Ordering::Greater)
        } else {
            Some(Ordering::Equal)
        }
    }
}

/// The order of destinations is a strict total order.
pub proof fn lemma_destination_order(a: Destination, b: Destination, c: Destination)
    ensures
        !a.before(a),
        a.before(b) ==> !b.before(a),
        a.before(b) && b.before(c) ==> a.before(c),
        a != b ==> a.before(b) || b.before(a),
{
    crate::net::lemma_prefix_parts(a.prefix, a.prefix.addr(), a.prefix.prefix_len());
    crate::net::lemma_prefix_parts(b.prefix, a.prefix.addr(), a.prefix.prefix_len());
}

/// Where the traffic for a destination goes.
#[derive(Debug, Clone, Copy, PartialEq, Eq, Ord, Hash, Structural)]
pub struct NextHop {
    pub target_address: IpAddr,
    pub target_vni: u32,
    pub hop_type: NextHopType,
    pub nat_port_range_from: u16,
    pub nat_port_range_to: u16,
}

impl NextHop {
    /// The text of a next hop: its address, and its virtual network unless that
    /// is zero.
    pub open spec fn text(self) -> Seq<char> {
        if self.target_vni != 0 {
            address_text(self.target_address) + " (VNI: "@ + decimal(self.target_vni as nat) + ")"@
        } else {
            address_text(self.target_address)
        }
    }

    /// The address, and the virtual network unless that is zero.
    pub fn to_string(&self) -> (text: String)
        ensures
            text@ == self.text(),
    {
        let mut text = self.target_address.to_string();
        if self.target_vni != 0 {
            text.append(" (VNI: ");
            push_decimal(self.target_vni as u64, &mut text);
            text.append(")");
        }
        text
    }

    /// Next hops are ordered by address, virtual network, type, and the ends of
    /// the port range, in this order.
    pub open spec fn before(self, other: NextHop) -> bool {
        if self.target_address != other.target_address {
            address_before(self.target_address, other.target_address)
        } else if self.target_vni != other.target_vni {
            self.target_vni < other.target_vni
        } else if self.hop_type != other.hop_type {
            self.hop_type.number() < other.hop_type.number()
        } else if self.nat_port_range_from != other.nat_port_range_from {
            self.nat_port_range_from < other.nat_port_range_from
        } else {
            self.nat_port_range_to < other.nat_port_range_to
        }
    }

    /// Whether the next hop comes first in the order of next hops.
    pub fn is_before(&self, other: &NextHop) -> (r: bool)
        ensures
            r == self.before(*other),
    {
        if self.target_address != other.target_address {
            is_address_before(self.target_address, other.target_address)
        } else if self.target_vni != other.target_vni {
            self.target_vni < other.target_vni
        } else if self.hop_type != other.hop_type {
            self.hop_type.number() < other.hop_type.number()
        } else if self.nat_port_range_from != other.nat_port_range_from {
            self.nat_port_range_from < other.nat_port_range_from
        } else {
            self.nat_port_range_to < other.nat_port_range_to
        }
    }
}

impl PartialOrd for NextHop {
    fn partial_cmp(&self, other: &Self) -> (r: Option<Ordering>) {
        if self.is_before(other) {
            Some(Ordering::Less)
        } else if other.is_before(self) {
            Some(Ordering::Greater)
        } else {
            Some(Ordering::Equal)
        }
    }
}

impl vstd::std_specs::cmp::PartialOrdSpecImpl for NextHop {
    open spec fn obeys_partial_cmp_spec() -> bool {
        true
    }

    open spec fn partial_cmp_spec(&self, other: &Self) -> Option<Ordering> {
        if self.before(*other) {
            Some(Ordering::Less)
        } else if other.before(*self) {
            Some(Ordering::Greater)
        } else {
            Some(Ordering::Equal)
        }
    }
}

/// The order of next hops is a strict total order.
pub proof fn lemma_next_hop_order(a: NextHop, b: NextHop, c: NextHop)
    ensures
        !a.before(a),
        a.before(b) ==> !b.before(a),
        a.before(b) && b.before(c) ==> a.before(c),
        a != b ==> a.before(b) || b.before(a),
{
}

/// Which side opened a connection.
#[derive(Debug, Clone, Copy, PartialEq, Eq, Structural)]
pub enum ConnectionDirection {
    Incoming,
    Outgoing,
}

/// The state of the connection to a peer.
#[derive(Debug, Clone, Copy, PartialEq, Eq, Structural)]
pub enum ConnectionState {
    /// The connection is being opened.
    Connecting,
    /// A `Hello` was sent and none has come.
    HelloSent,
    /// A `Hello` has come and none was sent.
    HelloReceived,
    /// Both sides have sent a `Hello`.
    Established,
    /// The connection was lost and will be tried again.
    Retry,
    /// The connection is over.
    Closed,
}

impl ConnectionState {
    /// The name of the state.
    pub open spec fn name(self) -> Seq<char> {
        match self {
            ConnectionState::Connecting => "CONNECTING"@,
            ConnectionState::HelloSent => "HELLO_SENT"@,
            ConnectionState::HelloReceived => "HELLO_RECEIVED"@,
            ConnectionState::Established => "ESTABLISHED"@,
            ConnectionState::Retry => "RETRY"@,
            ConnectionState::Closed => "CLOSED"@,
        }
    }

    /// The name of the state.
    pub fn to_string(&self) -> (text: String)
        ensures
            text@ == self.name(),
    {
        match self {
            ConnectionState::Connecting => "CONNECTING".to_owned(),
            ConnectionState::HelloSent => "HELLO_SENT".to_owned(),
            ConnectionState::HelloReceived => "HELLO_RECEIVED".to_owned(),
            ConnectionState::Established => "ESTABLISHED".to_owned(),
            ConnectionState::Retry => "RETRY".to_owned(),
            ConnectionState::Closed => "CLOSED".to_owned(),
        }
    }
}

/// The kinds of messages.
#[derive(Debug, Clone, Copy, PartialEq, Eq, Structural)]
pub enum MessageType {
    Hello,
    Keepalive,
    Subscribe,
    Unsubscribe,
    Update,
}

/// A byte that stands for no kind of message.
#[derive(Debug, Clone, Copy, PartialEq, Eq, Structural)]
pub struct InvalidMessageType(pub u8);

impl MessageType {
    pub open spec fn spec_code(&self) -> u8 {
        match self {
            MessageType::Hello => 1,
            MessageType::Keepalive => 2,
            MessageType::Subscribe => 3,
            MessageType::Unsubscribe => 4,
            MessageType::Update => 5,
        }
    }

    /// The byte that stands for the kind of message in a frame.
    #[verifier::when_used_as_spec(spec_code)]
    pub fn code(&self) -> (code: u8)
        ensures
            code == self.spec_code(),
    {
        match self {
            MessageType::Hello => 1,
            MessageType::Keepalive => 2,
            MessageType::Subscribe => 3,
            MessageType::Unsubscribe => 4,
            MessageType::Update => 5,
        }
    }

    /// The kind of message that a byte stands for.
    pub open spec fn of_code(code: u8) -> Result<MessageType, InvalidMessageType> {
        if code == 1 {
            Ok(MessageType::Hello)
        } else if code == 2 {
            Ok(MessageType::Keepalive)
        } else if code == 3 {
            Ok(MessageType::Subscribe)
        } else if code == 4 {
            Ok(MessageType::Unsubscribe)
        } else if code == 5 {
            Ok(MessageType::Update)
        } else {
            Err(InvalidMessageType(code))
        }
    }
}

impl TryFrom<u8> for MessageType {
    type Error = InvalidMessageType;

    fn try_from(value: u8) -> (r: Result<Self, InvalidMessageType>) {
        match value {
            1 => Ok(MessageType::Hello),
            2 => Ok(MessageType::Keepalive),
            3 => Ok(MessageType::Subscribe),
            4 => Ok(MessageType::Unsubscribe),
            5 => Ok(MessageType::Update),
            _ => Err(InvalidMessageType(value)),
        }
    }
}

impl vstd::std_specs::convert::TryFromSpecImpl<u8> for MessageType {
    open spec fn obeys_try_from_spec() -> bool {
        true
    }

    open spec fn try_from_spec(value: u8) -> Result<Self, InvalidMessageType> {
        MessageType::of_code(value)
    }
}

/// The byte of a kind of message stands for that kind and no other.
pub proof fn lemma_message_type_codes(kind: MessageType, code: u8)
    ensures
        MessageType::of_code(kind.code()) == Ok::<MessageType, InvalidMessageType>(kind),
        MessageType::of_code(code) matches Ok(k) ==> k.code() == code,
        MessageType::of_code(code) is Ok <==> 1 <= code <= 5,
{
}

/// Whether a route is added or removed.
#[derive(Debug, Clone, Copy, PartialEq, Eq, Structural)]
pub enum UpdateAction {
    Add,
    Remove,
}

impl From<pb::Action> for UpdateAction {
    fn from(action: pb::Action) -> (r: Self) {
        match action {
            pb::Action::Add => UpdateAction::Add,
            pb::Action::Remove => UpdateAction::Remove,
        }
    }
}

impl vstd::std_specs::convert::FromSpecImpl<pb::Action> for UpdateAction {
    open spec fn obeys_from_spec() -> bool {
        true
    }

    open spec fn from_spec(action: pb::Action) -> Self {
        match action {
            pb::Action::Add => UpdateAction::Add,
            pb::Action::Remove => UpdateAction::Remove,
        }
    }
}

impl From<UpdateAction> for pb::Action {
    fn from(action: UpdateAction) -> (r: Self) {
        match action {
            UpdateAction::Add => pb::Action::Add,
            UpdateAction::Remove => pb::Action::Remove,
        }
    }
}

impl vstd::std_specs::convert::FromSpecImpl<UpdateAction> for pb::Action {
    open spec fn obeys_from_spec() -> bool {
        true
    }

    open spec fn from_spec(action: UpdateAction) -> Self {
        match action {
            UpdateAction::Add => pb::Action::Add,
            UpdateAction::Remove => pb::Action::Remove,
        }
    }
}

/// A span of time.
#[derive(Debug, Clone, Copy, PartialEq, Eq, Structural)]
pub struct Duration {
    pub secs: u64,
    pub nanos: u32,
}

impl Duration {
    /// A number of whole seconds.
    pub fn from_secs(secs: u64) -> (d: Duration)
        ensures
            d == (Duration { secs, nanos: 0 }),
    {
        Duration { secs, nanos: 0 }
    }

    /// A number of milliseconds.
    pub fn from_millis(millis: u64) -> (d: Duration)
        ensures
            d.secs == millis / 1000,
            d.nanos == millis % 1000 * 1_000_000,
    {
        let rest: u64 = millis % 1000;
        Duration { secs: millis / 1000, nanos: rest as u32 * 1_000_000 }
    }

    /// The nanoseconds in the span.
    pub open spec fn total(self) -> nat {
        self.secs as nat * 1_000_000_000 + self.nanos as nat
    }

    /// Whether all the whole seconds are counted as seconds.
    pub open spec fn normal(self) -> bool {
        self.nanos < 1_000_000_000
    }

    pub open spec fn spec_as_secs(&self) -> u64 {
        self.secs
    }

    /// The whole seconds in the span.
    #[verifier::when_used_as_spec(spec_as_secs)]
    pub fn as_secs(&self) -> (secs: u64)
        ensures
            secs == self.spec_as_secs(),
    {
        self.secs
    }
}

/// How a node keeps its connections.
#[derive(Debug, Clone, Copy, PartialEq, Eq, Structural)]
pub struct Config {
    /// How often a keepalive is sent.
    pub keepalive_interval: Duration,
    /// The shortest time before a lost connection is tried again.
    pub retry_interval_min: Duration,
    /// The longest time before a lost connection is tried again.
    pub retry_interval_max: Duration,
}

impl Default for Config {
    fn default() -> (config: Self)
        ensures
            config.keepalive_interval == (Duration { secs: 5, nanos: 0 }),
            config.retry_interval_min == (Duration { secs: 5, nanos: 0 }),
            config.retry_interval_max == (Duration { secs: 10, nanos: 0 }),
    {
        Config {
            keepalive_interval: Duration::from_secs(5),
            retry_interval_min: Duration::from_secs(5),
            retry_interval_max: Duration::from_secs(10),
        }
    }
}

/// A time that doubles with every attempt, up to the greatest one.
pub open spec fn backoff(least: nat, greatest: nat, attempt: nat) -> nat
    decreases attempt,
{
    if attempt == 0 {
        least
    } else {
        let doubled = 2 * backoff(least, greatest, (attempt - 1) as nat);
        if doubled < greatest {
            doubled
        } else {
            greatest
        }
    }
}

impl Config {
    /// Whether `delay` is the time to wait before the connection is tried again that
    /// was tried `attempt` times in vain. It doubles from the shortest time to the
    /// longest. Where the longest is below the shortest, it is the shortest.
    pub open spec fn is_retry_delay(self, attempt: u32, delay: Duration) -> bool {
        let least = self.retry_interval_min;
        let greatest = self.retry_interval_max;
        if greatest.total() < least.total() {
            delay == least
        } else {
            &&& least.total() <= delay.total() <= greatest.total()
            &&& least.normal() && greatest.normal() ==> delay.normal() && delay.total() == backoff(
                least.total(),
                greatest.total(),
                attempt as nat,
            )
        }
    }
}

/// A time that no longer grows stays as it is.
proof fn lemma_backoff_settled(least: nat, greatest: nat, from: nat, to: nat)
    requires
        from <= to,
        least <= greatest,
        backoff(least, greatest, from) == greatest || backoff(least, greatest, from) == 0,
    ensures
        backoff(least, greatest, to) == backoff(least, greatest, from),
    decreases to - from,
{
    if from < to {
        lemma_backoff_settled(least, greatest, from, (to - 1) as nat);
    }
}

/// The time to wait before the connection is tried again that was tried `attempt`
/// times in vain.
pub fn retry_delay(config: Config, attempt: u32) -> (delay: Duration)
    ensures
        config.is_retry_delay(attempt, delay),
{
    let least: u128 = config.retry_interval_min.secs as u128 * 1_000_000_000
        + config.retry_interval_min.nanos as u128;
    let greatest: u128 = config.retry_interval_max.secs as u128 * 1_000_000_000
        + config.retry_interval_max.nanos as u128;
    if greatest <= least || attempt == 0 {
        proof {
            if greatest == least {
                lemma_backoff_settled(least as nat, greatest as nat, 0, attempt as nat);
            }
        }
        return config.retry_interval_min;
    }
    let mut time: u128 = least;
    let mut i: u32 = 0;
    while i < attempt && time > 0 && time < greatest
        invariant
            i <= attempt,
            least <= time <= greatest,
            least < greatest,
            greatest < 0x1_0000_0000_0000_0000_0000_0000_0000,
            time == backoff(least as nat, greatest as nat, i as nat),
        decreases attempt - i,
    {
        time = if time * 2 < greatest {
            time * 2
        } else {
            greatest
        };
        i = i + 1;
    }
    proof {
        if i < attempt {
            lemma_backoff_settled(least as nat, greatest as nat, i as nat, attempt as nat);
        }
    }
    if time == greatest || time / 1_000_000_000 > u64::MAX as u128 {
        return config.retry_interval_max;
    }
    Duration { secs: (time / 1_000_000_000) as u64, nanos: (time % 1_000_000_000) as u32 }
}

/// A route that was added or removed, on its way through the node.
#[derive(Debug, Clone, Copy, PartialEq, Eq, Structural)]
pub struct InternalUpdate {
    pub action: UpdateAction,
    pub vni: Vni,
    pub destination: Destination,
    pub next_hop: NextHop,
    /// The peer that it came from; `None` for the node itself.
    pub source_peer: Option<SocketAddr>,
}

} // verus!
