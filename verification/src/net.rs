//! Addresses, prefixes and socket addresses.

use crate::text::decimal;
use vstd::prelude::*;

verus! {

/// An IP address, as the number that its octets are in network byte order.
#[derive(Debug, Clone, Copy, PartialEq, Eq, PartialOrd, Ord, Hash, Structural)]
pub enum IpAddr {
    V4(u32),
    V6(u128),
}

/// The address that an endpoint of a connection has.
#[derive(Debug, Clone, Copy, PartialEq, Eq, PartialOrd, Ord, Hash, Structural)]
pub struct SocketAddr {
    pub ip: IpAddr,
    pub port: u16,
    /// Zero for IPv4.
    pub flowinfo: u32,
    /// Zero for IPv4.
    pub scope_id: u32,
}

impl SocketAddr {
    /// The endpoint at a port of an address.
    pub fn new(ip: IpAddr, port: u16) -> (addr: SocketAddr)
        ensures
            addr == (SocketAddr { ip, port, flowinfo: 0, scope_id: 0 }),
    {
        SocketAddr { ip, port, flowinfo: 0, scope_id: 0 }
    }
}

/// The last `count` bytes of a number, the most significant first.
pub open spec fn be_bytes(value: nat, count: nat) -> Seq<u8>
    decreases count,
{
    if count == 0 {
        Seq::empty()
    } else {
        be_bytes(value / 256, (count - 1) as nat).push((value % 256) as u8)
    }
}

/// The number that bytes are, the most significant first.
pub open spec fn be_value(bytes: Seq<u8>) -> nat
    decreases bytes.len(),
{
    if bytes.len() == 0 {
        0
    } else {
        be_value(bytes.drop_last()) * 256 + bytes.last() as nat
    }
}

/// The numbers of so many bytes.
pub open spec fn byte_range(count: nat) -> nat
    decreases count,
{
    if count == 0 {
        1
    } else {
        256 * byte_range((count - 1) as nat)
    }
}

proof fn lemma_be_value(value: nat, count: nat)
    requires
        value < byte_range(count),
    ensures
        be_bytes(value, count).len() == count,
        be_value(be_bytes(value, count)) == value,
    decreases count,
{
    if count > 0 {
        lemma_be_value(value / 256, (count - 1) as nat);
        let bytes = be_bytes(value, count);
        assert(bytes.drop_last() =~= be_bytes(value / 256, (count - 1) as nat));
    }
}

proof fn lemma_be_bytes(bytes: Seq<u8>)
    ensures
        be_value(bytes) < byte_range(bytes.len()),
        be_bytes(be_value(bytes), bytes.len()) == bytes,
    decreases bytes.len(),
{
    if bytes.len() > 0 {
        lemma_be_bytes(bytes.drop_last());
        let high = be_value(bytes.drop_last());
        let low = bytes.last() as nat;
        assert((high * 256 + low) / 256 == high);
        assert((high * 256 + low) % 256 == low);
        assert(be_bytes(be_value(bytes), bytes.len()) =~= bytes);
    } else {
        assert(be_bytes(be_value(bytes), bytes.len()) =~= bytes);
    }
}

proof fn lemma_byte_ranges()
    ensures
        byte_range(4) == 0x1_0000_0000,
        byte_range(16) == 0x1_0000_0000 * 0x1_0000_0000 * 0x1_0000_0000 * 0x1_0000_0000,
        0x1_0000_0000 * 0x1_0000_0000 * 0x1_0000_0000 * 0x1_0000_0000 == u128::MAX + 1,
{
    reveal_with_fuel(byte_range, 17);
}

fn push_be_bytes(value: u128, count: usize, out: &mut Vec<u8>)
    ensures
        final(out)@ == old(out)@ + be_bytes(value as nat, count as nat),
    decreases count,
{
    if count > 0 {
        push_be_bytes(value / 256, count - 1, out);
        out.push((value % 256) as u8);
    }
    assert(out@ =~= old(out)@ + be_bytes(value as nat, count as nat));
}

/// The bytes are not those of an address: there are neither four nor sixteen.
#[derive(Debug, Clone, Copy, PartialEq, Eq, Structural)]
pub struct InvalidAddressLength(pub usize);

impl IpAddr {
    /// The bits of an address of this family.
    pub open spec fn width(self) -> nat {
        match self {
            IpAddr::V4(_) => 32,
            IpAddr::V6(_) => 128,
        }
    }

    /// The octets of the address.
    pub open spec fn octets(self) -> Seq<u8> {
        match self {
            IpAddr::V4(value) => be_bytes(value as nat, 4),
            IpAddr::V6(value) => be_bytes(value as nat, 16),
        }
    }

    /// The octets of the address.
    pub fn addr_bytes_vec(&self) -> (bytes: Vec<u8>)
        ensures
            bytes@ == self.octets(),
    {
        let mut out: Vec<u8> = Vec::new();
        match *self {
            IpAddr::V4(value) => push_be_bytes(value as u128, 4, &mut out),
            IpAddr::V6(value) => push_be_bytes(value, 16, &mut out),
        }
        assert(out@ =~= self.octets());
        out
    }

    /// The address with the given octets: four for IPv4, sixteen for IPv6.
    pub open spec fn of_octets(bytes: Seq<u8>) -> Option<IpAddr> {
        if bytes.len() == 4 {
            Some(IpAddr::V4(be_value(bytes) as u32))
        } else if bytes.len() == 16 {
            Some(IpAddr::V6(be_value(bytes) as u128))
        } else {
            None
        }
    }

    /// The address with the given octets: four for IPv4, sixteen for IPv6.
    pub fn from_slice(slice: &[u8]) -> (r: Result<IpAddr, InvalidAddressLength>)
        ensures
            match IpAddr::of_octets(slice@) {
                Some(addr) => r == Ok::<IpAddr, InvalidAddressLength>(addr),
                None => r == Err::<IpAddr, InvalidAddressLength>(
                    InvalidAddressLength(slice@.len() as usize),
                ),
            },
    {
        let len = slice.len();
        if len != 4 && len != 16 {
            return Err(InvalidAddressLength(len));
        }
        let mut value: u128 = 0;
        proof {
            lemma_byte_ranges();
        }
        assert(slice@.take(0).len() == 0);
        for i in 0..len
            invariant
                len == slice@.len(),
                len == 4 || len == 16,
                byte_range(16) == u128::MAX + 1,
                value == be_value(slice@.take(i as int)),
        {
            proof {
                let next = slice@.take(i + 1);
                assert(next.drop_last() =~= slice@.take(i as int));
                lemma_be_bytes(next);
                lemma_byte_range_grows((i + 1) as nat, 16);
            }
            value = value * 256 + slice[i] as u128;
        }
        assert(slice@.take(len as int) =~= slice@);
        proof {
            lemma_be_bytes(slice@);
        }
        if len == 4 {
            Ok(IpAddr::V4(value as u32))
        } else {
            Ok(IpAddr::V6(value))
        }
    }
}

proof fn lemma_byte_range_grows(a: nat, b: nat)
    requires
        a <= b,
    ensures
        byte_range(a) <= byte_range(b),
    decreases b,
{
    if a < b {
        lemma_byte_range_grows(a, (b - 1) as nat);
    }
}

/// An address has four octets or sixteen.
pub(crate) proof fn lemma_octets_len(addr: IpAddr)
    ensures
        addr.octets().len() == addr.width() / 8,
{
    reveal_with_fuel(be_bytes, 17);
}

/// Reading the octets of an address gives the address back.
pub proof fn lemma_octets_roundtrip(addr: IpAddr)
    ensures
        IpAddr::of_octets(addr.octets()) == Some(addr),
{
    lemma_byte_ranges();
    match addr {
        IpAddr::V4(value) => lemma_be_value(value as nat, 4),
        IpAddr::V6(value) => lemma_be_value(value as nat, 16),
    }
}

/// The octets of the address that octets were read as are those octets.
pub proof fn lemma_of_octets_roundtrip(bytes: Seq<u8>)
    ensures
        IpAddr::of_octets(bytes) matches Some(addr) ==> addr.octets() == bytes,
{
    lemma_byte_ranges();
    lemma_be_bytes(bytes);
}

/// The text of an address: dotted decimal for IPv4, hexadecimal groups for IPv6.
pub uninterp spec fn address_text(addr: IpAddr) -> Seq<char>;

/// The four octets of an IPv4 address in decimal, divided by dots.
pub open spec fn dotted(value: nat) -> Seq<char> {
    decimal(value / 0x100_0000) + seq!['.'] + decimal(value / 0x1_0000 % 256) + seq!['.']
        + decimal(value / 256 % 256) + seq!['.'] + decimal(value % 256)
}

/// Calls `to_string` on the standard library's address, which it takes from the
/// `addr` method of a prefix of the `ipnet` crate. The text depends on the
/// address alone; that of an IPv4 address is its octets in decimal.
#[verifier::external_body]
fn format_address(addr: IpAddr) -> (text: String)
    ensures
        text@ == address_text(addr),
        addr matches IpAddr::V4(value) ==> text@ == dotted(value as nat),
{
    match addr {
        IpAddr::V4(value) => ipnet::Ipv4Net::new_assert(value.into(), 32).addr().to_string(),
        IpAddr::V6(value) => ipnet::Ipv6Net::new_assert(value.into(), 128).addr().to_string(),
    }
}

/// The address that a text is, if it is one.
pub uninterp spec fn parsed_address(text: Seq<char>) -> Option<IpAddr>;

/// Calls `str::parse` for the standard library's `IpAddr`, which the `ipnet`
/// crate's `IpNet::new` takes. Whether the text is an address, and which one,
/// depends on the text alone.
#[verifier::external_body]
fn parse_address(text: &str) -> (addr: Option<IpAddr>)
    ensures
        addr == parsed_address(text@),
{
    let host = ipnet::IpNet::new(text.parse().ok()?, 0).ok()?;
    match host {
        ipnet::IpNet::V4(net) => Some(IpAddr::V4(net.addr().into())),
        ipnet::IpNet::V6(net) => Some(IpAddr::V6(net.addr().into())),
    }
}

/// The address and the prefix length that a text in CIDR notation gives, if it
/// is one.
pub uninterp spec fn parsed_prefix(text: Seq<char>) -> Option<(IpAddr, u8)>;

/// Calls `str::parse` for the `ipnet` crate's `IpNet`. Whether the text is a
/// prefix, and which one, depends on the text alone; the prefix length is never
/// more than the bits of the address.
#[verifier::external_body]
fn parse_prefix(text: &str) -> (prefix: Option<(IpAddr, u8)>)
    ensures
        prefix == parsed_prefix(text@),
        prefix matches Some((addr, len)) ==> len <= addr.width(),
{
    match text.parse::<ipnet::IpNet>().ok()? {
        ipnet::IpNet::V4(net) => Some((IpAddr::V4(net.addr().into()), net.prefix_len())),
        ipnet::IpNet::V6(net) => Some((IpAddr::V6(net.addr().into()), net.prefix_len())),
    }
}

/// Calls `to_string` on the `ipnet` crate's `Ipv4Net` or `Ipv6Net`: the address,
/// a slash and the prefix length in decimal. The crate parses what it prints as
/// the same prefix. It takes no prefix length above the bits of the address.
#[verifier::external_body]
fn format_prefix(addr: IpAddr, len: u8) -> (text: String)
    requires
        len <= addr.width(),
    ensures
        text@ == address_text(addr) + seq!['/'] + decimal(len as nat),
        parsed_prefix(text@) == Some((addr, len)),
{
    match addr {
        IpAddr::V4(value) => ipnet::Ipv4Net::new_assert(value.into(), len).to_string(),
        IpAddr::V6(value) => ipnet::Ipv6Net::new_assert(value.into(), len).to_string(),
    }
}

/// The text is not an IP address.
#[derive(Debug, Clone, Copy, PartialEq, Eq, Structural)]
pub struct InvalidAddress {}

impl IpAddr {
    /// Reads an address.
    pub fn from_str(s: &str) -> (r: Result<IpAddr, InvalidAddress>)
        ensures
            match parsed_address(s@) {
                Some(addr) => r == Ok::<IpAddr, InvalidAddress>(addr),
                None => r is Err,
            },
    {
        match parse_address(s) {
            Some(addr) => Ok(addr),
            None => Err(InvalidAddress {  }),
        }
    }

    /// The address as text.
    pub fn to_string(&self) -> (text: String)
        ensures
            text@ == address_text(*self),
            *self matches IpAddr::V4(value) ==> text@ == dotted(value as nat),
    {
        format_address(*self)
    }
}

/// The prefix length is more than the bits of the address.
#[derive(Debug, Clone, Copy, PartialEq, Eq, Structural)]
pub struct PrefixLenError {}

/// The text is not a prefix in CIDR notation.
#[derive(Debug, Clone, Copy, PartialEq, Eq, Structural)]
pub struct InvalidPrefix {}

/// A prefix: an address and how many of its leading bits count. The others need
/// not be zero.
#[derive(Debug, Clone, Copy, PartialEq, Eq, PartialOrd, Ord, Hash, Structural)]
pub struct IpNet {
    pub(crate) addr: IpAddr,
    pub(crate) prefix_len: u8,
}

/// Two to the given power.
pub open spec fn power_of_two(exponent: nat) -> nat
    decreases exponent,
{
    if exponent == 0 {
        1
    } else {
        2 * power_of_two((exponent - 1) as nat)
    }
}

impl IpNet {
    /// The prefix with this address and length.
    pub open(crate) spec fn of(addr: IpAddr, prefix_len: u8) -> IpNet {
        IpNet { addr, prefix_len }
    }

    /// The address.
    pub open(crate) spec fn spec_addr(&self) -> IpAddr {
        self.addr
    }

    /// The number of leading bits that count.
    pub open(crate) spec fn spec_prefix_len(&self) -> u8 {
        self.prefix_len
    }

    /// No more bits count than the address has.
    #[verifier::type_invariant]
    pub open spec fn wf(&self) -> bool {
        self.spec_prefix_len() <= self.spec_addr().width()
    }

    /// The prefix of the first `prefix_len` bits of an address.
    pub fn new(addr: IpAddr, prefix_len: u8) -> (r: Result<IpNet, PrefixLenError>)
        ensures
            prefix_len <= addr.width() ==> r == Ok::<IpNet, PrefixLenError>(
                IpNet::of(addr, prefix_len),
            ),
            prefix_len > addr.width() ==> r is Err,
    {
        let width: u8 = match addr {
            IpAddr::V4(_) => 32,
            IpAddr::V6(_) => 128,
        };
        if prefix_len > width {
            Err(PrefixLenError {  })
        } else {
            Ok(IpNet { addr, prefix_len })
        }
    }

    /// The address.
    #[verifier::when_used_as_spec(spec_addr)]
    pub fn addr(&self) -> (addr: IpAddr)
        ensures
            addr == self.spec_addr(),
    {
        self.addr
    }

    /// The number of leading bits that count.
    #[verifier::when_used_as_spec(spec_prefix_len)]
    pub fn prefix_len(&self) -> (len: u8)
        ensures
            len == self.spec_prefix_len(),
            len <= self.spec_addr().width(),
    {
        proof {
            use_type_invariant(self);
        }
        self.prefix_len
    }

    /// The address with the bits that do not count set to zero.
    pub open spec fn masked(self) -> IpAddr {
        let block = power_of_two((self.addr().width() - self.prefix_len()) as nat);
        match self.addr() {
            IpAddr::V4(value) => IpAddr::V4((value as nat / block * block) as u32),
            IpAddr::V6(value) => IpAddr::V6((value as nat / block * block) as u128),
        }
    }

    /// The address with the bits that do not count set to zero.
    pub fn network(&self) -> (addr: IpAddr)
        ensures
            addr == self.masked(),
    {
        proof {
            use_type_invariant(self);
        }
        match self.addr {
            IpAddr::V4(value) => {
                let low = clear_low_bits(value as u128, 32 - self.prefix_len);
                IpAddr::V4(low as u32)
            },
            IpAddr::V6(value) => IpAddr::V6(clear_low_bits(value, 128 - self.prefix_len)),
        }
    }

    /// Reads a prefix in CIDR notation.
    pub fn from_str(s: &str) -> (r: Result<IpNet, InvalidPrefix>)
        ensures
            match parsed_prefix(s@) {
                Some((addr, len)) => r == Ok::<IpNet, InvalidPrefix>(IpNet::of(addr, len)),
                None => r is Err,
            },
    {
        match parse_prefix(s) {
            Some((addr, prefix_len)) => Ok(IpNet { addr, prefix_len }),
            None => Err(InvalidPrefix {  }),
        }
    }

    /// The text of a prefix in CIDR notation.
    pub open spec fn text(self) -> Seq<char> {
        address_text(self.addr()) + seq!['/'] + decimal(self.prefix_len() as nat)
    }

    /// The prefix in CIDR notation, which is read as the same prefix again.
    pub fn to_string(&self) -> (text: String)
        ensures
            text@ == self.text(),
            parsed_prefix(text@) == Some((self.addr(), self.prefix_len())),
    {
        proof {
            use_type_invariant(self);
        }
        format_prefix(self.addr, self.prefix_len)
    }
}

/// A prefix is its address and its prefix length.
pub proof fn lemma_prefix_parts(net: IpNet, addr: IpAddr, prefix_len: u8)
    ensures
        IpNet::of(addr, prefix_len).addr() == addr,
        IpNet::of(addr, prefix_len).prefix_len() == prefix_len,
        IpNet::of(net.addr(), net.prefix_len()) == net,
{
}

/// A number with its `count` lowest bits set to zero.
fn clear_low_bits(value: u128, count: u8) -> (r: u128)
    requires
        count <= 128,
    ensures
        r == value as nat / power_of_two(count as nat) * power_of_two(count as nat),
        r <= value,
{
    let mut high: u128 = value;
    let mut i: u8 = 0;
    proof {
        assert(power_of_two(0) == 1);
        assert(value as nat / 1 == value);
    }
    while i < count
        invariant
            i <= count,
            high == value as nat / power_of_two(i as nat),
        decreases count - i,
    {
        proof {
            let block = power_of_two(i as nat);
            lemma_power_positive(i as nat);
            lemma_halved(value as nat, block);
        }
        high = high / 2;
        i = i + 1;
    }
    let ghost top = high;
    proof {
        let block = power_of_two(count as nat);
        lemma_power_positive(count as nat);
        assert(power_of_two((count - i) as nat) == 1);
        assert(top * 1 == top);
        assert(value as nat / block * block <= value) by (nonlinear_arith)
            requires
                block > 0,
        ;
    }
    while i > 0
        invariant
            i <= count,
            top == value as nat / power_of_two(count as nat),
            high == top * power_of_two((count - i) as nat),
            top * power_of_two(count as nat) <= value,
        decreases i,
    {
        proof {
            lemma_power_grows((count - i + 1) as nat, count as nat);
            let now = power_of_two((count - i) as nat);
            let goal = power_of_two(count as nat);
            assert(top * (2 * now) == 2 * (top * now)) by (nonlinear_arith);
            assert(top * (2 * now) <= top * goal) by (nonlinear_arith)
                requires
                    2 * now <= goal,
            ;
        }
        high = high * 2;
        i = i - 1;
    }
    high
}

proof fn lemma_halved(value: nat, block: nat)
    requires
        block > 0,
    ensures
        value / block / 2 == value / (2 * block),
{
    vstd::arithmetic::div_mod::lemma_div_denominator(value as int, block as int, 2);
    assert(block * 2 == 2 * block);
}

proof fn lemma_power_positive(exponent: nat)
    ensures
        power_of_two(exponent) > 0,
    decreases exponent,
{
    if exponent > 0 {
        lemma_power_positive((exponent - 1) as nat);
    }
}

proof fn lemma_power_grows(a: nat, b: nat)
    requires
        a <= b,
    ensures
        power_of_two(a) <= power_of_two(b),
    decreases b,
{
    if a < b {
        lemma_power_grows(a, (b - 1) as nat);
    }
}

} // verus!
