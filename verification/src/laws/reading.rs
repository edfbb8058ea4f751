//! What is read from text: numbers, lists, announcements and route tables.

use crate::cli::{
    mapped_tables, parts_announcement, text_announcement, text_mapping, Announcement,
    AnnouncementError, MappingError,
};
use crate::net::{parsed_address, IpAddr};
use crate::pb::{ascii_lower, lowercased, word_hop_type, NextHopType};
use crate::text::{decimal, digits_value, is_digits, parsed_i32, parsed_unsigned, parts};
use crate::types::{Destination, NextHop, Vni};
use vstd::prelude::*;

verus! {

/// A number in decimal notation is digits without needless zeros before them, and
/// the digits are the number.
pub proof fn lemma_decimal(value: nat)
    ensures
        decimal(value).len() > 0,
        forall|i: int| 0 <= i < decimal(value).len() ==> '0' <= #[trigger] decimal(value)[i] <= '9',
        decimal(value)[0] == '0' ==> value == 0,
        value < 10 ==> decimal(value).len() == 1,
        is_digits(decimal(value)),
        digits_value(decimal(value)) == value,
    decreases value,
{
    if value >= 10 {
        lemma_decimal(value / 10);
        let text = decimal(value);
        assert(text.drop_last() =~= decimal(value / 10));
        assert forall|i: int| 0 <= i < text.len() implies '0' <= #[trigger] text[i] <= '9' by {
            if i < text.len() - 1 {
                assert(text[i] == decimal(value / 10)[i]);
            }
        }
        assert(text[0] == decimal(value / 10)[0]);
    } else {
        reveal_with_fuel(digits_value, 2);
        let text = decimal(value);
        assert(text.drop_last() =~= Seq::empty());
    }
}

/// One more digit makes a number ten times as much and adds the digit. Zeros before a
/// number do not count.
pub proof fn lemma_digits(text: Seq<char>, digit: char)
    requires
        '0' <= digit <= '9',
    ensures
        digits_value(Seq::empty()) == 0,
        digits_value(text.push(digit)) == 10 * digits_value(text) + (digit as u32 - 48),
        digits_value(seq!['0'] + text) == digits_value(text),
    decreases text.len(),
{
    assert(text.push(digit).drop_last() =~= text);
    let longer = seq!['0'] + text;
    if text.len() > 0 {
        lemma_digits(text.drop_last(), digit);
        assert(longer.drop_last() =~= seq!['0'] + text.drop_last());
    } else {
        reveal_with_fuel(digits_value, 2);
        assert(longer.drop_last() =~= Seq::empty());
        assert(text =~= Seq::empty());
    }
}

/// A number that is written in decimal, with or without a plus sign, is read as that
/// number if it is not too large, and else not at all.
pub proof fn lemma_read_number(value: nat, max: nat)
    ensures
        parsed_unsigned(decimal(value), max) == if value <= max {
            Some(value)
        } else {
            None
        },
        parsed_unsigned(seq!['+'] + decimal(value), max) == if value <= max {
            Some(value)
        } else {
            None
        },
{
    lemma_decimal(value);
    let signed = seq!['+'] + decimal(value);
    assert(signed.skip(1) =~= decimal(value));
}

/// A signed number that is written in decimal is read as that number if it has 32
/// bits, and else not at all.
pub proof fn lemma_read_signed(value: nat)
    ensures
        parsed_i32(decimal(value)) == if value <= i32::MAX {
            Some(value as int)
        } else {
            None
        },
        parsed_i32(seq!['+'] + decimal(value)) == if value <= i32::MAX {
            Some(value as int)
        } else {
            None
        },
        parsed_i32(seq!['-'] + decimal(value)) == if -(value as int) >= i32::MIN {
            Some(-(value as int))
        } else {
            None
        },
{
    lemma_decimal(value);
    lemma_read_number(value, 0x7fff_ffff);
    let signed = seq!['-'] + decimal(value);
    assert(signed.skip(1) =~= decimal(value));
}

/// What is read as a number is digits, one at least, behind one sign at most, and not
/// above the bound.
pub proof fn lemma_only_numbers(text: Seq<char>, max: nat, i: int)
    ensures
        parsed_unsigned(text, max) matches Some(value) ==> {
            &&& value <= max
            &&& text.len() > 0
            &&& text.len() == 1 ==> '0' <= text[0] <= '9'
            &&& 0 < i < text.len() ==> '0' <= text[i] <= '9'
            &&& '0' <= text[0] <= '9' || text[0] == '+'
        },
        parsed_i32(text) matches Some(value) ==> {
            &&& i32::MIN <= value <= i32::MAX
            &&& text.len() > 0
            &&& text.len() == 1 ==> '0' <= text[0] <= '9'
            &&& 0 < i < text.len() ==> '0' <= text[i] <= '9'
            &&& '0' <= text[0] <= '9' || text[0] == '+' || text[0] == '-'
            &&& text[0] == '-' ==> value <= 0
            &&& text[0] != '-' ==> value >= 0
        },
{
    let tail = text.skip(1);
    if 0 < i < text.len() {
        assert(tail[i - 1] == text[i]);
    }
}

/// How often a character occurs.
pub open spec fn occurrences(text: Seq<char>, c: char) -> nat
    decreases text.len(),
{
    if text.len() == 0 {
        0
    } else {
        occurrences(text.drop_last(), c) + if text.last() == c {
            1nat
        } else {
            0
        }
    }
}

/// There is one part more than there are separators.
pub proof fn lemma_count_parts(text: Seq<char>, separator: char)
    ensures
        parts(text, separator).len() == occurrences(text, separator) + 1,
    decreases text.len(),
{
    if text.len() > 0 {
        lemma_count_parts(text.drop_last(), separator);
    }
}

/// A text without separators is its only part, and behind a separator it is the last
/// part.
pub proof fn lemma_last_part(front: Seq<char>, part: Seq<char>, separator: char)
    requires
        !part.contains(separator),
    ensures
        parts(part, separator) == seq![part],
        parts(front + seq![separator] + part, separator) == parts(front, separator).push(part),
    decreases part.len(),
{
    let text = front + seq![separator] + part;
    if part.len() == 0 {
        assert(part =~= Seq::empty());
        assert(text.drop_last() =~= front);
        assert(text.last() == separator);
        assert(parts(part, separator) =~= seq![part]);
    } else {
        let shorter = part.drop_last();
        assert(part.last() != separator) by {
            assert(part.contains(part.last()));
        }
        assert(!shorter.contains(separator)) by {
            if shorter.contains(separator) {
                let i = choose|i: int| 0 <= i < shorter.len() && shorter[i] == separator;
                assert(part[i] == separator);
            }
        }
        lemma_last_part(front, shorter, separator);
        assert(text.drop_last() =~= front + seq![separator] + shorter);
        assert(text.last() == part.last());
        assert(shorter.push(part.last()) =~= part);
        assert(parts(part, separator) =~= seq![part]);
        let before = parts(front, separator).push(shorter);
        assert(before.drop_last() =~= parts(front, separator));
        assert(parts(text, separator) =~= parts(front, separator).push(part));
    }
}

/// The words for the types of next hops.
pub proof fn lemma_words(word: Seq<char>)
    ensures
        word_hop_type(word) == NextHopType::Nat <==> word == "nat"@,
        word_hop_type(word) == NextHopType::LoadbalancerTarget <==> word == "lb"@ || word
            == "loadbalancer"@ || word == "loadbalancer_target"@,
        word == "std"@ || word == "standard"@ ==> word_hop_type(word) == NextHopType::Standard,
        word_hop_type(word) == NextHopType::Standard <==> word != "nat"@ && word != "lb"@ && word
            != "loadbalancer"@ && word != "loadbalancer_target"@,
{
    reveal_strlit("nat");
    reveal_strlit("lb");
    reveal_strlit("std");
    reveal_strlit("standard");
    reveal_strlit("loadbalancer");
    reveal_strlit("loadbalancer_target");
    assert("nat"@.len() == 3 && "lb"@.len() == 2 && "std"@.len() == 3 && "standard"@.len() == 8);
    assert("loadbalancer"@.len() == 12 && "loadbalancer_target"@.len() == 19);
    assert("std"@[0] == 's' && "nat"@[0] == 'n');
}

/// A letter in lower case is 32 code points behind the one in upper case; all else
/// stays, and what is in lower case stays so.
pub proof fn lemma_lower_case(c: char)
    ensures
        'A' <= c && c <= 'Z' ==> ascii_lower(c) as u32 == c as u32 + 32,
        !('A' <= c && c <= 'Z') ==> ascii_lower(c) == c,
        ascii_lower(ascii_lower(c)) == ascii_lower(c),
{
}

proof fn lemma_no_separator(value: nat)
    ensures
        !decimal(value).contains('#'),
{
    lemma_decimal(value);
    if decimal(value).contains('#') {
        let i = choose|i: int| 0 <= i < decimal(value).len() && decimal(value)[i] == '#';
        assert('0' <= decimal(value)[i]);
    }
}

/// An announcement that is written out, `vni#prefix#destHop`, is read as what was
/// written. Its next hop is a standard one without ports.
pub proof fn lemma_read_announcement(
    vni: Vni,
    prefix: Seq<char>,
    hop: Seq<char>,
    destination: Destination,
    target_address: IpAddr,
)
    requires
        Destination::parsed(prefix) == Some(destination),
        parsed_address(hop) == Some(target_address),
        !prefix.contains('#'),
        !hop.contains('#'),
    ensures
        text_announcement(decimal(vni as nat) + seq!['#'] + prefix + seq!['#'] + hop) == Ok::<
            Announcement,
            AnnouncementError,
        >(
            Announcement {
                vni,
                destination,
                next_hop: NextHop {
                    target_address,
                    target_vni: 0,
                    hop_type: NextHopType::Standard,
                    nat_port_range_from: 0,
                    nat_port_range_to: 0,
                },
            },
        ),
{
    let number = decimal(vni as nat);
    lemma_no_separator(vni as nat);
    lemma_read_number(vni as nat, 0xffff_ffff);
    lemma_last_part(Seq::empty(), number, '#');
    lemma_last_part(number, prefix, '#');
    lemma_last_part(number + seq!['#'] + prefix, hop, '#');
    let text = number + seq!['#'] + prefix + seq!['#'] + hop;
    assert(parts(text, '#') =~= seq![number, prefix, hop]);
}

/// An announcement that is written out with a type other than NAT,
/// `vni#prefix#destHop#type`, is read as what was written.
pub proof fn lemma_read_typed_announcement(
    vni: Vni,
    prefix: Seq<char>,
    hop: Seq<char>,
    word: Seq<char>,
    destination: Destination,
    target_address: IpAddr,
)
    requires
        Destination::parsed(prefix) == Some(destination),
        parsed_address(hop) == Some(target_address),
        !prefix.contains('#'),
        !hop.contains('#'),
        !word.contains('#'),
        lowercased(word) != "nat"@,
    ensures
        text_announcement(
            decimal(vni as nat) + seq!['#'] + prefix + seq!['#'] + hop + seq!['#'] + word,
        ) == Ok::<Announcement, AnnouncementError>(
            Announcement {
                vni,
                destination,
                next_hop: NextHop {
                    target_address,
                    target_vni: 0,
                    hop_type: if lowercased(word) == "lb"@ || lowercased(word) == "loadbalancer"@
                        || lowercased(word) == "loadbalancer_target"@ {
                        NextHopType::LoadbalancerTarget
                    } else {
                        NextHopType::Standard
                    },
                    nat_port_range_from: 0,
                    nat_port_range_to: 0,
                },
            },
        ),
{
    let number = decimal(vni as nat);
    let two = number + seq!['#'] + prefix;
    let three = two + seq!['#'] + hop;
    lemma_no_separator(vni as nat);
    lemma_read_number(vni as nat, 0xffff_ffff);
    lemma_words(lowercased(word));
    lemma_last_part(Seq::empty(), number, '#');
    lemma_last_part(number, prefix, '#');
    lemma_last_part(two, hop, '#');
    lemma_last_part(three, word, '#');
    assert(parts(three + seq!['#'] + word, '#') =~= seq![number, prefix, hop, word]);
}

/// A NAT announcement that is written out, `vni#prefix#destHop#NAT#from#to`, is read
/// as what was written.
pub proof fn lemma_read_nat_announcement(
    vni: Vni,
    prefix: Seq<char>,
    hop: Seq<char>,
    word: Seq<char>,
    from: u16,
    to: u16,
    destination: Destination,
    target_address: IpAddr,
)
    requires
        Destination::parsed(prefix) == Some(destination),
        parsed_address(hop) == Some(target_address),
        !prefix.contains('#'),
        !hop.contains('#'),
        !word.contains('#'),
        lowercased(word) == "nat"@,
    ensures
        text_announcement(
            decimal(vni as nat) + seq!['#'] + prefix + seq!['#'] + hop + seq!['#'] + word + seq!['#']
                + decimal(from as nat) + seq!['#'] + decimal(to as nat),
        ) == Ok::<Announcement, AnnouncementError>(
            Announcement {
                vni,
                destination,
                next_hop: NextHop {
                    target_address,
                    target_vni: 0,
                    hop_type: NextHopType::Nat,
                    nat_port_range_from: from,
                    nat_port_range_to: to,
                },
            },
        ),
{
    let number = decimal(vni as nat);
    let (low, high) = (decimal(from as nat), decimal(to as nat));
    let two = number + seq!['#'] + prefix;
    let three = two + seq!['#'] + hop;
    let four = three + seq!['#'] + word;
    let five = four + seq!['#'] + low;
    lemma_no_separator(vni as nat);
    lemma_no_separator(from as nat);
    lemma_no_separator(to as nat);
    lemma_read_number(vni as nat, 0xffff_ffff);
    lemma_read_number(from as nat, 0xffff);
    lemma_read_number(to as nat, 0xffff);
    lemma_words(lowercased(word));
    lemma_last_part(Seq::empty(), number, '#');
    lemma_last_part(number, prefix, '#');
    lemma_last_part(two, hop, '#');
    lemma_last_part(three, word, '#');
    lemma_last_part(four, low, '#');
    lemma_last_part(five, high, '#');
    assert(parts(five + seq!['#'] + high, '#') =~= seq![number, prefix, hop, word, low, high]);
}

/// An announcement has two to five separators. Otherwise it is malformed.
pub proof fn lemma_announcement_separators(text: Seq<char>)
    ensures
        occurrences(text, '#') < 2 || occurrences(text, '#') > 5 <==> text_announcement(text)
            == Err::<Announcement, AnnouncementError>(AnnouncementError::Malformed),
{
    lemma_count_parts(text, '#');
}

/// What an announcement says is what its parts say, and what is wrong with one is the
/// first thing that is wrong with its parts.
pub proof fn lemma_announcement_parts(
    parts: Seq<Seq<char>>,
    dest: Option<Destination>,
    hop_ip: Option<IpAddr>,
    named_type: NextHopType,
)
    ensures
        ({
            let count = parts.len();
            let enough = 3 <= count && count <= 6;
            let vni = parsed_unsigned(parts[0], u32::MAX as nat);
            let from = parsed_unsigned(parts[4], u16::MAX as nat);
            let to = parsed_unsigned(parts[5], u16::MAX as nat);
            let ported = count > 3 && named_type == NextHopType::Nat;
            match parts_announcement(parts, dest, hop_ip, named_type) {
                Ok(a) => {
                    &&& enough
                    &&& vni == Some(a.vni as nat)
                    &&& dest == Some(a.destination)
                    &&& hop_ip == Some(a.next_hop.target_address)
                    &&& a.next_hop.target_vni == 0
                    &&& ported ==> count == 6 && a.next_hop.hop_type == NextHopType::Nat && from
                        == Some(a.next_hop.nat_port_range_from as nat) && to == Some(
                        a.next_hop.nat_port_range_to as nat,
                    )
                    &&& !ported ==> count <= 4 && a.next_hop.nat_port_range_from == 0
                        && a.next_hop.nat_port_range_to == 0
                    &&& count == 3 ==> a.next_hop.hop_type == NextHopType::Standard
                    &&& count > 3 ==> a.next_hop.hop_type == named_type
                },
                Err(AnnouncementError::Malformed) => !enough,
                Err(AnnouncementError::InvalidVni) => enough && vni is None,
                Err(AnnouncementError::InvalidPrefix) => enough && vni is Some && dest is None,
                Err(AnnouncementError::InvalidNextHop) => enough && vni is Some && dest is Some
                    && hop_ip is None,
                Err(AnnouncementError::MalformedNat) => enough && vni is Some && dest is Some
                    && hop_ip is Some && ported && count != 6,
                Err(AnnouncementError::InvalidFromPort) => vni is Some && dest is Some && hop_ip
                    is Some && ported && count == 6 && from is None,
                Err(AnnouncementError::InvalidToPort) => vni is Some && dest is Some && hop_ip
                    is Some && ported && count == 6 && from is Some && to is None,
                Err(AnnouncementError::UnexpectedPortRange) => enough && vni is Some && dest is Some
                    && hop_ip is Some && !ported && count > 4,
            }
        }),
{
    lemma_only_numbers(parts[0], u32::MAX as nat, 0);
    lemma_only_numbers(parts[4], u16::MAX as nat, 0);
    lemma_only_numbers(parts[5], u16::MAX as nat, 0);
}

/// A mapping that is written out, `vni#table`, is read as what was written if the
/// table is positive.
pub proof fn lemma_read_mapping(vni: Vni, table: nat)
    ensures
        text_mapping(decimal(vni as nat) + seq!['#'] + decimal(table)) == if table == 0 {
            Err(MappingError::NoSuchTable(0))
        } else if table <= i32::MAX {
            Ok((vni, table as i32))
        } else {
            Err(MappingError::InvalidTable)
        },
{
    let (left, right) = (decimal(vni as nat), decimal(table));
    lemma_no_separator(vni as nat);
    lemma_no_separator(table);
    lemma_read_number(vni as nat, 0xffff_ffff);
    lemma_read_signed(table);
    lemma_last_part(Seq::empty(), left, '#');
    lemma_last_part(left, right, '#');
    assert(parts(left + seq!['#'] + right, '#') =~= seq![left, right]);
}

/// A mapping has one separator, a number before it and a positive one behind it. What
/// is wrong with one is the first thing that is wrong.
pub proof fn lemma_mapping_parts(text: Seq<char>)
    ensures
        ({
            let list = parts(text, '#');
            let vni = parsed_unsigned(list[0], u32::MAX as nat);
            let table = parsed_i32(list[1]);
            let two = occurrences(text, '#') == 1;
            match text_mapping(text) {
                Ok((v, t)) => two && vni == Some(v as nat) && table == Some(t as int) && t > 0,
                Err(MappingError::Malformed) => !two,
                Err(MappingError::InvalidVni) => two && vni is None,
                Err(MappingError::InvalidTable) => two && vni is Some && table is None,
                Err(MappingError::NoSuchTable(t)) => two && vni is Some && table == Some(t as int)
                    && t <= 0,
                Err(MappingError::MissingInterface) => false,
            }
        }),
{
    let list = parts(text, '#');
    lemma_count_parts(text, '#');
    lemma_only_numbers(list[0], u32::MAX as nat, 0);
    lemma_only_numbers(list[1], 0, 0);
}

/// Without mappings there are no tables. One more mapping gives its virtual network
/// its table, whatever it had before, and leaves the tables of all others; a mapping
/// that is wrong makes all wrong, unless an earlier one did.
pub proof fn lemma_one_more_mapping(mappings: Seq<Seq<char>>, mapping: Seq<char>, vni: Vni)
    ensures
        mapped_tables(Seq::empty()) == Ok::<Map<Vni, i32>, MappingError>(Map::empty()),
        match mapped_tables(mappings) {
            Err(error) => mapped_tables(mappings.push(mapping)) == Err::<
                Map<Vni, i32>,
                MappingError,
            >(error),
            Ok(before) => match text_mapping(mapping) {
                Err(error) => mapped_tables(mappings.push(mapping)) == Err::<
                    Map<Vni, i32>,
                    MappingError,
                >(error),
                Ok((v, table)) => {
                    &&& mapped_tables(mappings.push(mapping)) is Ok
                    &&& {
                        let after = mapped_tables(mappings.push(mapping))->Ok_0;
                        &&& after.contains_key(vni) == (before.contains_key(vni) || vni == v)
                        &&& vni == v ==> after[vni] == table
                        &&& vni != v && before.contains_key(vni) ==> after[vni] == before[vni]
                    }
                },
            },
        },
{
    assert(mappings.push(mapping).drop_last() =~= mappings);
}

} // verus!
