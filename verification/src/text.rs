//! Numbers and lists as text.

use vstd::prelude::*;

verus! {

/// The decimal digit for a number below ten.
pub open spec fn digit(value: nat) -> char {
    ((value + 48) as u8) as char
}

/// A number in decimal notation, without leading zeros.
pub open spec fn decimal(value: nat) -> Seq<char>
    decreases value,
{
    if value < 10 {
        seq![digit(value)]
    } else {
        decimal(value / 10).push(digit(value % 10))
    }
}

/// The decimal digit for a number below ten.
fn digit_str(value: u64) -> (s: &'static str)
    requires
        value < 10,
    ensures
        s@ == seq![digit(value as nat)],
{
    proof {
        reveal_strlit("0");
        reveal_strlit("1");
        reveal_strlit("2");
        reveal_strlit("3");
        reveal_strlit("4");
        reveal_strlit("5");
        reveal_strlit("6");
        reveal_strlit("7");
        reveal_strlit("8");
        reveal_strlit("9");
    }
    let s = match value {
        0 => "0",
        1 => "1",
        2 => "2",
        3 => "3",
        4 => "4",
        5 => "5",
        6 => "6",
        7 => "7",
        8 => "8",
        _ => "9",
    };
    assert(s@ =~= seq![digit(value as nat)]);
    s
}

/// Appends a number in decimal notation.
pub fn push_decimal(value: u64, out: &mut String)
    ensures
        final(out)@ == old(out)@ + decimal(value as nat),
    decreases value,
{
    if value >= 10 {
        push_decimal(value / 10, out);
    }
    out.append(digit_str(value % 10));
    assert(out@ =~= old(out)@ + decimal(value as nat));
}

/// The parts of a text between separators. There is always one more part than
/// there are separators.
pub open spec fn parts(text: Seq<char>, separator: char) -> Seq<Seq<char>>
    decreases text.len(),
{
    if text.len() == 0 {
        seq![Seq::empty()]
    } else {
        let before = parts(text.drop_last(), separator);
        if text.last() == separator {
            before.push(Seq::empty())
        } else {
            before.drop_last().push(before.last().push(text.last()))
        }
    }
}

/// Parts put together with separators between them.
pub open spec fn joined(parts: Seq<Seq<char>>, separator: char) -> Seq<char>
    decreases parts.len(),
{
    if parts.len() == 0 {
        Seq::empty()
    } else if parts.len() == 1 {
        parts[0]
    } else {
        joined(parts.drop_last(), separator).push(separator) + parts.last()
    }
}

/// The contents of strings.
pub open spec fn views(strings: Seq<String>) -> Seq<Seq<char>> {
    strings.map_values(|s: String| s@)
}

/// Splits a text at a separator.
pub fn split(text: &str, separator: char) -> (r: Vec<String>)
    ensures
        views(r@) == parts(text@, separator),
{
    let len: usize = text.unicode_len();
    let mut done: Vec<String> = Vec::new();
    let mut start: usize = 0;
    let mut i: usize = 0;
    assert(text@.take(0) =~= Seq::<char>::empty());
    assert(views(done@).push(text@.subrange(0, 0)) =~= parts(text@.take(0), separator));
    while i < len
        invariant
            start <= i <= len,
            len == text@.len(),
            views(done@).push(text@.subrange(start as int, i as int)) == parts(
                text@.take(i as int),
                separator,
            ),
        decreases len - i,
    {
        let c = text.get_char(i);
        let ghost before = parts(text@.take(i as int), separator);
        let ghost open = text@.subrange(start as int, i as int);
        let ghost closed = views(done@);
        proof {
            assert(text@.take(i + 1).drop_last() =~= text@.take(i as int));
            assert(before.drop_last() =~= closed);
            assert(before.last() == open);
        }
        if c == separator {
            let part = text.substring_char(start, i).to_owned();
            assert(views(done@.push(part)) =~= closed.push(part@));
            done.push(part);
            start = i + 1;
            assert(text@.subrange(start as int, i + 1) =~= Seq::<char>::empty());
        } else {
            assert(text@.subrange(start as int, i + 1) =~= open.push(c));
        }
        i = i + 1;
    }
    let part = text.substring_char(start, len).to_owned();
    assert(views(done@.push(part)) =~= views(done@).push(part@));
    assert(text@.take(len as int) =~= text@);
    done.push(part);
    done
}

/// The parts of a text have no separators in them, and with the separators
/// between them they are the text.
pub proof fn lemma_parts_join(text: Seq<char>, separator: char)
    ensures
        parts(text, separator).len() > 0,
        joined(parts(text, separator), separator) == text,
        forall|i: int|
            0 <= i < parts(text, separator).len() ==> !(#[trigger] parts(text, separator)[i]).contains(
                separator,
            ),
    decreases text.len(),
{
    let now = parts(text, separator);
    if text.len() == 0 {
        assert(joined(now, separator) =~= text);
    } else {
        lemma_parts_join(text.drop_last(), separator);
        let before = parts(text.drop_last(), separator);
        let c = text.last();
        if c == separator {
            assert(now.drop_last() =~= before);
            assert(joined(now, separator) =~= text);
        } else {
            assert(now.drop_last() =~= before.drop_last());
            assert(joined(now, separator) =~= joined(before, separator).push(c));
            assert(joined(before, separator).push(c) =~= text);
            assert forall|i: int| 0 <= i < now.len() implies !(#[trigger] now[i]).contains(
                separator,
            ) by {
                if i == now.len() - 1 {
                    let part = before.last();
                    assert(!before[before.len() - 1].contains(separator));
                    if now[i].contains(separator) {
                        let j = choose|j: int|
                            0 <= j < now[i].len() && now[i][j] == separator;
                        assert(j < part.len());
                        assert(part[j] == separator);
                    }
                } else {
                    assert(now[i] == before[i]);
                }
            }
        }
    }
}

/// Whether a text is made of decimal digits, of one at least.
pub open spec fn is_digits(text: Seq<char>) -> bool {
    text.len() > 0 && forall|i: int| 0 <= i < text.len() ==> '0' <= #[trigger] text[i] <= '9'
}

/// The number that decimal digits are.
pub open spec fn digits_value(text: Seq<char>) -> nat
    decreases text.len(),
{
    if text.len() == 0 {
        0
    } else {
        (digits_value(text.drop_last()) * 10 + (text.last() as u32 - 48)) as nat
    }
}

/// A number up to `max` in decimal digits.
pub open spec fn bounded_digits(text: Seq<char>, max: nat) -> Option<nat> {
    if is_digits(text) && digits_value(text) <= max {
        Some(digits_value(text))
    } else {
        None
    }
}

/// An unsigned number up to `max`: decimal digits, with or without a plus sign
/// before them.
pub open spec fn parsed_unsigned(text: Seq<char>, max: nat) -> Option<nat> {
    if text.len() > 0 && text[0] == '+' {
        bounded_digits(text.skip(1), max)
    } else {
        bounded_digits(text, max)
    }
}

/// A signed number of 32 bits: decimal digits, with or without a sign before
/// them.
pub open spec fn parsed_i32(text: Seq<char>) -> Option<int> {
    if text.len() > 0 && text[0] == '-' {
        match bounded_digits(text.skip(1), 0x8000_0000) {
            Some(value) => Some(-(value as int)),
            None => None,
        }
    } else {
        match parsed_unsigned(text, 0x7fff_ffff) {
            Some(value) => Some(value as int),
            None => None,
        }
    }
}

/// What comes first in a number counts at least as much as it does alone.
proof fn lemma_digits_prefix(text: Seq<char>, i: int)
    requires
        0 <= i <= text.len(),
        forall|j: int| 0 <= j < text.len() ==> '0' <= #[trigger] text[j] <= '9',
    ensures
        digits_value(text.take(i)) <= digits_value(text),
    decreases text.len() - i,
{
    if i < text.len() {
        lemma_digits_prefix(text, i + 1);
        assert(text.take(i + 1).drop_last() =~= text.take(i));
    } else {
        assert(text.take(i) =~= text);
    }
}

/// Reads the digits from a position on.
fn read_digits(text: &str, from: usize, max: u64) -> (r: Option<u64>)
    requires
        from <= text@.len(),
        max <= 0xffff_ffff,
    ensures
        match bounded_digits(text@.skip(from as int), max as nat) {
            Some(value) => r == Some(value as u64),
            None => r is None,
        },
{
    let len: usize = text.unicode_len();
    let ghost digits = text@.skip(from as int);
    if from == len {
        return None;
    }
    let mut value: u64 = 0;
    let mut i: usize = from;
    assert(digits.take(0) =~= Seq::<char>::empty());
    while i < len
        invariant
            from <= i <= len,
            from < len,
            len == text@.len(),
            max <= 0xffff_ffff,
            digits == text@.skip(from as int),
            value <= max,
            value == digits_value(digits.take(i - from)),
            forall|j: int| 0 <= j < i - from ==> '0' <= #[trigger] digits[j] <= '9',
        decreases len - i,
    {
        let c = text.get_char(i);
        assert(c == digits[i - from]);
        if c < '0' || c > '9' {
            assert(!is_digits(digits));
            return None;
        }
        proof {
            assert(digits.take(i - from + 1).drop_last() =~= digits.take(i - from));
        }
        value = value * 10 + (c as u64 - 48);
        if value > max {
            proof {
                if is_digits(digits) {
                    lemma_digits_prefix(digits, i - from + 1);
                }
            }
            return None;
        }
        i = i + 1;
    }
    assert(digits.take(len - from) =~= digits);
    Some(value)
}

/// Reads an unsigned number up to `max`.
pub fn parse_unsigned(text: &str, max: u64) -> (r: Option<u64>)
    requires
        max <= 0xffff_ffff,
    ensures
        match parsed_unsigned(text@, max as nat) {
            Some(value) => r == Some(value as u64),
            None => r is None,
        },
{
    assert(text@.skip(0) =~= text@);
    if text.unicode_len() > 0 && text.get_char(0) == '+' {
        read_digits(text, 1, max)
    } else {
        read_digits(text, 0, max)
    }
}

/// Reads a signed number of 32 bits.
pub fn parse_i32(text: &str) -> (r: Option<i32>)
    ensures
        match parsed_i32(text@) {
            Some(value) => r == Some(value as i32),
            None => r is None,
        },
{
    if text.unicode_len() > 0 && text.get_char(0) == '-' {
        match read_digits(text, 1, 0x8000_0000) {
            Some(value) => Some((-(value as i64)) as i32),
            None => None,
        }
    } else {
        match parse_unsigned(text, 0x7fff_ffff) {
            Some(value) => Some(value as i32),
            None => None,
        }
    }
}

} // verus!
