//! Lists in order.

use crate::types::{lemma_destination_order, Destination, NextHop};
use vstd::prelude::*;

verus! {

/// Whether a text comes before another in the order of dictionaries, by the code
/// points of its characters.
pub open spec fn text_before(a: Seq<char>, b: Seq<char>) -> bool
    decreases a.len(),
{
    if a.len() == 0 || b.len() == 0 {
        a.len() < b.len()
    } else if a[0] != b[0] {
        a[0] < b[0]
    } else {
        text_before(a.skip(1), b.skip(1))
    }
}

/// The order of texts is a strict total order.
pub proof fn lemma_text_order(a: Seq<char>, b: Seq<char>, c: Seq<char>)
    ensures
        !text_before(a, a),
        text_before(a, b) ==> !text_before(b, a),
        text_before(a, b) && text_before(b, c) ==> text_before(a, c),
        a != b ==> text_before(a, b) || text_before(b, a),
    decreases a.len() + b.len() + c.len(),
{
    if a.len() > 0 {
        lemma_text_order(a.skip(1), a.skip(1).take(0), a.skip(1).take(0));
    }
    if a.len() > 0 && b.len() > 0 {
        let none = Seq::<char>::empty();
        lemma_text_order(a.skip(1), b.skip(1), none);
        if a[0] == b[0] && a.skip(1) == b.skip(1) {
            assert(a =~= seq![a[0]] + a.skip(1));
            assert(b =~= seq![b[0]] + b.skip(1));
        }
        if c.len() > 0 {
            lemma_text_order(a.skip(1), b.skip(1), c.skip(1));
        }
    }
    if a.len() == 0 && b.len() == 0 {
        assert(a =~= b);
    }
}

/// Whether a text comes before another.
fn is_text_before(a: &str, b: &str) -> (r: bool)
    ensures
        r == text_before(a@, b@),
{
    let a_len: usize = a.unicode_len();
    let b_len: usize = b.unicode_len();
    let mut i: usize = 0;
    assert(a@.skip(0) =~= a@ && b@.skip(0) =~= b@);
    while i < a_len && i < b_len
        invariant
            a_len == a@.len(),
            b_len == b@.len(),
            i <= a_len,
            i <= b_len,
            text_before(a@, b@) == text_before(a@.skip(i as int), b@.skip(i as int)),
        decreases a_len - i,
    {
        let x = a.get_char(i);
        let y = b.get_char(i);
        if x != y {
            return x < y;
        }
        assert(a@.skip(i as int).skip(1) =~= a@.skip(i + 1));
        assert(b@.skip(i as int).skip(1) =~= b@.skip(i + 1));
        i = i + 1;
    }
    a_len < b_len
}

/// Values that can be put in order.
pub trait Sortable: Copy {
    /// Whether `self` comes before `other`.
    spec fn precedes(self, other: Self) -> bool;

    /// Whether `self` comes before `other`.
    fn comes_before(&self, other: &Self) -> (r: bool)
        ensures
            r == self.precedes(*other),
    ;

    /// What does not come before another, and that not before a third, does not
    /// come before the third; and no two come before each other.
    proof fn lemma_precedes(a: Self, b: Self, c: Self)
        ensures
            a.precedes(b) ==> !b.precedes(a),
            !a.precedes(b) && !b.precedes(c) ==> !a.precedes(c),
    ;
}

impl Sortable for u32 {
    open spec fn precedes(self, other: u32) -> bool {
        self < other
    }

    fn comes_before(&self, other: &u32) -> (r: bool) {
        *self < *other
    }

    proof fn lemma_precedes(a: u32, b: u32, c: u32) {
    }
}

impl Sortable for Destination {
    open spec fn precedes(self, other: Destination) -> bool {
        self.before(other)
    }

    fn comes_before(&self, other: &Destination) -> (r: bool) {
        self.is_before(other)
    }

    proof fn lemma_precedes(a: Destination, b: Destination, c: Destination) {
        lemma_destination_order(a, b, c);
        lemma_destination_order(c, b, a);
        lemma_destination_order(b, a, c);
        lemma_destination_order(a, c, b);
    }
}

impl Sortable for NextHop {
    /// Next hops are listed by their text.
    open spec fn precedes(self, other: NextHop) -> bool {
        text_before(self.text(), other.text())
    }

    fn comes_before(&self, other: &NextHop) -> (r: bool) {
        is_text_before(self.to_string().as_str(), other.to_string().as_str())
    }

    proof fn lemma_precedes(a: NextHop, b: NextHop, c: NextHop) {
        let (x, y, z) = (a.text(), b.text(), c.text());
        lemma_text_order(x, y, z);
        lemma_text_order(z, y, x);
        lemma_text_order(y, x, z);
        lemma_text_order(x, z, y);
    }
}

/// Whether nothing in a list comes before what stands before it.
pub open spec fn sorted<T: Sortable>(list: Seq<T>) -> bool {
    forall|i: int, j: int| 0 <= i < j < list.len() ==> !(#[trigger] list[j]).precedes(
        #[trigger] list[i],
    )
}

/// What a sequence holds after an item was put in.
proof fn lemma_insert_contains<T>(s: Seq<T>, at: int, item: T)
    requires
        0 <= at <= s.len(),
    ensures
        forall|x: T| #[trigger] s.insert(at, item).contains(x) == (s.contains(x) || x == item),
        s.no_duplicates() && !s.contains(item) ==> s.insert(at, item).no_duplicates(),
{
    let t = s.insert(at, item);
    assert forall|x: T| #[trigger] t.contains(x) == (s.contains(x) || x == item) by {
        if s.contains(x) {
            let j = choose|j: int| 0 <= j < s.len() && s[j] == x;
            if j < at {
                assert(t[j] == x);
            } else {
                assert(t[j + 1] == x);
            }
        }
        if x == item {
            assert(t[at] == x);
        }
        if t.contains(x) && x != item {
            let j = choose|j: int| 0 <= j < t.len() && t[j] == x;
            if j < at {
                assert(s[j] == x);
            } else {
                assert(s[j - 1] == x);
            }
        }
    }
    if s.no_duplicates() && !s.contains(item) {
        assert forall|i: int, j: int|
            0 <= i < t.len() && 0 <= j < t.len() && i != j implies t[i] != t[j] by {
            let from = |k: int|
                if k < at {
                    k
                } else {
                    k - 1
                };
            if i != at {
                assert(t[i] == s[from(i)]);
            }
            if j != at {
                assert(t[j] == s[from(j)]);
            }
        }
    }
}

/// Puts a value where it belongs in a list that is in order.
fn insert_sorted<T: Sortable>(list: &mut Vec<T>, item: T)
    requires
        sorted(old(list)@),
        old(list)@.no_duplicates(),
        !old(list)@.contains(item),
    ensures
        sorted(final(list)@),
        final(list)@.no_duplicates(),
        forall|x: T| #[trigger]
            final(list)@.contains(x) == (old(list)@.contains(x) || x == item),
{
    let ghost before = list@;
    let mut at: usize = list.len();
    while at > 0 && item.comes_before(&list[at - 1])
        invariant
            at <= list@.len(),
            list@ == before,
            forall|j: int| at <= j < list@.len() ==> item.precedes(#[trigger] list@[j]),
        decreases at,
    {
        at = at - 1;
    }
    proof {
        let after = before.insert(at as int, item);
        lemma_insert_contains(before, at as int, item);
        assert forall|i: int, j: int| 0 <= i < j < after.len() implies !(
        #[trigger] after[j]).precedes(#[trigger] after[i]) by {
            if j < at {
                assert(after[i] == before[i] && after[j] == before[j]);
            } else if j == at {
                assert(after[i] == before[i]);
                assert(!item.precedes(before[at - 1]));
                if i < at - 1 {
                    assert(!before[at - 1].precedes(before[i]));
                    T::lemma_precedes(item, before[at - 1], before[i]);
                }
            } else if i < at {
                assert(after[i] == before[i] && after[j] == before[j - 1]);
            } else if i == at {
                assert(after[j] == before[j - 1]);
                T::lemma_precedes(item, before[j - 1], item);
            } else {
                assert(after[i] == before[i - 1] && after[j] == before[j - 1]);
            }
        }
    }
    list.insert(at, item);
}

/// The values of a list in order.
pub fn sort<T: Sortable>(list: &Vec<T>) -> (r: Vec<T>)
    requires
        list@.no_duplicates(),
    ensures
        sorted(r@),
        r@.no_duplicates(),
        r@.to_set() == list@.to_set(),
{
    let mut r: Vec<T> = Vec::new();
    for i in 0..list.len()
        invariant
            list@.no_duplicates(),
            sorted(r@),
            r@.no_duplicates(),
            forall|x: T| #[trigger] r@.contains(x) == list@.take(i as int).contains(x),
    {
        proof {
            crate::collections::lemma_take_next(list@, i as int);
        }
        insert_sorted(&mut r, list[i]);
    }
    assert(list@.take(list@.len() as int) =~= list@);
    assert(r@.to_set() =~= list@.to_set());
    r
}

} // verus!
