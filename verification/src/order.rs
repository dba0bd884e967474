//! Equality and order on the values kept in sets and tables.

use vstd::prelude::*;

use crate::text::chars_of;

verus! {

/// Values whose equality can be decided.
pub trait Alike: DeepView {
    fn same(&self, other: &Self) -> (r: bool)
        ensures
            r == (self.deep_view() == other.deep_view()),
    ;
}

/// Values with a strict total order.
pub trait Ranked: Alike {
    /// Whether `a` comes strictly before `b`.
    spec fn before(a: Self::V, b: Self::V) -> bool;

    proof fn nothing_precedes_itself(a: Self::V)
        ensures
            !Self::before(a, a),
    ;

    proof fn precedence_chains(a: Self::V, b: Self::V, c: Self::V)
        requires
            Self::before(a, b),
            Self::before(b, c),
        ensures
            Self::before(a, c),
    ;

    proof fn distinct_values_are_ordered(a: Self::V, b: Self::V)
        ensures
            a == b || Self::before(a, b) || Self::before(b, a),
    ;

    fn precedes(&self, other: &Self) -> (r: bool)
        ensures
            r == Self::before(self.deep_view(), other.deep_view()),
    ;
}

/// Dictionary order: the first place where the two differ decides, and a
/// sequence comes before its own continuations.
pub open spec fn dictionary(a: Seq<int>, b: Seq<int>) -> bool
    decreases a.len(),
{
    if b.len() == 0 {
        false
    } else if a.len() == 0 {
        true
    } else if a[0] != b[0] {
        a[0] < b[0]
    } else {
        dictionary(a.drop_first(), b.drop_first())
    }
}

pub proof fn dictionary_is_strict(a: Seq<int>)
    ensures
        !dictionary(a, a),
    decreases a.len(),
{
    if a.len() > 0 {
        dictionary_is_strict(a.drop_first());
    }
}

pub proof fn dictionary_chains(a: Seq<int>, b: Seq<int>, c: Seq<int>)
    requires
        dictionary(a, b),
        dictionary(b, c),
    ensures
        dictionary(a, c),
    decreases a.len(),
{
    if a.len() > 0 && a[0] == b[0] && b[0] == c[0] {
        dictionary_chains(a.drop_first(), b.drop_first(), c.drop_first());
    }
}

pub proof fn dictionary_is_total(a: Seq<int>, b: Seq<int>)
    ensures
        a == b || dictionary(a, b) || dictionary(b, a),
    decreases a.len(),
{
    if a.len() > 0 && b.len() > 0 && a[0] == b[0] {
        dictionary_is_total(a.drop_first(), b.drop_first());
        if a.drop_first() == b.drop_first() {
            assert(a =~= seq![a[0]] + a.drop_first());
            assert(b =~= seq![b[0]] + b.drop_first());
        }
    } else if a.len() == 0 && b.len() == 0 {
        assert(a =~= b);
    }
}

/// The code points of a text.
pub open spec fn codes(s: Seq<char>) -> Seq<int> {
    s.map_values(|c: char| c as int)
}

/// The values of a run of bytes.
pub open spec fn octets(s: Seq<u8>) -> Seq<int> {
    s.map_values(|b: u8| b as int)
}

pub proof fn codes_determine_the_text(a: Seq<char>, b: Seq<char>)
    requires
        codes(a) == codes(b),
    ensures
        a == b,
{
    assert(a.len() == codes(a).len());
    assert(b.len() == codes(b).len());
    assert forall|i: int| 0 <= i < a.len() implies a[i] == b[i] by {
        assert(codes(a)[i] == a[i] as int);
        assert(codes(b)[i] == b[i] as int);
    }
    assert(a =~= b);
}

pub proof fn octets_determine_the_bytes(a: Seq<u8>, b: Seq<u8>)
    requires
        octets(a) == octets(b),
    ensures
        a == b,
{
    assert(a.len() == octets(a).len());
    assert(b.len() == octets(b).len());
    assert forall|i: int| 0 <= i < a.len() implies a[i] == b[i] by {
        assert(octets(a)[i] == a[i] as int);
        assert(octets(b)[i] == b[i] as int);
    }
    assert(a =~= b);
}

/// Whether one run of characters comes before another in dictionary order.
pub fn chars_precede(a: &Vec<char>, b: &Vec<char>) -> (r: bool)
    ensures
        r == dictionary(codes(a@), codes(b@)),
{
    let mut i: usize = 0;
    proof {
        assert(codes(a@).skip(0) =~= codes(a@));
        assert(codes(b@).skip(0) =~= codes(b@));
    }
    while i < a.len() && i < b.len()
        invariant
            i <= a.len(),
            i <= b.len(),
            dictionary(codes(a@), codes(b@)) == dictionary(
                codes(a@).skip(i as int),
                codes(b@).skip(i as int),
            ),
        decreases a.len() - i,
    {
        let x: char = a[i];
        let y: char = b[i];
        proof {
            assert(codes(a@).skip(i as int)[0] == x as int);
            assert(codes(b@).skip(i as int)[0] == y as int);
            assert(codes(a@).skip(i as int).drop_first() =~= codes(a@).skip(i + 1));
            assert(codes(b@).skip(i as int).drop_first() =~= codes(b@).skip(i + 1));
        }
        if x != y {
            return x < y;
        }
        i += 1;
    }
    i < b.len()
}

pub fn octets_precede(a: &Vec<u8>, b: &Vec<u8>) -> (r: bool)
    ensures
        r == dictionary(octets(a@), octets(b@)),
{
    let mut i: usize = 0;
    proof {
        assert(octets(a@).skip(0) =~= octets(a@));
        assert(octets(b@).skip(0) =~= octets(b@));
    }
    while i < a.len() && i < b.len()
        invariant
            i <= a.len(),
            i <= b.len(),
            dictionary(octets(a@), octets(b@)) == dictionary(
                octets(a@).skip(i as int),
                octets(b@).skip(i as int),
            ),
        decreases a.len() - i,
    {
        let x: u8 = a[i];
        let y: u8 = b[i];
        proof {
            assert(octets(a@).skip(i as int)[0] == x as int);
            assert(octets(b@).skip(i as int)[0] == y as int);
            assert(octets(a@).skip(i as int).drop_first() =~= octets(a@).skip(i + 1));
            assert(octets(b@).skip(i as int).drop_first() =~= octets(b@).skip(i + 1));
        }
        if x != y {
            return x < y;
        }
        i += 1;
    }
    i < b.len()
}

impl Alike for String {
    fn same(&self, other: &String) -> (r: bool) {
        self.eq(other)
    }
}

impl Ranked for String {
    open spec fn before(a: Seq<char>, b: Seq<char>) -> bool {
        dictionary(codes(a), codes(b))
    }

    proof fn nothing_precedes_itself(a: Seq<char>) {
        dictionary_is_strict(codes(a));
    }

    proof fn precedence_chains(a: Seq<char>, b: Seq<char>, c: Seq<char>) {
        dictionary_chains(codes(a), codes(b), codes(c));
    }

    proof fn distinct_values_are_ordered(a: Seq<char>, b: Seq<char>) {
        dictionary_is_total(codes(a), codes(b));
        if codes(a) == codes(b) {
            codes_determine_the_text(a, b);
        }
    }

    fn precedes(&self, other: &String) -> (r: bool) {
        let a: Vec<char> = chars_of(self);
        let b: Vec<char> = chars_of(other);
        chars_precede(&a, &b)
    }
}

impl Alike for u64 {
    fn same(&self, other: &u64) -> (r: bool) {
        *self == *other
    }
}

impl Alike for u32 {
    fn same(&self, other: &u32) -> (r: bool) {
        *self == *other
    }
}

impl Ranked for u32 {
    open spec fn before(a: u32, b: u32) -> bool {
        a < b
    }

    proof fn nothing_precedes_itself(a: u32) {
    }

    proof fn precedence_chains(a: u32, b: u32, c: u32) {
    }

    proof fn distinct_values_are_ordered(a: u32, b: u32) {
    }

    fn precedes(&self, other: &u32) -> (r: bool) {
        *self < *other
    }
}

} // verus!
