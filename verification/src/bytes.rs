//! Runs of bytes: pieces of them, and the numbers they spell.

use vstd::prelude::*;

use crate::order::Alike;
use crate::text::chars_of;

verus! {

/// The bytes of a text that is all ASCII.
pub open spec fn ascii(text: Seq<char>) -> Seq<u8> {
    text.map_values(|c: char| c as u8)
}

/// The bytes of a text that is all ASCII.
pub fn ascii_bytes(text: &str) -> (r: Vec<u8>)
    ensures
        r@ == ascii(text@),
{
    let chars: Vec<char> = chars_of(text);
    let mut r: Vec<u8> = Vec::new();
    let mut i: usize = 0;
    while i < chars.len()
        invariant
            i <= chars.len(),
            r@ =~= ascii(chars@.take(i as int)),
        decreases chars.len() - i,
    {
        r.push(chars[i] as u8);
        i += 1;
    }
    assert(chars@.take(i as int) =~= chars@);
    r
}

/// Part of a run of bytes.
pub fn bytes_between(s: &[u8], from: usize, to: usize) -> (r: Vec<u8>)
    requires
        from <= to <= s@.len(),
    ensures
        r@ == s@.subrange(from as int, to as int),
{
    let mut r: Vec<u8> = Vec::new();
    let mut i: usize = from;
    while i < to
        invariant
            from <= i <= to <= s@.len(),
            r@ =~= s@.subrange(from as int, i as int),
        decreases to - i,
    {
        r.push(s[i]);
        i += 1;
    }
    r
}

// --- little-endian numbers --------------------------------------------------

/// The two bytes of a number, the low one first.
pub open spec fn le16(n: u16) -> Seq<u8> {
    seq![(n % 256) as u8, (n / 256) as u8]
}

/// The four bytes of a number, the low one first.
pub open spec fn le32(n: u32) -> Seq<u8> {
    seq![
        (n % 256) as u8,
        (n / 256 % 256) as u8,
        (n / 65536 % 256) as u8,
        (n / 16777216) as u8,
    ]
}

/// The number two bytes spell.
pub open spec fn number16(s: Seq<u8>, at: int) -> int {
    s[at] + 256 * s[at + 1]
}

/// The number four bytes spell.
pub open spec fn number32(s: Seq<u8>, at: int) -> int {
    s[at] + 256 * s[at + 1] + 65536 * s[at + 2] + 16777216 * s[at + 3]
}

pub fn add_le16(out: &mut Vec<u8>, n: u16)
    ensures
        final(out)@ == old(out)@ + le16(n),
{
    out.push((n % 256) as u8);
    out.push((n / 256) as u8);
    assert(out@ =~= old(out)@ + le16(n));
}

pub fn add_le32(out: &mut Vec<u8>, n: u32)
    ensures
        final(out)@ == old(out)@ + le32(n),
{
    out.push((n % 256) as u8);
    out.push((n / 256 % 256) as u8);
    out.push((n / 65536 % 256) as u8);
    out.push((n / 16777216) as u8);
    assert(out@ =~= old(out)@ + le32(n));
}

pub fn read16(s: &[u8], at: usize) -> (r: u16)
    requires
        at + 2 <= s@.len(),
    ensures
        r == number16(s@, at as int),
{
    s[at] as u16 + 256 * (s[at + 1] as u16)
}

pub fn read32(s: &[u8], at: usize) -> (r: u32)
    requires
        at + 4 <= s@.len(),
    ensures
        r == number32(s@, at as int),
{
    s[at] as u32 + 256 * (s[at + 1] as u32) + 65536 * (s[at + 2] as u32) + 16777216 * (s[at
        + 3] as u32)
}

// --- hexadecimal ------------------------------------------------------------

/// What a hexadecimal digit stands for, or -1.
pub open spec fn hex_value(b: u8) -> int {
    if 0x30 <= b <= 0x39 {
        b - 0x30
    } else if 0x41 <= b <= 0x46 {
        b - 0x41 + 10
    } else if 0x61 <= b <= 0x66 {
        b - 0x61 + 10
    } else {
        -1
    }
}

/// The number two characters spell in hexadecimal, or -1. A plus sign may
/// stand in place of the first digit.
pub open spec fn hex_pair(a: u8, b: u8) -> int {
    if hex_value(a) >= 0 && hex_value(b) >= 0 {
        hex_value(a) * 16 + hex_value(b)
    } else if a == 0x2B && hex_value(b) >= 0 {
        hex_value(b)
    } else {
        -1
    }
}

fn hex_digit(b: u8) -> (r: Option<u8>)
    ensures
        match r {
            Some(v) => v == hex_value(b) && v < 16,
            None => hex_value(b) == -1,
        },
{
    if 0x30 <= b && b <= 0x39 {
        Some(b - 0x30)
    } else if 0x41 <= b && b <= 0x46 {
        Some(b - 0x41 + 10)
    } else if 0x61 <= b && b <= 0x66 {
        Some(b - 0x61 + 10)
    } else {
        None
    }
}

/// The number two characters spell in hexadecimal.
pub fn hex_byte(a: u8, b: u8) -> (r: Option<u8>)
    ensures
        match r {
            Some(v) => v == hex_pair(a, b),
            None => hex_pair(a, b) == -1,
        },
{
    match hex_digit(b) {
        Some(low) => match hex_digit(a) {
            Some(high) => Some(high * 16 + low),
            None => if a == 0x2B {
                Some(low)
            } else {
                None
            },
        },
        None => None,
    }
}

// --- runs up to a mark --------------------------------------------------------

impl Alike for u8 {
    fn same(&self, other: &Self) -> (r: bool) {
        *self == *other
    }
}

impl Alike for u16 {
    fn same(&self, other: &Self) -> (r: bool) {
        *self == *other
    }
}

/// Where a mark first stands, or the length where it does not.
pub open spec fn mark_at<V>(s: Seq<V>, mark: V) -> int
    decreases s.len(),
{
    if s.len() == 0 || s[0] == mark {
        0
    } else {
        1 + mark_at(s.drop_first(), mark)
    }
}

pub proof fn mark_at_finds<V>(s: Seq<V>, mark: V)
    ensures
        0 <= mark_at(s, mark) <= s.len(),
        mark_at(s, mark) < s.len() ==> s[mark_at(s, mark)] == mark,
        forall|i: int| 0 <= i < mark_at(s, mark) ==> s[i] != mark,
    decreases s.len(),
{
    if s.len() > 0 && s[0] != mark {
        mark_at_finds(s.drop_first(), mark);
        assert forall|i: int| 0 <= i < mark_at(s, mark) implies s[i] != mark by {
            if i > 0 {
                assert(s[i] == s.drop_first()[i - 1]);
            }
        }
    }
}

/// The runs that a mark ends, up to the first that is empty. The last need not
/// be ended.
pub open spec fn runs<V>(s: Seq<V>, mark: V) -> Seq<Seq<V>>
    decreases s.len(),
{
    let n = mark_at(s, mark);
    if n <= 0 {
        seq![]
    } else if n < s.len() {
        seq![s.take(n)] + runs(s.skip(n + 1), mark)
    } else {
        seq![s]
    }
}

pub fn runs_of<T: Copy + Alike>(s: &Vec<T>, mark: &T) -> (r: Vec<Vec<T>>)
    ensures
        r.deep_view() == runs(s.deep_view(), mark.deep_view()),
{
    let ghost all = s.deep_view();
    let ghost m = mark.deep_view();
    let mut r: Vec<Vec<T>> = Vec::new();
    let mut from: usize = 0;
    proof {
        assert(all.skip(0) =~= all);
        assert(r.deep_view() + runs(all, m) =~= runs(all, m));
    }
    while from < s.len()
        invariant
            from <= s.len(),
            all == s.deep_view(),
            m == mark.deep_view(),
            runs(all, m) == r.deep_view() + runs(all.skip(from as int), m),
        decreases s.len() - from,
    {
        let ghost rest = all.skip(from as int);
        let ghost earlier = r.deep_view();
        let mut run: Vec<T> = Vec::new();
        let mut to: usize = from;
        proof {
            mark_at_finds(rest, m);
            assert(rest.skip(0) =~= rest);
        }
        while to < s.len() && !s[to].same(mark)
            invariant
                from <= to <= s.len(),
                all == s.deep_view(),
                m == mark.deep_view(),
                rest == all.skip(from as int),
                run.deep_view() =~= rest.take(to - from),
                mark_at(rest, m) == to - from + mark_at(rest.skip(to - from), m),
            decreases s.len() - to,
        {
            proof {
                assert(rest.skip(to - from)[0] == all[to as int]);
                assert(rest.skip(to - from).drop_first() =~= rest.skip(to + 1 - from));
            }
            let ghost begun = run.deep_view();
            run.push(s[to]);
            proof {
                assert(run.deep_view() =~= begun.push(all[to as int]));
                assert(rest.take(to + 1 - from) =~= rest.take(to - from).push(all[to as int]));
            }
            to += 1;
        }
        proof {
            if to < s.len() {
                assert(rest.skip(to - from)[0] == all[to as int]);
            }
            assert(mark_at(rest, m) == to - from);
        }
        if to == from {
            assert(r.deep_view() + runs(rest, m) =~= r.deep_view());
            return r;
        }
        let ghost rv = run.deep_view();
        r.push(run);
        proof {
            assert(r.deep_view() =~= earlier.push(rv));
        }
        if to == s.len() {
            proof {
                assert(rv =~= rest);
                assert(earlier + seq![rest] =~= r.deep_view());
            }
            return r;
        }
        proof {
            assert(rest.skip(to - from + 1) =~= all.skip(to + 1));
            assert(earlier + (seq![rv] + runs(all.skip(to + 1), m)) =~= earlier.push(rv) + runs(
                all.skip(to + 1),
                m,
            ));
        }
        from = to + 1;
    }
    proof {
        assert(all.skip(from as int).len() == 0);
        assert(r.deep_view() + runs(all.skip(from as int), m) =~= r.deep_view());
    }
    r
}

/// No run holds the mark.
pub proof fn runs_hold_no_mark<V>(s: Seq<V>, mark: V)
    ensures
        forall|i: int| 0 <= i < runs(s, mark).len() ==> !(#[trigger] runs(s, mark)[i]).contains(mark),
    decreases s.len(),
{
    let n = mark_at(s, mark);
    mark_at_finds(s, mark);
    if 0 < n < s.len() {
        let more = runs(s.skip(n + 1), mark);
        runs_hold_no_mark(s.skip(n + 1), mark);
        assert forall|i: int| 0 <= i < runs(s, mark).len() implies !(#[trigger] runs(
            s,
            mark,
        )[i]).contains(mark) by {
            if i == 0 {
                assert(runs(s, mark)[0] == s.take(n));
            } else {
                assert(runs(s, mark)[i] == more[i - 1]);
            }
        }
    }
}

/// A run with no mark in it, the mark, and more: the run comes first.
pub proof fn first_run<V>(run: Seq<V>, mark: V, rest: Seq<V>)
    requires
        run.len() > 0,
        !run.contains(mark),
    ensures
        runs(run + seq![mark] + rest, mark) == seq![run] + runs(rest, mark),
{
    let s = run + seq![mark] + rest;
    mark_at_finds(s, mark);
    let n = mark_at(s, mark);
    assert(s[run.len() as int] == mark);
    if n < run.len() {
        assert(s[n] == run[n]);
        assert(run.contains(mark));
    }
    assert(s.take(n) =~= run);
    assert(s.skip(n + 1) =~= rest);
}

} // verus!
