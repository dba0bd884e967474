//! The wrapper Windows puts around HTML on the clipboard.
//!
//! Windows does not carry HTML as itself. It carries a small plain-text header
//! giving byte offsets into what follows, then the markup, with the part that
//! was actually selected marked off by comments. An application that hands the
//! whole thing across unchanged produces a paste beginning `Version:0.9`, and
//! one that strips the header without reading it loses the selection.
//!
//! Offsets count bytes from the start of the whole block, and are written as
//! fixed-width decimal so the header's own length does not change as they are
//! filled in.

use vstd::prelude::*;

use crate::bytes::{ascii, ascii_bytes, bytes_between};

verus! {

// --- keys ------------------------------------------------------------------

/// Whether a key stands at a place.
pub open spec fn stands_at(s: Seq<u8>, i: int, key: Seq<u8>) -> bool {
    i + key.len() <= s.len() && s.subrange(i, i + key.len()) == key
}

/// Where a key first stands, if it does.
pub open spec fn first_place(s: Seq<u8>, i: int, key: Seq<u8>) -> Option<int>
    decreases s.len() + 1 - i,
{
    if i > s.len() {
        None
    } else if stands_at(s, i, key) {
        Some(i)
    } else {
        first_place(s, i + 1, key)
    }
}

fn standing_at(s: &[u8], i: usize, key: &Vec<u8>) -> (r: bool)
    requires
        i <= s@.len(),
    ensures
        r == stands_at(s@, i as int, key@),
{
    let len: usize = s.len();
    if key.len() > len - i {
        return false;
    }
    let mut j: usize = 0;
    while j < key.len()
        invariant
            j <= key.len(),
            i + key.len() <= len,
            len == s@.len(),
            forall|k: int| 0 <= k < j ==> s@[i + k] == key@[k],
        decreases key.len() - j,
    {
        if s[i + j] != key[j] {
            proof {
                assert(s@.subrange(i as int, i + key@.len())[j as int] != key@[j as int]);
            }
            return false;
        }
        j += 1;
    }
    assert(s@.subrange(i as int, i + key@.len()) =~= key@);
    true
}

fn find_key(s: &[u8], key: &Vec<u8>) -> (r: Option<usize>)
    ensures
        match r {
            Some(i) => first_place(s@, 0, key@) == Some(i as int) && i + key@.len() <= s@.len(),
            None => first_place(s@, 0, key@) is None,
        },
{
    let mut i: usize = 0;
    while i <= s.len()
        invariant
            i <= s@.len() + 1,
            first_place(s@, 0, key@) == first_place(s@, i as int, key@),
        decreases s@.len() + 1 - i,
    {
        if standing_at(s, i, key) {
            return Some(i);
        }
        if i == s.len() {
            assert(first_place(s@, i + 1, key@) is None);
            return None;
        }
        i += 1;
    }
    None
}

// --- numbers in the header ----------------------------------------------------

/// How many bytes the white space that `s` begins with takes in UTF-8; zero
/// where it begins with none.
pub open spec fn space_width(s: Seq<u8>) -> int {
    if s.len() >= 1 && (0x09 <= s[0] <= 0x0D || s[0] == 0x20) {
        1
    } else if s.len() >= 2 && s[0] == 0xC2 && (s[1] == 0x85 || s[1] == 0xA0) {
        2
    } else if s.len() >= 3 && ((s[0] == 0xE1 && s[1] == 0x9A && s[2] == 0x80) || (s[0] == 0xE2
        && s[1] == 0x80 && (0x80 <= s[2] <= 0x8A || s[2] == 0xA8 || s[2] == 0xA9 || s[2] == 0xAF))
        || (s[0] == 0xE2 && s[1] == 0x81 && s[2] == 0x9F) || (s[0] == 0xE3 && s[1] == 0x80 && s[2]
        == 0x80)) {
        3
    } else {
        0
    }
}

pub open spec fn is_digit_byte(b: u8) -> bool {
    0x30 <= b <= 0x39
}

/// The number that the digits at the front of `s` spell, with `so_far` before
/// them.
pub open spec fn leading_number(s: Seq<u8>, so_far: int) -> int
    decreases s.len(),
{
    if s.len() > 0 && is_digit_byte(s[0]) {
        leading_number(s.drop_first(), so_far * 10 + (s[0] - 0x30))
    } else {
        so_far
    }
}

/// The number at the front of `s`, after any white space, if there is one and
/// a size can hold it.
pub open spec fn spelled(s: Seq<u8>) -> Option<int>
    decreases s.len(),
{
    if space_width(s) > 0 {
        spelled(s.skip(space_width(s)))
    } else if s.len() > 0 && is_digit_byte(s[0]) && leading_number(s, 0) <= usize::MAX {
        Some(leading_number(s, 0))
    } else {
        None
    }
}

/// The number that follows the first occurrence of a key.
pub open spec fn number_after(block: Seq<u8>, key: Seq<u8>) -> Option<int> {
    match first_place(block, 0, key) {
        Some(i) => spelled(block.skip(i + key.len())),
        None => None,
    }
}

fn space_at(s: &[u8], i: usize) -> (r: usize)
    requires
        i <= s@.len(),
    ensures
        r == space_width(s@.skip(i as int)),
        i + r <= s@.len(),
{
    let n: usize = s.len() - i;
    let ghost rest = s@.skip(i as int);
    proof {
        if n >= 1 {
            assert(rest[0] == s@[i as int]);
        }
        if n >= 2 {
            assert(rest[1] == s@[i + 1]);
        }
        if n >= 3 {
            assert(rest[2] == s@[i + 2]);
        }
    }
    if n >= 1 && ((0x09 <= s[i] && s[i] <= 0x0D) || s[i] == 0x20) {
        1
    } else if n >= 2 && s[i] == 0xC2 && (s[i + 1] == 0x85 || s[i + 1] == 0xA0) {
        2
    } else if n >= 3 && ((s[i] == 0xE1 && s[i + 1] == 0x9A && s[i + 2] == 0x80) || (s[i] == 0xE2
        && s[i + 1] == 0x80 && ((0x80 <= s[i + 2] && s[i + 2] <= 0x8A) || s[i + 2] == 0xA8 || s[i
        + 2] == 0xA9 || s[i + 2] == 0xAF)) || (s[i] == 0xE2 && s[i + 1] == 0x81 && s[i + 2]
        == 0x9F) || (s[i] == 0xE3 && s[i + 1] == 0x80 && s[i + 2] == 0x80)) {
        3
    } else {
        0
    }
}

proof fn leading_number_grows(s: Seq<u8>, so_far: int)
    requires
        so_far >= 0,
    ensures
        leading_number(s, so_far) >= so_far,
    decreases s.len(),
{
    if s.len() > 0 && is_digit_byte(s[0]) {
        leading_number_grows(s.drop_first(), so_far * 10 + (s[0] - 0x30));
    }
}

/// The digits from `start` on, as a size.
fn digits_from(s: &[u8], start: usize) -> (r: Option<usize>)
    requires
        start <= s@.len(),
    ensures
        match r {
            Some(v) => start < s@.len() && is_digit_byte(s@[start as int]) && leading_number(
                s@.skip(start as int),
                0,
            ) == v,
            None => !(start < s@.len() && is_digit_byte(s@[start as int]) && leading_number(
                s@.skip(start as int),
                0,
            ) <= usize::MAX),
        },
{
    if start == s.len() || !(0x30 <= s[start] && s[start] <= 0x39) {
        return None;
    }
    let ghost whole = leading_number(s@.skip(start as int), 0);
    let mut v: usize = 0;
    let mut i: usize = start;
    while i < s.len() && 0x30 <= s[i] && s[i] <= 0x39
        invariant
            start <= i <= s@.len(),
            whole == leading_number(s@.skip(start as int), 0),
            whole == leading_number(s@.skip(i as int), v as int),
        decreases s@.len() - i,
    {
        let d: usize = (s[i] - 0x30) as usize;
        proof {
            assert(s@.skip(i as int)[0] == s@[i as int]);
            assert(s@.skip(i as int).drop_first() =~= s@.skip(i + 1));
            leading_number_grows(s@.skip(i + 1), v * 10 + d);
        }
        if v > (usize::MAX - d) / 10 {
            return None;
        }
        v = v * 10 + d;
        i += 1;
    }
    proof {
        if i < s@.len() {
            assert(s@.skip(i as int)[0] == s@[i as int]);
        }
    }
    Some(v)
}

fn value_after(block: &[u8], key: &str) -> (r: Option<usize>)
    ensures
        match r {
            Some(v) => number_after(block@, ascii(key@)) == Some(v as int),
            None => number_after(block@, ascii(key@)) is None,
        },
{
    let key: Vec<u8> = ascii_bytes(key);
    let len: usize = block.len();
    let mut i: usize = match find_key(block, &key) {
        Some(at) => at + key.len(),
        None => {
            return None;
        },
    };
    let ghost rest = block@.skip(i as int);
    let mut width: usize = space_at(block, i);
    while width > 0
        invariant
            i <= len,
            len == block@.len(),
            width == space_width(block@.skip(i as int)),
            i + width <= block@.len(),
            spelled(rest) == spelled(block@.skip(i as int)),
        decreases block@.len() - i,
    {
        proof {
            assert(block@.skip(i as int).skip(width as int) =~= block@.skip(i + width));
        }
        i += width;
        width = space_at(block, i);
    }
    proof {
        if i < block@.len() {
            assert(block@.skip(i as int)[0] == block@[i as int]);
        }
    }
    digits_from(block, i)
}

// --- taking apart -------------------------------------------------------------

/// Where the marked part begins and ends, by the header's account.
pub open spec fn fragment_bounds(block: Seq<u8>) -> Option<(int, int)> {
    match (
        number_after(block, ascii("StartFragment:"@)),
        number_after(block, ascii("EndFragment:"@)),
    ) {
        (Some(start), Some(end)) => if start <= end {
            Some((start, end))
        } else {
            None
        },
        _ => None,
    }
}

pub open spec fn at_most(n: int, most: nat) -> int {
    if n < most {
        n
    } else {
        most as int
    }
}

/// The marked part of a block; what follows the header where none is marked;
/// all of it where there is no header.
pub open spec fn unwrapped(block: Seq<u8>) -> Seq<u8> {
    match fragment_bounds(block) {
        Some((start, end)) => block.subrange(
            at_most(start, block.len()),
            at_most(end, block.len()),
        ),
        None => match number_after(block, ascii("StartHTML:"@)) {
            Some(at) => block.skip(at_most(at, block.len())),
            None => block,
        },
    }
}

/// Pull the fragment out of a Windows HTML clipboard block.
///
/// Falls back to everything after the header when no fragment is marked, and
/// to the input unchanged when there is no header at all -- some applications
/// put bare markup on the clipboard regardless. The header is plain ASCII, so
/// its keys and numbers are found among the bytes, whatever text surrounds
/// them.
pub fn unwrap(block: &[u8]) -> (r: Vec<u8>)
    ensures
        r@ == unwrapped(block@),
{
    let len: usize = block.len();
    let start: Option<usize> = value_after(block, "StartFragment:");
    let end: Option<usize> = value_after(block, "EndFragment:");
    if let (Some(start), Some(end)) = (start, end) {
        if start <= end {
            let from: usize = if start < len { start } else { len };
            let to: usize = if end < len { end } else { len };
            return bytes_between(block, from, to);
        }
    }
    match value_after(block, "StartHTML:") {
        Some(at) => {
            let from: usize = if at < len { at } else { len };
            let r: Vec<u8> = bytes_between(block, from, len);
            assert(r@ =~= block@.skip(from as int));
            r
        },
        None => {
            let r: Vec<u8> = bytes_between(block, 0, len);
            assert(r@ =~= block@);
            r
        },
    }
}

// --- putting together -----------------------------------------------------------

/// A number in at least so many digits, with zeros before it.
pub open spec fn padded(n: nat, width: nat) -> Seq<u8>
    decreases width, n,
{
    if width > 0 {
        padded(n / 10, (width - 1) as nat).push((0x30 + n % 10) as u8)
    } else if n > 0 {
        padded(n / 10, 0).push((0x30 + n % 10) as u8)
    } else {
        seq![]
    }
}

pub const HEADER_LEN: usize = 105;

pub const BEFORE_LEN: usize = 34;

pub const AFTER_LEN: usize = 36;

pub open spec fn before() -> Seq<u8> {
    ascii("<html><body>\r\n<!--StartFragment-->"@)
}

pub open spec fn after() -> Seq<u8> {
    ascii("<!--EndFragment-->\r\n</body>\r\n</html>"@)
}

/// The header, with the offsets in the places they have in it.
pub open spec fn header(start_html: nat, end_html: nat, start: nat, end: nat) -> Seq<u8> {
    ascii("Version:0.9\r\nStartHTML:"@) + padded(start_html, 10) + ascii("\r\nEndHTML:"@) + padded(
        end_html,
        10,
    ) + ascii("\r\nStartFragment:"@) + padded(start, 10) + ascii("\r\nEndFragment:"@) + padded(
        end,
        10,
    ) + ascii("\r\n"@)
}

/// A fragment the way Windows expects it.
pub open spec fn wrapped(fragment: Seq<u8>) -> Seq<u8> {
    let start = (HEADER_LEN + BEFORE_LEN) as nat;
    let end = start + fragment.len();
    header(HEADER_LEN as nat, end + AFTER_LEN as nat, start, end) + before() + fragment + after()
}

fn add_ascii(out: &mut Vec<u8>, text: &str)
    ensures
        final(out)@ == old(out)@ + ascii(text@),
{
    let mut more: Vec<u8> = ascii_bytes(text);
    out.append(&mut more);
}

fn add_padded(out: &mut Vec<u8>, n: u64)
    ensures
        final(out)@ == old(out)@ + padded(n as nat, 10),
{
    let mut digits: Vec<u8> = padded_bytes(n, 10);
    out.append(&mut digits);
}

fn padded_bytes(n: u64, width: u8) -> (r: Vec<u8>)
    ensures
        r@ == padded(n as nat, width as nat),
    decreases width, n,
{
    if width == 0 && n == 0 {
        return Vec::new();
    }
    let mut r: Vec<u8> = padded_bytes(
        n / 10,
        if width > 0 {
            width - 1
        } else {
            0
        },
    );
    r.push(0x30 + (n % 10) as u8);
    r
}

/// Wrap a fragment of HTML the way Windows expects it.
///
/// The offsets depend on the header's length, and the header contains the
/// offsets. Writing them at a fixed width keeps that from circling: the length
/// is known before the numbers are.
pub fn wrap(fragment: &[u8]) -> (r: Vec<u8>)
    requires
        HEADER_LEN + BEFORE_LEN + fragment@.len() + AFTER_LEN <= usize::MAX,
    ensures
        r@ == wrapped(fragment@),
{
    let start: u64 = (HEADER_LEN + BEFORE_LEN) as u64;
    let end: u64 = start + fragment.len() as u64;
    let mut out: Vec<u8> = ascii_bytes("Version:0.9\r\nStartHTML:");
    add_padded(&mut out, HEADER_LEN as u64);
    add_ascii(&mut out, "\r\nEndHTML:");
    add_padded(&mut out, end + AFTER_LEN as u64);
    add_ascii(&mut out, "\r\nStartFragment:");
    add_padded(&mut out, start);
    add_ascii(&mut out, "\r\nEndFragment:");
    add_padded(&mut out, end);
    add_ascii(&mut out, "\r\n");
    add_ascii(&mut out, "<html><body>\r\n<!--StartFragment-->");
    let mut body: Vec<u8> = bytes_between(fragment, 0, fragment.len());
    assert(body@ =~= fragment@);
    out.append(&mut body);
    add_ascii(&mut out, "<!--EndFragment-->\r\n</body>\r\n</html>");
    out
}

// --- there and back ---------------------------------------------------------------

spec fn ten_to(n: nat) -> nat
    decreases n,
{
    if n == 0 {
        1
    } else {
        10 * ten_to((n - 1) as nat)
    }
}

proof fn ten_digits_suffice()
    ensures
        ten_to(10) == 10_000_000_000,
{
    reveal_with_fuel(ten_to, 11);
}

proof fn padded_digits(n: nat, width: nat)
    requires
        n < ten_to(width),
    ensures
        padded(n, width).len() == width,
        forall|i: int| 0 <= i < width ==> is_digit_byte(#[trigger] padded(n, width)[i]),
    decreases width,
{
    if width > 0 {
        padded_digits(n / 10, (width - 1) as nat);
    }
}

proof fn padded_reads_back(n: nat, width: nat, rest: Seq<u8>)
    requires
        n < ten_to(width),
    ensures
        leading_number(padded(n, width) + rest, 0) == leading_number(rest, n as int),
    decreases width,
{
    if width == 0 {
        assert(padded(n, width) + rest =~= rest);
    } else {
        let d = (0x30 + n % 10) as u8;
        let more = seq![d] + rest;
        let fewer = (width - 1) as nat;
        assert(padded(n, width) + rest =~= padded(n / 10, fewer) + more);
        padded_reads_back(n / 10, fewer, more);
        assert(more.drop_first() =~= rest);
    }
}

proof fn spelled_padded(n: nat, rest: Seq<u8>)
    requires
        n < 10_000_000_000,
        n <= usize::MAX,
        rest.len() > 0,
        !is_digit_byte(rest[0]),
    ensures
        spelled(padded(n, 10) + rest) == Some(n as int),
{
    ten_digits_suffice();
    padded_digits(n, 10);
    padded_reads_back(n, 10, rest);
    let s = padded(n, 10) + rest;
    assert(s[0] == padded(n, 10)[0]);
}

/// A key whose first byte turns up nowhere before `to`, but for one place where
/// something else follows it, does not stand before `to`.
proof fn stands_nowhere_before(s: Seq<u8>, key: Seq<u8>, from: int, to: int, other: int, k: int)
    requires
        0 <= from <= to <= s.len(),
        0 < k < key.len(),
        forall|i: int| from <= i < to && i != other ==> #[trigger] s[i] != key[0],
        s[other + k] != key[k],
    ensures
        first_place(s, from, key) == first_place(s, to, key),
    decreases to - from,
{
    if from < to {
        if stands_at(s, from, key) {
            let part = s.subrange(from, from + key.len());
            assert(part[0] == s[from]);
            assert(part[k] == s[from + k]);
        }
        stands_nowhere_before(s, key, from + 1, to, other, k);
    }
}

/// The parts a wrapped fragment is made of.
spec fn parts(start_html: nat, end_html: nat, start: nat, end: nat, body: Seq<u8>) -> Seq<u8> {
    ascii("Version:0.9\r\nStartHTML:"@) + (padded(start_html, 10) + (ascii("\r\nEndHTML:"@) + (
    padded(end_html, 10) + (ascii("\r\nStartFragment:"@) + (padded(start, 10) + (ascii(
        "\r\nEndFragment:"@,
    ) + (padded(end, 10) + (ascii("\r\n"@) + body))))))))
}

proof fn offsets_read_back(a: nat, b: nat, c: nat, d: nat, body: Seq<u8>)
    requires
        a < 10_000_000_000,
        b < 10_000_000_000,
        c < 10_000_000_000,
        d < 10_000_000_000,
        c <= usize::MAX,
        d <= usize::MAX,
    ensures
        number_after(parts(a, b, c, d, body), ascii("StartFragment:"@)) == Some(c as int),
        number_after(parts(a, b, c, d, body), ascii("EndFragment:"@)) == Some(d as int),
{
    let w = parts(a, b, c, d, body);
    reveal_strlit("Version:0.9\r\nStartHTML:");
    reveal_strlit("\r\nEndHTML:");
    reveal_strlit("\r\nStartFragment:");
    reveal_strlit("\r\nEndFragment:");
    reveal_strlit("\r\n");
    reveal_strlit("StartFragment:");
    reveal_strlit("EndFragment:");
    ten_digits_suffice();
    padded_digits(a, 10);
    padded_digits(b, 10);
    padded_digits(c, 10);
    padded_digits(d, 10);
    let p0 = ascii("Version:0.9\r\nStartHTML:"@);
    let p1 = ascii("\r\nEndHTML:"@);
    let p2 = ascii("\r\nStartFragment:"@);
    let p3 = ascii("\r\nEndFragment:"@);
    let start_key = ascii("StartFragment:"@);
    let end_key = ascii("EndFragment:"@);
    assert(p0.len() == 23 && p1.len() == 10 && p2.len() == 16 && p3.len() == 14);
    assert(forall|i: int| 0 <= i < 23 ==> w[i] == p0[i]);
    assert(forall|i: int| 23 <= i < 33 ==> w[i] == padded(a, 10)[i - 23]);
    assert(forall|i: int| 33 <= i < 43 ==> w[i] == p1[i - 33]);
    assert(forall|i: int| 43 <= i < 53 ==> w[i] == padded(b, 10)[i - 43]);
    assert(forall|i: int| 53 <= i < 69 ==> w[i] == p2[i - 53]);
    assert(forall|i: int| 69 <= i < 79 ==> w[i] == padded(c, 10)[i - 69]);
    assert(forall|i: int| 79 <= i < 93 ==> w[i] == p3[i - 79]);
    assert(forall|i: int| 0 <= i < 23 && i != 13 ==> p0[i] != 0x53);
    assert(forall|i: int| 0 <= i < 23 ==> p0[i] != 0x45);
    assert(forall|i: int| 0 <= i < 10 ==> p1[i] != 0x53);
    assert(forall|i: int| 0 <= i < 10 && i != 2 ==> p1[i] != 0x45);
    assert(forall|i: int| 0 <= i < 16 ==> p2[i] != 0x45);
    assert(forall|i: int| 0 <= i < 55 && i != 13 ==> #[trigger] w[i] != start_key[0]);
    assert(w[18] != start_key[5]);
    stands_nowhere_before(w, start_key, 0, 55, 13, 5);
    assert(w.subrange(55, 69) =~= start_key);
    assert(stands_at(w, 55, start_key));
    let after_start = p3 + (padded(d, 10) + (ascii("\r\n"@) + body));
    assert(w.skip(69) =~= padded(c, 10) + after_start);
    assert(after_start[0] == p3[0]);
    spelled_padded(c, after_start);
    assert(forall|i: int| 0 <= i < 81 && i != 35 ==> #[trigger] w[i] != end_key[0]);
    assert(w[38] != end_key[3]);
    stands_nowhere_before(w, end_key, 0, 81, 35, 3);
    assert(w.subrange(81, 93) =~= end_key);
    assert(stands_at(w, 81, end_key));
    let after_end = ascii("\r\n"@) + body;
    assert(w.skip(93) =~= padded(d, 10) + after_end);
    assert(after_end[0] == ascii("\r\n"@)[0]);
    spelled_padded(d, after_end);
}

/// What was wrapped is what comes out again, to the byte.
pub proof fn unwrapping_gives_back_what_was_wrapped(fragment: Seq<u8>)
    requires
        HEADER_LEN + BEFORE_LEN + fragment.len() + AFTER_LEN < 10_000_000_000,
        HEADER_LEN + BEFORE_LEN + fragment.len() + AFTER_LEN <= usize::MAX,
    ensures
        unwrapped(wrapped(fragment)) == fragment,
{
    let start = (HEADER_LEN + BEFORE_LEN) as nat;
    let end = start + fragment.len();
    let all = end + AFTER_LEN as nat;
    let body = before() + fragment + after();
    let w = wrapped(fragment);
    assert(w =~= parts(HEADER_LEN as nat, all, start, end, body)) by {
        reveal_strlit("\r\n");
    }
    offsets_read_back(HEADER_LEN as nat, all, start, end, body);
    reveal_strlit("Version:0.9\r\nStartHTML:");
    reveal_strlit("\r\nEndHTML:");
    reveal_strlit("\r\nStartFragment:");
    reveal_strlit("\r\nEndFragment:");
    reveal_strlit("\r\n");
    reveal_strlit("<html><body>\r\n<!--StartFragment-->");
    reveal_strlit("<!--EndFragment-->\r\n</body>\r\n</html>");
    ten_digits_suffice();
    padded_digits(HEADER_LEN as nat, 10);
    padded_digits(all, 10);
    padded_digits(start, 10);
    padded_digits(end, 10);
    assert(header(HEADER_LEN as nat, all, start, end).len() == HEADER_LEN);
    assert(before().len() == BEFORE_LEN);
    assert(after().len() == AFTER_LEN);
    assert(w.len() == all);
    assert(w.subrange(start as int, end as int) =~= fragment);
}

/// A wrapped fragment says rightly where everything in it is: the markup, from
/// its first byte to its last, and in it the fragment, with a comment just before
/// and one just behind it.
pub proof fn the_offsets_say_where_things_are(fragment: Seq<u8>)
    requires
        HEADER_LEN + BEFORE_LEN + fragment.len() + AFTER_LEN < 10_000_000_000,
        HEADER_LEN + BEFORE_LEN + fragment.len() + AFTER_LEN <= usize::MAX,
    ensures
        ({
            let w = wrapped(fragment);
            let start = number_after(w, ascii("StartFragment:"@));
            let end = number_after(w, ascii("EndFragment:"@));
            let first = number_after(w, ascii("StartHTML:"@));
            &&& w.subrange(0, 13) == ascii("Version:0.9\r\n"@)
            &&& first is Some && 0 <= first->0 && first->0 + 6 <= w.len()
            &&& w.subrange(first->0, first->0 + 6) == ascii("<html>"@)
            &&& number_after(w, ascii("EndHTML:"@)) == Some(w.len() as int)
            &&& w.subrange(w.len() - 7, w.len() as int) == ascii("</html>"@)
            &&& start is Some && end is Some
            &&& 20 <= start->0 <= end->0 <= w.len() - 18
            &&& w.subrange(start->0 - 20, start->0) == ascii("<!--StartFragment-->"@)
            &&& w.subrange(start->0, end->0) == fragment
            &&& w.subrange(end->0, end->0 + 18) == ascii("<!--EndFragment-->"@)
        }),
{
    let start = (HEADER_LEN + BEFORE_LEN) as nat;
    let end = start + fragment.len();
    let all = end + AFTER_LEN as nat;
    let body = before() + fragment + after();
    let w = wrapped(fragment);
    assert(w =~= parts(HEADER_LEN as nat, all, start, end, body)) by {
        reveal_strlit("\r\n");
    }
    offsets_read_back(HEADER_LEN as nat, all, start, end, body);
    reveal_strlit("Version:0.9\r\nStartHTML:");
    reveal_strlit("Version:0.9\r\n");
    reveal_strlit("\r\nEndHTML:");
    reveal_strlit("\r\nStartFragment:");
    reveal_strlit("\r\nEndFragment:");
    reveal_strlit("\r\n");
    reveal_strlit("StartHTML:");
    reveal_strlit("EndHTML:");
    reveal_strlit("<html>");
    reveal_strlit("</html>");
    reveal_strlit("<!--StartFragment-->");
    reveal_strlit("<!--EndFragment-->");
    reveal_strlit("<html><body>\r\n<!--StartFragment-->");
    reveal_strlit("<!--EndFragment-->\r\n</body>\r\n</html>");
    ten_digits_suffice();
    let a = HEADER_LEN as nat;
    padded_digits(a, 10);
    padded_digits(all, 10);
    padded_digits(start, 10);
    padded_digits(end, 10);
    assert(header(a, all, start, end).len() == HEADER_LEN);
    assert(before().len() == BEFORE_LEN);
    assert(after().len() == AFTER_LEN);
    assert(w.len() == all);
    assert(w.subrange(start as int, end as int) =~= fragment);
    assert(w.subrange(start - 20, start as int) =~= ascii("<!--StartFragment-->"@));
    assert(w.subrange(end as int, end as int + 18) =~= ascii("<!--EndFragment-->"@));
    assert(w.subrange(105, 111) =~= ascii("<html>"@));
    assert(w.subrange(all - 7, all as int) =~= ascii("</html>"@));
    let p0 = ascii("Version:0.9\r\nStartHTML:"@);
    let p1 = ascii("\r\nEndHTML:"@);
    let p2 = ascii("\r\nStartFragment:"@);
    let html_key = ascii("StartHTML:"@);
    let end_key = ascii("EndHTML:"@);
    assert(forall|i: int| 0 <= i < 23 ==> w[i] == p0[i]);
    assert(forall|i: int| 23 <= i < 33 ==> w[i] == padded(a, 10)[i - 23]);
    assert(forall|i: int| 33 <= i < 43 ==> w[i] == p1[i - 33]);
    assert(forall|i: int| 43 <= i < 53 ==> w[i] == padded(all, 10)[i - 43]);
    assert(w.subrange(0, 13) =~= ascii("Version:0.9\r\n"@));
    assert(forall|i: int| 0 <= i < 23 && i != 13 ==> p0[i] != 0x53);
    assert(forall|i: int| 0 <= i < 23 ==> p0[i] != 0x45);
    assert(forall|i: int| 0 <= i < 10 && i != 2 ==> p1[i] != 0x45);
    assert(w[1] != html_key[1]);
    assert(forall|i: int| 0 <= i < 13 ==> #[trigger] w[i] != html_key[0]);
    stands_nowhere_before(w, html_key, 0, 13, 0, 1);
    assert(w.subrange(13, 23) =~= html_key);
    assert(stands_at(w, 13, html_key));
    let rest = p1 + (padded(all, 10) + (p2 + (padded(start, 10) + (ascii("\r\nEndFragment:"@) + (
    padded(end, 10) + (ascii("\r\n"@) + body))))));
    assert(w.skip(23) =~= padded(a, 10) + rest);
    assert(rest[0] == p1[0]);
    spelled_padded(a, rest);
    assert(w[1] != end_key[1]);
    assert(forall|i: int| 0 <= i < 35 ==> #[trigger] w[i] != end_key[0]);
    stands_nowhere_before(w, end_key, 0, 35, 0, 1);
    assert(w.subrange(35, 43) =~= end_key);
    assert(stands_at(w, 35, end_key));
    let more = p2 + (padded(start, 10) + (ascii("\r\nEndFragment:"@) + (padded(end, 10) + (ascii(
        "\r\n"@,
    ) + body))));
    assert(w.skip(43) =~= padded(all, 10) + more);
    assert(more[0] == p2[0]);
    spelled_padded(all, more);
}

/// What a header marks is what is taken.
pub proof fn what_is_marked_is_taken(a: nat, b: nat, c: nat, d: nat, body: Seq<u8>)
    requires
        a < 10_000_000_000 && b < 10_000_000_000 && c < 10_000_000_000 && d < 10_000_000_000,
        c <= d <= usize::MAX,
        d <= 105 + body.len(),
    ensures
        unwrapped(header(a, b, c, d) + body) == (header(a, b, c, d) + body).subrange(
            c as int,
            d as int,
        ),
{
    let block = header(a, b, c, d) + body;
    assert(block =~= parts(a, b, c, d, body)) by {
        reveal_strlit("\r\n");
    }
    offsets_read_back(a, b, c, d, body);
    ten_digits_suffice();
    padded_digits(a, 10);
    padded_digits(b, 10);
    padded_digits(c, 10);
    padded_digits(d, 10);
    reveal_strlit("Version:0.9\r\nStartHTML:");
    reveal_strlit("\r\nEndHTML:");
    reveal_strlit("\r\nStartFragment:");
    reveal_strlit("\r\nEndFragment:");
    reveal_strlit("\r\n");
    assert(header(a, b, c, d).len() == 105);
}

/// Bare markup, with no header at all, is taken as it is.
pub proof fn bare_markup_is_taken_as_it_is(bare: Seq<u8>)
    requires
        forall|i: int|
            0 <= i <= bare.len() ==> !(#[trigger] stands_at(bare, i, ascii("StartFragment:"@))),
        forall|i: int|
            0 <= i <= bare.len() ==> !(#[trigger] stands_at(bare, i, ascii("StartHTML:"@))),
    ensures
        unwrapped(bare) == bare,
{
    stands_nowhere(bare, 0, ascii("StartFragment:"@));
    stands_nowhere(bare, 0, ascii("StartHTML:"@));
    assert(number_after(bare, ascii("StartFragment:"@)) is None);
    assert(fragment_bounds(bare) is None);
}

proof fn stands_nowhere(s: Seq<u8>, i: int, key: Seq<u8>)
    requires
        0 <= i,
        forall|j: int| i <= j <= s.len() ==> !(#[trigger] stands_at(s, j, key)),
    ensures
        first_place(s, i, key) is None,
    decreases s.len() + 1 - i,
{
    if i <= s.len() {
        stands_nowhere(s, i + 1, key);
    }
}

/// Without a marked fragment, the markup is what follows the header: everything
/// from the place that the header gives.
pub proof fn an_unmarked_block_is_taken_from_its_markup_on(
    lead: Seq<u8>,
    n: nat,
    rest: Seq<u8>,
)
    requires
        n < 10_000_000_000 && n <= usize::MAX,
        forall|i: int| 0 <= i < lead.len() ==> #[trigger] lead[i] != 0x53,
        rest.len() > 0,
        !is_digit_byte(rest[0]),
        first_place(lead + ascii("StartHTML:"@) + padded(n, 10) + rest, 0, ascii("StartFragment:"@))
            is None,
        n <= lead.len() + 20 + rest.len(),
    ensures
        ({
            let block = lead + ascii("StartHTML:"@) + padded(n, 10) + rest;
            unwrapped(block) == block.skip(n as int)
        }),
{
    reveal_strlit("StartHTML:");
    let key = ascii("StartHTML:"@);
    let block = lead + key + padded(n, 10) + rest;
    let at = lead.len() as int;
    ten_digits_suffice();
    padded_digits(n, 10);
    assert forall|i: int| 0 <= i < at implies !(#[trigger] stands_at(block, i, key)) by {
        if stands_at(block, i, key) {
            assert(block.subrange(i, i + key.len())[0] == block[i]);
            assert(block[i] == lead[i]);
        }
    }
    first_place_from(block, 0, at, key);
    assert(block.subrange(at, at + 10) =~= key);
    assert(stands_at(block, at, key));
    assert(block.skip(at + 10) =~= padded(n, 10) + rest);
    spelled_padded(n, rest);
}

proof fn first_place_from(s: Seq<u8>, from: int, to: int, key: Seq<u8>)
    requires
        0 <= from <= to <= s.len(),
        forall|j: int| from <= j < to ==> !(#[trigger] stands_at(s, j, key)),
    ensures
        first_place(s, from, key) == first_place(s, to, key),
    decreases to - from,
{
    if from < to {
        first_place_from(s, from + 1, to, key);
    }
}

} // verus!
