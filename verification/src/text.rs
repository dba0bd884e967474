//! Text as a sequence of characters: lines, edges, numbers.

use vstd::prelude::*;

verus! {

/// [`String::push`] appends one character to the text.
pub assume_specification[ String::push ](s: &mut String, c: char)
    ensures
        final(s)@ == old(s)@.push(c),
;

/// The characters of a text, in order.
pub fn chars_of(text: &str) -> (out: Vec<char>)
    ensures
        out@ == text@,
{
    let mut out: Vec<char> = Vec::new();
    for c in it: text.chars()
        invariant
            out@ == text@.take(it.index()),
            it.seq() == text@,
    {
        out.push(c);
        proof {
            assert(text@.take(it.index() + 1) =~= text@.take(it.index()).push(c));
        }
    }
    proof {
        assert(text@.take(text@.len() as int) =~= text@);
    }
    out
}

/// The text made of these characters.
pub fn text_of(chars: &Vec<char>) -> (out: String)
    ensures
        out@ == chars@,
{
    let mut out: String = String::new();
    let mut i: usize = 0;
    while i < chars.len()
        invariant
            i <= chars.len(),
            out@ == chars@.take(i as int),
        decreases chars.len() - i,
    {
        out.push(chars[i]);
        proof {
            assert(chars@.take(i + 1) =~= chars@.take(i as int).push(chars@[i as int]));
        }
        i += 1;
    }
    proof {
        assert(chars@.take(chars@.len() as int) =~= chars@);
    }
    out
}

/// Part of a run of characters.
pub fn part(s: &Vec<char>, from: usize, to: usize) -> (r: Vec<char>)
    requires
        from <= to <= s.len(),
    ensures
        r@ == s@.subrange(from as int, to as int),
{
    let mut r: Vec<char> = Vec::new();
    let mut i: usize = from;
    while i < to
        invariant
            from <= i <= to <= s.len(),
            r@ =~= s@.subrange(from as int, i as int),
        decreases to - i,
    {
        r.push(s[i]);
        i += 1;
    }
    r
}

/// Add a text to the end of a run of characters.
pub fn add_text(v: &mut Vec<char>, text: &str)
    ensures
        final(v)@ == old(v)@ + text@,
{
    let mut more: Vec<char> = chars_of(text);
    v.append(&mut more);
}

/// Whether two runs of characters are the same.
pub fn same_chars(a: &Vec<char>, b: &Vec<char>) -> (r: bool)
    ensures
        r == (a@ == b@),
{
    if a.len() != b.len() {
        return false;
    }
    let mut i: usize = 0;
    while i < a.len()
        invariant
            i <= a.len(),
            a.len() == b.len(),
            forall|j: int| 0 <= j < i ==> a@[j] == b@[j],
        decreases a.len() - i,
    {
        if a[i] != b[i] {
            return false;
        }
        i += 1;
    }
    assert(a@ =~= b@);
    true
}

/// Whether a run of characters is this word.
pub fn is_word(s: &Vec<char>, word: &str) -> (r: bool)
    ensures
        r == (s@ == word@),
{
    let w: Vec<char> = chars_of(word);
    same_chars(s, &w)
}

// --- edges ----------------------------------------------------------------

/// White space, as Unicode has it.
pub open spec fn is_space(c: char) -> bool {
    let u = c as u32;
    ||| 0x09 <= u <= 0x0D
    ||| u == 0x20
    ||| u == 0x85
    ||| u == 0xA0
    ||| u == 0x1680
    ||| 0x2000 <= u <= 0x200A
    ||| u == 0x2028
    ||| u == 0x2029
    ||| u == 0x202F
    ||| u == 0x205F
    ||| u == 0x3000
}

pub fn space(c: char) -> (r: bool)
    ensures
        r == is_space(c),
{
    let u: u32 = c as u32;
    (0x09 <= u && u <= 0x0D) || u == 0x20 || u == 0x85 || u == 0xA0 || u == 0x1680 || (0x2000 <= u
        && u <= 0x200A) || u == 0x2028 || u == 0x2029 || u == 0x202F || u == 0x205F || u == 0x3000
}

/// Without the white space it begins with.
pub open spec fn trim_start(s: Seq<char>) -> Seq<char>
    decreases s.len(),
{
    if s.len() > 0 && is_space(s[0]) {
        trim_start(s.drop_first())
    } else {
        s
    }
}

/// Without the white space it ends with.
pub open spec fn trim_end(s: Seq<char>) -> Seq<char>
    decreases s.len(),
{
    if s.len() > 0 && is_space(s.last()) {
        trim_end(s.drop_last())
    } else {
        s
    }
}

/// Without the white space around it.
pub open spec fn trim(s: Seq<char>) -> Seq<char> {
    trim_end(trim_start(s))
}

pub fn trimmed(s: &Vec<char>) -> (r: Vec<char>)
    ensures
        r@ == trim(s@),
{
    let mut from: usize = 0;
    proof {
        assert(s@.skip(0) =~= s@);
    }
    while from < s.len() && space(s[from])
        invariant
            from <= s.len(),
            trim_start(s@) == trim_start(s@.skip(from as int)),
        decreases s.len() - from,
    {
        proof {
            assert(s@.skip(from as int)[0] == s@[from as int]);
            assert(s@.skip(from as int).drop_first() =~= s@.skip(from + 1));
        }
        from += 1;
    }
    proof {
        if from < s.len() {
            assert(s@.skip(from as int)[0] == s@[from as int]);
        }
        assert(trim_start(s@) == s@.skip(from as int));
        assert(s@.skip(from as int) =~= s@.subrange(from as int, s@.len() as int));
    }
    let mut to: usize = s.len();
    while to > from && space(s[to - 1])
        invariant
            from <= to <= s.len(),
            trim(s@) == trim_end(s@.subrange(from as int, to as int)),
        decreases to - from,
    {
        proof {
            let whole = s@.subrange(from as int, to as int);
            assert(whole.last() == s@[to - 1]);
            assert(whole.drop_last() =~= s@.subrange(from as int, to - 1));
        }
        to -= 1;
    }
    proof {
        let whole = s@.subrange(from as int, to as int);
        if to > from {
            assert(whole.last() == s@[to - 1]);
        }
    }
    part(s, from, to)
}

// --- taking apart -----------------------------------------------------------

/// Where a character first occurs, or the length where it does not.
pub open spec fn first_at(s: Seq<char>, c: char) -> int
    decreases s.len(),
{
    if s.len() == 0 || s[0] == c {
        0
    } else {
        1 + first_at(s.drop_first(), c)
    }
}

pub proof fn first_at_finds(s: Seq<char>, c: char)
    ensures
        0 <= first_at(s, c) <= s.len(),
        first_at(s, c) < s.len() ==> s[first_at(s, c)] == c,
        forall|i: int| 0 <= i < first_at(s, c) ==> s[i] != c,
    decreases s.len(),
{
    if s.len() > 0 && s[0] != c {
        first_at_finds(s.drop_first(), c);
        assert forall|i: int| 0 <= i < first_at(s, c) implies s[i] != c by {
            if i > 0 {
                assert(s[i] == s.drop_first()[i - 1]);
            }
        }
    }
}

pub fn find_char(s: &Vec<char>, c: char) -> (r: usize)
    ensures
        r == first_at(s@, c),
        r <= s.len(),
        r < s.len() ==> s@[r as int] == c,
        forall|i: int| 0 <= i < r ==> s@[i] != c,
{
    let mut i: usize = 0;
    proof {
        assert(s@.skip(0) =~= s@);
        first_at_finds(s@, c);
    }
    while i < s.len() && s[i] != c
        invariant
            i <= s.len(),
            first_at(s@, c) == i + first_at(s@.skip(i as int), c),
        decreases s.len() - i,
    {
        proof {
            assert(s@.skip(i as int)[0] == s@[i as int]);
            assert(s@.skip(i as int).drop_first() =~= s@.skip(i + 1));
        }
        i += 1;
    }
    proof {
        if i < s.len() {
            assert(s@.skip(i as int)[0] == s@[i as int]);
        }
    }
    i
}

/// Where a character last occurs, or -1 where it does not.
pub open spec fn last_at(s: Seq<char>, c: char) -> int
    decreases s.len(),
{
    if s.len() == 0 {
        -1
    } else if s.last() == c {
        s.len() - 1
    } else {
        last_at(s.drop_last(), c)
    }
}

pub fn find_last(s: &Vec<char>, c: char) -> (r: Option<usize>)
    ensures
        match r {
            Some(i) => i < s.len() && i == last_at(s@, c),
            None => last_at(s@, c) == -1,
        },
{
    let mut n: usize = s.len();
    proof {
        assert(s@.take(n as int) =~= s@);
    }
    while n > 0
        invariant
            n <= s.len(),
            last_at(s@, c) == last_at(s@.take(n as int), c),
        decreases n,
    {
        proof {
            assert(s@.take(n as int).last() == s@[n - 1]);
            assert(s@.take(n as int).drop_last() =~= s@.take(n - 1));
        }
        if s[n - 1] == c {
            return Some(n - 1);
        }
        n -= 1;
    }
    None
}

/// What stands before and after the first occurrence of a character.
pub open spec fn split_once(s: Seq<char>, c: char) -> Option<(Seq<char>, Seq<char>)> {
    let i = first_at(s, c);
    if i < s.len() {
        Some((s.take(i), s.skip(i + 1)))
    } else {
        None
    }
}

pub fn split_at_char(s: &Vec<char>, c: char) -> (r: Option<(Vec<char>, Vec<char>)>)
    ensures
        match r {
            Some(halves) => split_once(s@, c) == Some((halves.0@, halves.1@)),
            None => split_once(s@, c) is None,
        },
{
    let i: usize = find_char(s, c);
    if i < s.len() {
        let a: Vec<char> = part(s, 0, i);
        let b: Vec<char> = part(s, i + 1, s.len());
        proof {
            assert(a@ =~= s@.take(i as int));
            assert(b@ =~= s@.skip(i + 1));
        }
        Some((a, b))
    } else {
        None
    }
}

/// What follows a prefix.
pub open spec fn after_prefix(s: Seq<char>, prefix: Seq<char>) -> Option<Seq<char>> {
    if prefix.len() <= s.len() && s.take(prefix.len() as int) == prefix {
        Some(s.skip(prefix.len() as int))
    } else {
        None
    }
}

pub fn strip_start(s: &Vec<char>, prefix: &str) -> (r: Option<Vec<char>>)
    ensures
        r.deep_view() == after_prefix(s@, prefix@),
{
    let p: Vec<char> = chars_of(prefix);
    if p.len() > s.len() {
        return None;
    }
    let head: Vec<char> = part(s, 0, p.len());
    assert(head@ =~= s@.take(p.len() as int));
    if same_chars(&head, &p) {
        let rest: Vec<char> = part(s, p.len(), s.len());
        assert(rest@ =~= s@.skip(p.len() as int));
        assert(rest.deep_view() =~= rest@);
        Some(rest)
    } else {
        None
    }
}

/// What stands before a closing character.
pub open spec fn before_last(s: Seq<char>, c: char) -> Option<Seq<char>> {
    if s.len() > 0 && s.last() == c {
        Some(s.drop_last())
    } else {
        None
    }
}

pub fn strip_end(s: &Vec<char>, c: char) -> (r: Option<Vec<char>>)
    ensures
        r.deep_view() == before_last(s@, c),
{
    if s.len() > 0 && s[s.len() - 1] == c {
        let rest: Vec<char> = part(s, 0, s.len() - 1);
        assert(rest@ =~= s@.drop_last());
        assert(rest.deep_view() =~= rest@);
        Some(rest)
    } else {
        None
    }
}

/// A line without the carriage return that ends it.
pub open spec fn without_return(s: Seq<char>) -> Seq<char> {
    if s.len() > 0 && s.last() == '\r' {
        s.drop_last()
    } else {
        s
    }
}

/// The lines of a text: each ends with a line feed, or a carriage return and a
/// line feed; the last may end with neither.
pub open spec fn lines(s: Seq<char>) -> Seq<Seq<char>>
    decreases s.len(),
{
    let n = first_at(s, '\n');
    if s.len() == 0 {
        seq![]
    } else if 0 <= n < s.len() {
        seq![without_return(s.take(n))] + lines(s.skip(n + 1))
    } else {
        seq![s]
    }
}

pub fn lines_of(s: &Vec<char>) -> (r: Vec<Vec<char>>)
    ensures
        r.deep_view() == lines(s@),
{
    let mut r: Vec<Vec<char>> = Vec::new();
    let mut from: usize = 0;
    proof {
        assert(s@.skip(0) =~= s@);
        assert(r.deep_view() =~= Seq::<Seq<char>>::empty());
        assert(lines(s@) =~= r.deep_view() + lines(s@.skip(0)));
    }
    while from < s.len()
        invariant
            from <= s.len(),
            lines(s@) == r.deep_view() + lines(s@.skip(from as int)),
        decreases s.len() - from,
    {
        let ghost rest = s@.skip(from as int);
        let ghost earlier = r.deep_view();
        let mut to: usize = from;
        proof {
            first_at_finds(rest, '\n');
            assert(rest.skip(0) =~= rest);
        }
        while to < s.len() && s[to] != '\n'
            invariant
                from <= to <= s.len(),
                rest == s@.skip(from as int),
                first_at(rest, '\n') == to - from + first_at(rest.skip(to - from), '\n'),
            decreases s.len() - to,
        {
            proof {
                assert(rest.skip(to - from)[0] == s@[to as int]);
                assert(rest.skip(to - from).drop_first() =~= rest.skip(to + 1 - from));
            }
            to += 1;
        }
        if to < s.len() {
            proof {
                assert(rest.skip(to - from)[0] == s@[to as int]);
                assert(first_at(rest, '\n') == to - from);
                assert(rest.take(to - from) =~= s@.subrange(from as int, to as int));
                assert(rest.skip(to - from + 1) =~= s@.skip(to + 1));
            }
            let mut end: usize = to;
            if end > from && s[end - 1] == '\r' {
                end -= 1;
            }
            let line: Vec<char> = part(s, from, end);
            proof {
                assert(line@ =~= without_return(rest.take(to - from)));
                assert(line.deep_view() =~= line@);
            }
            let ghost lv = line@;
            r.push(line);
            proof {
                assert(r.deep_view() =~= earlier.push(lv));
                assert(earlier + (seq![lv] + lines(s@.skip(to + 1))) =~= earlier.push(lv) + lines(
                    s@.skip(to + 1),
                ));
            }
            from = to + 1;
        } else {
            proof {
                assert(rest.skip(to - from).len() == 0);
                assert(first_at(rest, '\n') == rest.len());
                assert(rest =~= s@.subrange(from as int, to as int));
            }
            let line: Vec<char> = part(s, from, to);
            proof {
                assert(line.deep_view() =~= line@);
            }
            let ghost lv = line@;
            r.push(line);
            proof {
                assert(r.deep_view() =~= earlier.push(lv));
                assert(s@.skip(s@.len() as int).len() == 0);
                assert(lines(s@.skip(s@.len() as int)) =~= seq![]);
                assert(earlier + seq![lv] =~= earlier.push(lv) + lines(s@.skip(s@.len() as int)));
            }
            from = to;
        }
    }
    proof {
        assert(s@.skip(from as int).len() == 0);
        assert(r.deep_view() + lines(s@.skip(from as int)) =~= r.deep_view());
    }
    r
}

// --- letters ----------------------------------------------------------------

/// An ASCII letter as its small form; anything else as it is.
pub open spec fn small(c: char) -> char {
    if 'A' <= c <= 'Z' {
        ((c as u8) + 32) as char
    } else {
        c
    }
}

pub open spec fn lower(s: Seq<char>) -> Seq<char> {
    s.map_values(|c: char| small(c))
}

fn small_form(c: char) -> (r: char)
    ensures
        r == small(c),
{
    if 'A' <= c && c <= 'Z' {
        let b: u8 = c as u8;
        (b + 32) as char
    } else {
        c
    }
}

pub fn lowered(s: &Vec<char>) -> (r: Vec<char>)
    ensures
        r@ == lower(s@),
{
    let mut r: Vec<char> = Vec::new();
    let mut i: usize = 0;
    while i < s.len()
        invariant
            i <= s.len(),
            r@ =~= lower(s@.take(i as int)),
        decreases s.len() - i,
    {
        r.push(small_form(s[i]));
        i += 1;
    }
    assert(s@.take(i as int) =~= s@);
    r
}

// --- numbers ----------------------------------------------------------------

pub open spec fn is_digit(c: char) -> bool {
    '0' <= c <= '9'
}

pub open spec fn digit_value(c: char) -> int {
    c as int - '0' as int
}

pub open spec fn all_digits(s: Seq<char>) -> bool {
    forall|i: int| 0 <= i < s.len() ==> is_digit(#[trigger] s[i])
}

/// The number that decimal digits spell.
pub open spec fn digits_value(s: Seq<char>) -> int
    decreases s.len(),
{
    if s.len() == 0 {
        0
    } else {
        digits_value(s.drop_last()) * 10 + digit_value(s.last())
    }
}

/// The number a text spells: decimal digits, perhaps after a plus sign, that
/// come to no more than `most`.
pub open spec fn number(s: Seq<char>, most: int) -> Option<int> {
    let digits = if s.len() > 0 && s[0] == '+' {
        s.drop_first()
    } else {
        s
    };
    if digits.len() > 0 && all_digits(digits) && digits_value(digits) <= most {
        Some(digits_value(digits))
    } else {
        None
    }
}

pub proof fn digits_value_is_natural(s: Seq<char>)
    requires
        all_digits(s),
    ensures
        digits_value(s) >= 0,
    decreases s.len(),
{
    if s.len() > 0 {
        assert(s.drop_last() =~= s.take(s.len() - 1));
        assert forall|i: int| 0 <= i < s.drop_last().len() implies is_digit(
            #[trigger] s.drop_last()[i],
        ) by {
            assert(s.drop_last()[i] == s[i]);
        }
        digits_value_is_natural(s.drop_last());
        assert(is_digit(s[s.len() - 1]));
    }
}

/// More digits spell no smaller number.
pub proof fn digits_value_grows(s: Seq<char>, n: int)
    requires
        all_digits(s),
        0 <= n <= s.len(),
    ensures
        digits_value(s.take(n)) <= digits_value(s),
    decreases s.len(),
{
    if n < s.len() {
        let front = s.drop_last();
        assert forall|i: int| 0 <= i < front.len() implies is_digit(#[trigger] front[i]) by {
            assert(front[i] == s[i]);
        }
        digits_value_grows(front, n);
        digits_value_is_natural(front);
        assert(front.take(n) =~= s.take(n));
        assert(is_digit(s[s.len() - 1]));
    } else {
        assert(s.take(n) =~= s);
    }
}

/// The number a text spells, up to `most`.
pub fn number_of(s: &Vec<char>, most: u64) -> (r: Option<u64>)
    ensures
        match r {
            Some(v) => number(s@, most as int) == Some(v as int),
            None => number(s@, most as int) is None,
        },
{
    let start: usize = if s.len() > 0 && s[0] == '+' { 1 } else { 0 };
    let ghost digits = s@.skip(start as int);
    proof {
        if start == 1 {
            assert(digits =~= s@.drop_first());
        } else {
            assert(digits =~= s@);
        }
    }
    if start == s.len() {
        return None;
    }
    let mut v: u64 = 0;
    let mut i: usize = start;
    proof {
        assert(digits.take(0) =~= Seq::<char>::empty());
    }
    while i < s.len()
        invariant
            start <= i <= s.len(),
            start < s.len(),
            digits == s@.skip(start as int),
            digits == (if s@.len() > 0 && s@[0] == '+' {
                s@.drop_first()
            } else {
                s@
            }),
            forall|k: int| 0 <= k < i - start ==> is_digit(#[trigger] digits[k]),
            v == digits_value(digits.take(i - start)),
            v <= most,
        decreases s.len() - i,
    {
        let c: char = s[i];
        let ghost n = i - start;
        proof {
            assert(digits[n] == c);
            assert(digits.take(n + 1).drop_last() =~= digits.take(n));
            assert(digits.take(n + 1).last() == c);
        }
        if !('0' <= c && c <= '9') {
            return None;
        }
        let d: u64 = (c as u64) - 48;
        proof {
            assert(d == digit_value(c));
            if all_digits(digits) {
                digits_value_grows(digits, n + 1);
            }
        }
        if v > most / 10 {
            return None;
        }
        let tens: u64 = v * 10;
        if d > most - tens {
            return None;
        }
        v = tens + d;
        i += 1;
    }
    proof {
        assert(digits.take(i - start) =~= digits);
        assert(all_digits(digits));
    }
    Some(v)
}

/// The decimal digits of a number.
pub open spec fn decimal(n: nat) -> Seq<char>
    decreases n,
{
    if n < 10 {
        seq![(n + 0x30) as char]
    } else {
        decimal(n / 10).push((n % 10 + 0x30) as char)
    }
}

pub fn decimal_of(n: u64) -> (r: Vec<char>)
    ensures
        r@ == decimal(n as nat),
    decreases n,
{
    let digit: char = ((n % 10) as u8 + 0x30) as char;
    let mut r: Vec<char> = if n < 10 {
        Vec::new()
    } else {
        decimal_of(n / 10)
    };
    let ghost before = r@;
    r.push(digit);
    proof {
        if n < 10 {
            assert(r@ =~= seq![digit]);
        }
    }
    r
}

/// The digits of a number spell that number.
pub proof fn decimal_spells_the_number(n: nat)
    ensures
        all_digits(decimal(n)),
        digits_value(decimal(n)) == n,
        decimal(n).len() > 0,
    decreases n,
{
    if n < 10 {
        let one = decimal(n);
        assert(one.drop_last() =~= Seq::<char>::empty());
        assert(digits_value(one.drop_last()) == 0);
        assert(one.last() == (n + 0x30) as char);
    } else {
        decimal_spells_the_number(n / 10);
        let front = decimal(n / 10);
        let whole = decimal(n);
        assert(whole.drop_last() =~= front);
        assert forall|i: int| 0 <= i < whole.len() implies is_digit(#[trigger] whole[i]) by {
            if i < front.len() {
                assert(whole[i] == front[i]);
            }
        }
        assert(digit_value(whole.last()) == n % 10);
    }
}

// --- UTF-16 -----------------------------------------------------------------

/// The units that encode one character.
pub open spec fn utf16_units(c: char) -> Seq<u16> {
    let u = c as u32;
    if u < 0x10000 {
        seq![u as u16]
    } else {
        seq![(0xD800 + (u - 0x10000) / 0x400) as u16, (0xDC00 + (u - 0x10000) % 0x400) as u16]
    }
}

/// A text in UTF-16.
pub open spec fn utf16(s: Seq<char>) -> Seq<u16>
    decreases s.len(),
{
    if s.len() == 0 {
        seq![]
    } else {
        utf16(s.drop_last()) + utf16_units(s.last())
    }
}

pub fn utf16_of(s: &Vec<char>) -> (r: Vec<u16>)
    ensures
        r@ == utf16(s@),
{
    let mut r: Vec<u16> = Vec::new();
    let mut i: usize = 0;
    proof {
        assert(s@.take(0) =~= Seq::<char>::empty());
    }
    while i < s.len()
        invariant
            i <= s.len(),
            r@ == utf16(s@.take(i as int)),
        decreases s.len() - i,
    {
        let c: char = s[i];
        let u: u32 = c as u32;
        let ghost before = r@;
        proof {
            assert(s@.take(i + 1).drop_last() =~= s@.take(i as int));
            assert(s@.take(i + 1).last() == c);
        }
        if u < 0x10000 {
            r.push(u as u16);
        } else {
            let rest: u32 = u - 0x10000;
            r.push((0xD800 + rest / 0x400) as u16);
            r.push((0xDC00 + rest % 0x400) as u16);
        }
        proof {
            assert(r@ =~= before + utf16_units(c));
        }
        i += 1;
    }
    proof {
        assert(s@.take(i as int) =~= s@);
    }
    r
}

} // verus!
