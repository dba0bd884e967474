//! Taking texts apart: what stands where, and what is left.

use vstd::prelude::*;

use crate::text::{
    after_prefix, before_last, decimal, decimal_spells_the_number, first_at_finds, is_digit,
    is_space, last_at, lines, lower, number, split_once, trim, trim_end, trim_start, utf16,
    utf16_units, without_return,
};

verus! {

// --- white space -----------------------------------------------------------------

/// What counts as white space: tabs and line ends, the space itself, and the
/// spaces of other scripts.
pub proof fn what_counts_as_space(c: char)
    ensures
        is_space(c) <==> ({
            let u = c as u32;
            ||| 0x09 <= u <= 0x0D
            ||| u == 0x20 || u == 0x85 || u == 0xA0
            ||| u == 0x1680
            ||| 0x2000 <= u <= 0x200A
            ||| u == 0x2028 || u == 0x2029 || u == 0x202F || u == 0x205F || u == 0x3000
        }),
{
}

/// Whether a text is nothing but white space.
pub open spec fn blank(s: Seq<char>) -> bool {
    forall|i: int| 0 <= i < s.len() ==> is_space(#[trigger] s[i])
}

proof fn the_start_is_trimmed(before: Seq<char>, s: Seq<char>)
    requires
        blank(before),
    ensures
        trim_start(before + s) == trim_start(s),
    decreases before.len(),
{
    if before.len() == 0 {
        assert(before + s =~= s);
    } else {
        let rest = before.drop_first();
        assert(is_space(before[0]));
        assert forall|i: int| 0 <= i < rest.len() implies is_space(#[trigger] rest[i]) by {
            assert(rest[i] == before[i + 1]);
        }
        the_start_is_trimmed(rest, s);
        assert((before + s).drop_first() =~= rest + s);
        assert((before + s)[0] == before[0]);
    }
}

proof fn the_end_is_trimmed(s: Seq<char>, after: Seq<char>)
    requires
        blank(after),
    ensures
        trim_end(s + after) == trim_end(s),
    decreases after.len(),
{
    if after.len() == 0 {
        assert(s + after =~= s);
    } else {
        let rest = after.drop_last();
        assert(is_space(after[after.len() - 1]));
        assert forall|i: int| 0 <= i < rest.len() implies is_space(#[trigger] rest[i]) by {
            assert(rest[i] == after[i]);
        }
        the_end_is_trimmed(s, rest);
        assert((s + after).drop_last() =~= s + rest);
        assert((s + after).last() == after.last());
    }
}

/// Trimming takes away the white space around a text, and nothing else: what
/// begins and ends with something else is left as it is.
pub proof fn only_the_space_around_is_trimmed(before: Seq<char>, s: Seq<char>, after: Seq<char>)
    requires
        blank(before),
        blank(after),
        s.len() == 0 || !is_space(s[0]) && !is_space(s[s.len() - 1]),
    ensures
        trim(before + s + after) == s,
{
    assert(before + s + after =~= before + (s + after));
    the_start_is_trimmed(before, s + after);
    if s.len() == 0 {
        assert(s + after =~= after + s);
        the_start_is_trimmed(after, s);
        assert(trim_start(s) =~= s);
        assert(trim_end(s) =~= s);
    } else {
        assert((s + after)[0] == s[0]);
        the_end_is_trimmed(s, after);
    }
}

/// A text with no white space at its ends is left as it is.
pub proof fn what_is_trimmed_stays(s: Seq<char>)
    requires
        s.len() == 0 || !is_space(s[0]) && !is_space(s[s.len() - 1]),
    ensures
        trim(s) == s,
{
    let none = Seq::<char>::empty();
    only_the_space_around_is_trimmed(none, s, none);
    assert(none + s + none =~= s);
}

// --- taking apart -------------------------------------------------------------------

/// A text falls apart at the first of the characters it is split at.
pub proof fn a_text_falls_apart_at_the_first(a: Seq<char>, c: char, b: Seq<char>)
    requires
        !a.contains(c),
    ensures
        split_once(a + seq![c] + b, c) == Some((a, b)),
        split_once(a, c) is None,
{
    let s = a + seq![c] + b;
    first_at_finds(s, c);
    first_at_finds(a, c);
    let n = crate::text::first_at(s, c);
    assert(s[a.len() as int] == c);
    if n < a.len() {
        assert(s[n] == a[n]);
        assert(a.contains(a[n]));
    }
    assert(s.take(n) =~= a);
    assert(s.skip(n + 1) =~= b);
    let m = crate::text::first_at(a, c);
    if m < a.len() {
        assert(a.contains(a[m]));
    }
}

/// The last of a character is the one with no other behind it.
pub proof fn the_last_is_the_last(a: Seq<char>, c: char, b: Seq<char>)
    requires
        !b.contains(c),
    ensures
        last_at(a + seq![c] + b, c) == a.len(),
        last_at(b, c) == -1,
    decreases b.len(),
{
    let s = a + seq![c] + b;
    if b.len() == 0 {
        assert(s.last() == c);
    } else {
        let fewer = b.drop_last();
        assert(b.contains(b[b.len() - 1]));
        assert(!fewer.contains(c)) by {
            if fewer.contains(c) {
                let j = choose|j: int| 0 <= j < fewer.len() && fewer[j] == c;
                assert(b[j] == c);
            }
        }
        the_last_is_the_last(a, c, fewer);
        assert(s.drop_last() =~= a + seq![c] + fewer);
        assert(s.last() == b.last());
    }
}

/// A prefix is taken off a text that begins with it, and of no other; a closing
/// character off one that ends with it.
pub proof fn what_follows_and_what_precedes(prefix: Seq<char>, rest: Seq<char>, s: Seq<char>, c: char)
    ensures
        after_prefix(prefix + rest, prefix) == Some(rest),
        after_prefix(s, prefix) is Some ==> s == prefix + after_prefix(s, prefix)->0,
        before_last(s.push(c), c) == Some(s),
        s.len() == 0 || s[s.len() - 1] != c ==> before_last(s, c) is None,
{
    let whole = prefix + rest;
    assert(whole.take(prefix.len() as int) =~= prefix);
    assert(whole.skip(prefix.len() as int) =~= rest);
    if after_prefix(s, prefix) is Some {
        assert(s =~= s.take(prefix.len() as int) + s.skip(prefix.len() as int));
    }
    assert(s.push(c).drop_last() =~= s);
}

/// A text is read line by line: a line feed ends a line, with or without a
/// carriage return before it, and the last line may end with neither.
pub proof fn a_text_is_read_line_by_line(line: Seq<char>, rest: Seq<char>)
    requires
        !line.contains('\n'),
    ensures
        line.len() == 0 || line[line.len() - 1] != '\r' ==> lines(line + seq!['\n'] + rest) == seq![
            line,
        ] + lines(rest),
        lines(line + seq!['\r', '\n'] + rest) == seq![line] + lines(rest),
        line.len() > 0 ==> lines(line) == seq![line],
        lines(Seq::empty()) == Seq::<Seq<char>>::empty(),
{
    one_line(line, rest);
    let more = line.push('\r');
    assert(!more.contains('\n')) by {
        if more.contains('\n') {
            let j = choose|j: int| 0 <= j < more.len() && more[j] == '\n';
            assert(line[j] == '\n');
        }
    }
    one_line(more, rest);
    assert(more + seq!['\n'] + rest =~= line + seq!['\r', '\n'] + rest);
    assert(more.drop_last() =~= line);
    first_at_finds(line, '\n');
    if crate::text::first_at(line, '\n') < line.len() {
        assert(line.contains(line[crate::text::first_at(line, '\n')]));
    }
}

proof fn one_line(line: Seq<char>, rest: Seq<char>)
    requires
        !line.contains('\n'),
    ensures
        lines(line + seq!['\n'] + rest) == seq![without_return(line)] + lines(rest),
{
    let s = line + seq!['\n'] + rest;
    let n = crate::text::first_at(s, '\n');
    first_at_finds(s, '\n');
    assert(s[line.len() as int] == '\n');
    if n < line.len() {
        assert(s[n] == line[n]);
        assert(line.contains('\n'));
    }
    assert(s.take(n) =~= line);
    assert(s.skip(n + 1) =~= rest);
}

// --- letters and numbers -----------------------------------------------------------------

/// Capitals become small letters, each its own, and nothing else changes.
pub proof fn capitals_become_small(s: Seq<char>, i: int)
    requires
        0 <= i < s.len(),
    ensures
        lower(s).len() == s.len(),
        'A' <= s[i] <= 'Z' ==> lower(s)[i] as int == s[i] as int + ('a' as int - 'A' as int),
        !('A' <= s[i] <= 'Z') ==> lower(s)[i] == s[i],
{
}

/// A number is read back from its digits, unless it is more than may be; a text
/// with anything but digits in it, or none, is no number.
pub proof fn a_number_is_read_back(n: nat, most: int, s: Seq<char>, i: int)
    ensures
        n <= most ==> number(decimal(n), most) == Some(n as int),
        n > most ==> number(decimal(n), most) is None,
        n <= most ==> number(seq!['+'] + decimal(n), most) == Some(n as int),
        number(Seq::empty(), most) is None,
        0 < i < s.len() && !('0' <= s[i] <= '9') ==> number(s, most) is None,
        s.len() > 0 && !('0' <= s[0] <= '9') && s[0] != '+' ==> number(s, most) is None,
        number(seq!['+'], most) is None,
{
    decimal_spells_the_number(n);
    let d = decimal(n);
    assert(is_digit(d[0]));
    let plus = seq!['+'] + d;
    assert(plus.drop_first() =~= d);
    if 0 < i < s.len() && !('0' <= s[i] <= '9') {
        if s[0] == '+' {
            assert(!is_digit(s.drop_first()[i - 1]));
        } else {
            assert(!is_digit(s[i]));
        }
    }
    if s.len() > 0 && !('0' <= s[0] <= '9') && s[0] != '+' {
        assert(!is_digit(s[0]));
    }
    assert(seq!['+'].drop_first() =~= Seq::<char>::empty());
}

/// The digits of a number are those of its tens and then that of its ones.
pub proof fn the_digits_of_a_number(n: nat)
    ensures
        n < 10 ==> decimal(n).len() == 1 && decimal(n)[0] as int == '0' as int + n,
        n >= 10 ==> decimal(n).drop_last() == decimal(n / 10) && decimal(n).last() as int
            == '0' as int + n % 10,
{
    if n >= 10 {
        assert(decimal(n).drop_last() =~= decimal(n / 10));
    }
}

/// A character takes one unit in UTF-16, its own number, or two that make it up.
pub proof fn how_a_character_is_encoded(s: Seq<char>, c: char)
    ensures
        (c as u32) < 0x1_0000 ==> utf16(s.push(c)) == utf16(s).push(c as u16),
        c as u32 >= 0x1_0000 ==> ({
            let more = utf16(s.push(c));
            let k = utf16(s).len() as int;
            &&& more.len() == k + 2
            &&& more.take(k) == utf16(s)
            &&& 0xD800 <= more[k] < 0xDC00
            &&& 0xDC00 <= more[k + 1] < 0xE000
            &&& 0x1_0000 + 0x400 * (more[k] - 0xD800) + (more[k + 1] - 0xDC00) == c as u32
        }),
{
    vstd::utf8::char_is_scalar(c);
    assert(s.push(c).drop_last() =~= s);
    let units = utf16_units(c);
    assert((c as u32) < 0x1_0000 ==> utf16(s) + units =~= utf16(s).push(c as u16));
    assert((utf16(s) + units).take(utf16(s).len() as int) =~= utf16(s));
}

} // verus!
