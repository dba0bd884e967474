//! The list of files Windows puts on the clipboard, and the list everything
//! else uses.
//!
//! Windows carries copied files as a small header followed by a run of paths
//! ending in two nulls. The rest of the world uses `text/uri-list`: one
//! `file://` URI per line. Copying files between the two means translating,
//! since neither will read the other's form.

use vstd::prelude::*;
use vstd::utf8::{decode_utf8, encode_utf8, valid_utf8};

use crate::bytes::{
    add_le16, add_le32, ascii, ascii_bytes, bytes_between, hex_byte, hex_pair, le16, le32, number16,
    number32, read16, read32, runs, runs_hold_no_mark, runs_of,
};
use crate::clipboard::{unusable, ClipboardError, ClipboardErrorView};
use crate::text::{
    after_prefix, chars_of, lines, lines_of, part, strip_start, text_of, trim, trimmed, utf16,
    utf16_of,
};

verus! {

// --- reading text that may be broken ------------------------------------------

/// What stands for bytes that are not UTF-8.
pub uninterp spec fn utf8_lossy(bytes: Seq<u8>) -> Seq<char>;

/// What stands for units that are not UTF-16.
pub uninterp spec fn utf16_lossy(units: Seq<u16>) -> Seq<char>;

/// The text that bytes hold; where they are not UTF-8, a text with something
/// else in place of what could not be read.
pub open spec fn utf8_text(bytes: Seq<u8>) -> Seq<char> {
    if valid_utf8(bytes) {
        decode_utf8(bytes)
    } else {
        utf8_lossy(bytes)
    }
}

/// Whether units are some text in UTF-16.
pub open spec fn is_utf16(units: Seq<u16>) -> bool {
    exists|s: Seq<char>| utf16(s) == units
}

/// The text that units hold; where they are not UTF-16, a text with something
/// else in place of what could not be read.
pub open spec fn utf16_text(units: Seq<u16>) -> Seq<char> {
    if is_utf16(units) {
        choose|s: Seq<char>| utf16(s) == units
    } else {
        utf16_lossy(units)
    }
}

/// [`String::from_utf8_lossy`]: bytes in UTF-8 become the text they encode.
/// What it makes of other bytes depends on the bytes alone, and is left to the
/// name; what could not be read is replaced by U+FFFD, so no null comes of bytes
/// that hold none.
#[verifier::external_body]
fn lossy_utf8(bytes: &[u8]) -> (r: String)
    ensures
        valid_utf8(bytes@) ==> r@ == decode_utf8(bytes@),
        !valid_utf8(bytes@) ==> r@ == utf8_lossy(bytes@),
        !bytes@.contains(0) ==> !r@.contains('\0'),
{
    String::from_utf8_lossy(bytes).into_owned()
}

/// [`String::from_utf16_lossy`]: units in UTF-16 become the text they encode.
/// What it makes of other units depends on the units alone, and is left to the
/// name; what could not be read is replaced by U+FFFD, so no null comes of units
/// that hold none.
#[verifier::external_body]
fn lossy_utf16(units: &[u16]) -> (r: String)
    ensures
        is_utf16(units@) ==> utf16(r@) == units@,
        !is_utf16(units@) ==> r@ == utf16_lossy(units@),
        !units@.contains(0) ==> !r@.contains('\0'),
{
    String::from_utf16_lossy(units)
}

pub(crate) fn text_in(bytes: &[u8]) -> (r: String)
    ensures
        r@ == utf8_text(bytes@),
        !bytes@.contains(0) ==> !r@.contains('\0'),
{
    lossy_utf8(bytes)
}

pub(crate) fn wide_text_in(units: &[u16]) -> (r: String)
    ensures
        r@ == utf16_text(units@),
        !units@.contains(0) ==> !r@.contains('\0'),
{
    let r: String = lossy_utf16(units);
    proof {
        if is_utf16(units@) {
            utf16_is_one_to_one(r@, utf16_text(units@));
        }
    }
    r
}

/// Two texts with the same UTF-16 are the same.
pub proof fn utf16_is_one_to_one(a: Seq<char>, b: Seq<char>)
    requires
        utf16(a) == utf16(b),
    ensures
        a == b,
    decreases a.len(),
{
    let u = utf16(a);
    if a.len() == 0 {
        if b.len() > 0 {
            assert(u.len() > 0);
        }
        assert(a =~= b);
    } else if b.len() == 0 {
        assert(u.len() > 0);
    } else {
        let last = u.last();
        let p = utf16(a.drop_last());
        let q = utf16(b.drop_last());
        let x = a.last() as u32;
        let y = b.last() as u32;
        vstd::utf8::char_is_scalar(a.last());
        vstd::utf8::char_is_scalar(b.last());
        if x < 0x10000 {
            assert(u.drop_last() =~= p);
            assert(last == x);
        } else {
            assert(u.take(u.len() - 2) =~= p);
            assert(last == 0xDC00 + (x - 0x10000) % 0x400);
            assert(u[u.len() - 2] == 0xD800 + (x - 0x10000) / 0x400);
        }
        if y < 0x10000 {
            assert(u.drop_last() =~= q);
            assert(last == y);
        } else {
            assert(u.take(u.len() - 2) =~= q);
            assert(last == 0xDC00 + (y - 0x10000) % 0x400);
            assert(u[u.len() - 2] == 0xD800 + (y - 0x10000) / 0x400);
        }
        assert(x == y);
        vstd::utf8::char_u32_cast(a.last(), x);
        vstd::utf8::char_u32_cast(b.last(), y);
        utf16_is_one_to_one(a.drop_last(), b.drop_last());
        assert(a =~= a.drop_last().push(a.last()));
        assert(b =~= b.drop_last().push(b.last()));
    }
}

// --- paths and URIs ------------------------------------------------------------

pub open spec fn changed(c: char, from: char, to: char) -> char {
    if c == from {
        to
    } else {
        c
    }
}

/// A text with one character in place of another.
pub open spec fn replaced(s: Seq<char>, from: char, to: char) -> Seq<char> {
    Seq::new(s.len(), |i: int| changed(s[i], from, to))
}

/// Without the slashes it begins with.
pub open spec fn unrooted(s: Seq<char>) -> Seq<char>
    decreases s.len(),
{
    if s.len() > 0 && s[0] == '/' {
        unrooted(s.skip(1))
    } else {
        s
    }
}

/// The bytes that stand for themselves in a URI here.
pub open spec fn plain(b: u8) -> bool {
    ||| 0x41 <= b <= 0x5A
    ||| 0x61 <= b <= 0x7A
    ||| 0x30 <= b <= 0x39
    ||| b == 0x2D
    ||| b == 0x2E
    ||| b == 0x5F
    ||| b == 0x7E
    ||| b == 0x2F
    ||| b == 0x3A
}

/// A digit of a number in base sixteen.
pub open spec fn hex_letter(n: int) -> u8 {
    if n < 10 {
        (0x30 + n) as u8
    } else {
        (0x41 + n - 10) as u8
    }
}

pub open spec fn escape_one(b: u8) -> Seq<u8> {
    if plain(b) {
        seq![b]
    } else {
        seq![0x25u8, hex_letter(b as int / 16), hex_letter(b as int % 16)]
    }
}

/// Bytes as a URI writes them.
pub open spec fn escape(s: Seq<u8>) -> Seq<u8>
    decreases s.len(),
{
    if s.len() == 0 {
        seq![]
    } else {
        escape_one(s[0]) + escape(s.skip(1))
    }
}

/// The bytes a URI stands for. What is not an escape stands for itself.
pub open spec fn unescape_uri(s: Seq<u8>) -> Seq<u8>
    decreases s.len(),
{
    if s.len() == 0 {
        seq![]
    } else if s[0] == 0x25 && s.len() > 2 && hex_pair(s[1], s[2]) >= 0 {
        seq![hex_pair(s[1], s[2]) as u8] + unescape_uri(s.skip(3))
    } else {
        seq![s[0]] + unescape_uri(s.skip(1))
    }
}

/// `C:\dir\file name.txt` becomes `file:///C:/dir/file%20name.txt`.
pub open spec fn uri(path: Seq<char>) -> Seq<u8> {
    ascii("file:///"@) + escape(encode_utf8(unrooted(replaced(path, '\\', '/'))))
}

/// Whether a path on Windows names a drive: a colon and a backslash stand
/// somewhere in it.
pub open spec fn has_drive(s: Seq<char>) -> bool {
    exists|i: int| 0 <= i < s.len() - 1 && #[trigger] s[i] == ':' && s[i + 1] == '\\'
}

/// The path that a URI stood for, without the slashes it began with, the way
/// Windows or anything else writes it.
pub open spec fn local_path(text: Seq<char>, windows: bool) -> Option<Seq<char>> {
    if text.len() == 0 {
        None
    } else if windows {
        Some(replaced(text, '/', '\\'))
    } else {
        Some(seq!['/'] + text)
    }
}

/// The path a line of a list names, if it names one on this machine.
pub open spec fn path_named(line: Seq<char>, windows: bool) -> Option<Seq<char>> {
    match after_prefix(line, "file://"@) {
        Some(rest) => if rest.len() > 0 && rest[0] == '/' {
            local_path(utf8_text(unescape_uri(encode_utf8(unrooted(rest)))), windows)
        } else {
            None
        },
        None => if has_drive(line) || (line.len() > 0 && line[0] == '/') {
            Some(line)
        } else {
            None
        },
    }
}

/// The paths that the lines of a list name. A list may carry comments, which
/// are not files.
pub open spec fn paths_named(lines: Seq<Seq<char>>, windows: bool) -> Seq<Seq<char>>
    decreases lines.len(),
{
    if lines.len() == 0 {
        seq![]
    } else {
        let line = trim(lines.last());
        let earlier = paths_named(lines.drop_last(), windows);
        if line.len() == 0 || line[0] == '#' {
            earlier
        } else {
            match path_named(line, windows) {
                Some(path) => earlier.push(path),
                None => earlier,
            }
        }
    }
}

/// One URI per line.
pub open spec fn uri_lines(paths: Seq<Seq<char>>) -> Seq<u8>
    decreases paths.len(),
{
    if paths.len() == 0 {
        seq![]
    } else {
        uri_lines(paths.drop_last()) + (uri(paths.last()) + ascii("\r\n"@))
    }
}

fn replace_char(s: &Vec<char>, from: char, to: char) -> (r: Vec<char>)
    ensures
        r@ == replaced(s@, from, to),
{
    let mut r: Vec<char> = Vec::new();
    let mut i: usize = 0;
    while i < s.len()
        invariant
            i <= s.len(),
            r@ =~= replaced(s@.take(i as int), from, to),
        decreases s.len() - i,
    {
        r.push(if s[i] == from { to } else { s[i] });
        i += 1;
    }
    assert(s@.take(i as int) =~= s@);
    r
}

fn unroot(s: &Vec<char>) -> (r: Vec<char>)
    ensures
        r@ == unrooted(s@),
{
    let mut i: usize = 0;
    assert(s@.skip(0) =~= s@);
    while i < s.len() && s[i] == '/'
        invariant
            i <= s.len(),
            unrooted(s@) == unrooted(s@.skip(i as int)),
        decreases s.len() - i,
    {
        assert(s@.skip(i as int)[0] == s@[i as int]);
        assert(s@.skip(i as int).skip(1) =~= s@.skip(i + 1));
        i += 1;
    }
    proof {
        if i < s.len() {
            assert(s@.skip(i as int)[0] == s@[i as int]);
        }
        assert(s@.skip(i as int) =~= s@.subrange(i as int, s@.len() as int));
    }
    part(s, i, s.len())
}

fn hex_letter_of(n: u8) -> (r: u8)
    requires
        n < 16,
    ensures
        r == hex_letter(n as int),
{
    if n < 10 {
        0x30 + n
    } else {
        0x41 + (n - 10)
    }
}

fn add_escaped(out: &mut Vec<u8>, s: &[u8])
    ensures
        final(out)@ == old(out)@ + escape(s@),
{
    let ghost start = out@;
    let mut i: usize = 0;
    proof {
        assert(s@.skip(0) =~= s@);
    }
    while i < s.len()
        invariant
            i <= s@.len(),
            start + escape(s@) == out@ + escape(s@.skip(i as int)),
        decreases s@.len() - i,
    {
        let b: u8 = s[i];
        let ghost before = out@;
        let ghost rest = s@.skip(i as int);
        proof {
            assert(rest[0] == b);
            assert(rest.skip(1) =~= s@.skip(i + 1));
            assert(before + (escape_one(b) + escape(rest.skip(1))) =~= (before + escape_one(b))
                + escape(rest.skip(1)));
        }
        let kept: bool = (0x41 <= b && b <= 0x5A) || (0x61 <= b && b <= 0x7A) || (0x30 <= b && b
            <= 0x39) || b == 0x2D || b == 0x2E || b == 0x5F || b == 0x7E || b == 0x2F || b == 0x3A;
        if kept {
            out.push(b);
        } else {
            out.push(0x25);
            out.push(hex_letter_of(b / 16));
            out.push(hex_letter_of(b % 16));
        }
        assert(out@ =~= before + escape_one(b));
        i += 1;
    }
    proof {
        assert(s@.skip(i as int).len() == 0);
        assert(out@ + escape(s@.skip(i as int)) =~= out@);
    }
}

fn unescape_bytes_of(s: &[u8]) -> (r: Vec<u8>)
    ensures
        r@ == unescape_uri(s@),
{
    let mut out: Vec<u8> = Vec::new();
    let mut i: usize = 0;
    proof {
        assert(s@.skip(0) =~= s@);
        assert(out@ + unescape_uri(s@) =~= unescape_uri(s@));
    }
    while i < s.len()
        invariant
            i <= s@.len(),
            unescape_uri(s@) == out@ + unescape_uri(s@.skip(i as int)),
        decreases s@.len() - i,
    {
        let ghost rest = s@.skip(i as int);
        let ghost before = out@;
        proof {
            assert(rest[0] == s@[i as int]);
            assert(rest.skip(1) =~= s@.skip(i + 1));
            if i + 2 < s@.len() {
                assert(rest[1] == s@[i + 1]);
                assert(rest[2] == s@[i + 2]);
                assert(rest.skip(3) =~= s@.skip(i + 3));
            }
        }
        if s[i] == 0x25 && s.len() - i > 2 {
            if let Some(b) = hex_byte(s[i + 1], s[i + 2]) {
                out.push(b);
                proof {
                    assert(before + (seq![b] + unescape_uri(rest.skip(3))) =~= before.push(b)
                        + unescape_uri(rest.skip(3)));
                }
                i += 3;
                continue ;
            }
        }
        let b: u8 = s[i];
        out.push(b);
        proof {
            assert(before + (seq![b] + unescape_uri(rest.skip(1))) =~= before.push(b)
                + unescape_uri(rest.skip(1)));
        }
        i += 1;
    }
    proof {
        assert(s@.skip(i as int).len() == 0);
        assert(out@ + unescape_uri(s@.skip(i as int)) =~= out@);
    }
    out
}

/// `C:\dir\file name.txt` becomes `file:///C:/dir/file%20name.txt`.
pub fn to_uri(path: &str) -> (r: Vec<u8>)
    ensures
        r@ == uri(path@),
{
    let chars: Vec<char> = chars_of(path);
    let slashed: Vec<char> = replace_char(&chars, '\\', '/');
    let rest: Vec<char> = unroot(&slashed);
    let text: String = text_of(&rest);
    let mut out: Vec<u8> = ascii_bytes("file:///");
    add_escaped(&mut out, text.as_str().as_bytes());
    out
}

fn names_drive(s: &Vec<char>) -> (r: bool)
    ensures
        r == has_drive(s@),
{
    let mut i: usize = 0;
    while s.len() - i > 1
        invariant
            i <= s.len(),
            forall|j: int| 0 <= j < i && j < s.len() - 1 ==> !(#[trigger] s@[j] == ':' && s@[j + 1]
                == '\\'),
        decreases s.len() - i,
    {
        if s[i] == ':' && s[i + 1] == '\\' {
            assert(s@[i as int] == ':');
            return true;
        }
        i += 1;
    }
    false
}

/// The path that a URI stood for, if it stood for one.
pub fn path_of(text: &str, windows: bool) -> (r: Option<String>)
    ensures
        match r {
            Some(path) => local_path(text@, windows) == Some(path@),
            None => local_path(text@, windows) is None,
        },
{
    let mut chars: Vec<char> = chars_of(text);
    if chars.len() == 0 {
        return None;
    }
    if windows {
        return Some(text_of(&replace_char(&chars, '/', '\\')));
    }
    let mut path: Vec<char> = Vec::new();
    path.push('/');
    path.append(&mut chars);
    assert(path@ =~= seq!['/'] + text@);
    Some(text_of(&path))
}

/// The path a line names, tolerating a plain path where a URI was expected.
///
/// `file://host/path` is not something to hand over as a local path, and
/// guessing would produce a path to nowhere. Some sources put bare paths on
/// the clipboard.
pub fn from_uri(line: &Vec<char>, windows: bool) -> (r: Option<String>)
    ensures
        match r {
            Some(path) => path_named(line@, windows) == Some(path@),
            None => path_named(line@, windows) is None,
        },
{
    match strip_start(line, "file://") {
        Some(rest) => {
            assert(rest.deep_view() =~= rest@);
            if rest.len() == 0 || rest[0] != '/' {
                return None;
            }
            let text: String = text_of(&unroot(&rest));
            let decoded: Vec<u8> = unescape_bytes_of(text.as_str().as_bytes());
            let path: String = text_in(decoded.as_slice());
            path_of(path.as_str(), windows)
        },
        None => {
            if names_drive(line) || (line.len() > 0 && line[0] == '/') {
                Some(text_of(line))
            } else {
                None
            }
        },
    }
}

/// The paths of a list of URIs.
pub fn listed_paths(text: &str, windows: bool) -> (r: Vec<String>)
    ensures
        r.deep_view() == paths_named(lines(text@), windows),
{
    let all: Vec<Vec<char>> = lines_of(&chars_of(text));
    let ghost every = lines(text@);
    let mut r: Vec<String> = Vec::new();
    let mut i: usize = 0;
    proof {
        assert(every.take(0) =~= seq![]);
        assert(r.deep_view() =~= seq![]);
    }
    while i < all.len()
        invariant
            i <= all.len(),
            every == all.deep_view(),
            r.deep_view() == paths_named(every.take(i as int), windows),
        decreases all.len() - i,
    {
        let ghost before = r.deep_view();
        proof {
            assert(every.take(i + 1).drop_last() =~= every.take(i as int));
            assert(every.take(i + 1).last() == every[i as int]);
            assert(all[i as int].deep_view() =~= all[i as int]@);
        }
        let line: Vec<char> = trimmed(&all[i]);
        if line.len() > 0 && line[0] != '#' {
            if let Some(path) = from_uri(&line, windows) {
                let ghost pv = path@;
                r.push(path);
                assert(r.deep_view() =~= before.push(pv));
            }
        }
        i += 1;
    }
    assert(every.take(i as int) =~= every);
    r
}

/// The paths that a list of URIs in bytes names on this machine.
pub fn local_paths(uri_list: &[u8], windows: bool) -> (r: Vec<String>)
    ensures
        r.deep_view() == paths_named(lines(utf8_text(uri_list@)), windows),
{
    let text: String = text_in(uri_list);
    listed_paths(text.as_str(), windows)
}

/// One URI per line, for these paths.
pub fn uri_list(paths: &Vec<String>) -> (r: Vec<u8>)
    ensures
        r@ == uri_lines(paths.deep_view()),
{
    let ghost every = paths.deep_view();
    let mut out: Vec<u8> = Vec::new();
    let mut i: usize = 0;
    assert(every.take(0) =~= seq![]);
    while i < paths.len()
        invariant
            i <= paths.len(),
            every == paths.deep_view(),
            out@ == uri_lines(every.take(i as int)),
        decreases paths.len() - i,
    {
        let ghost before = out@;
        proof {
            assert(every.take(i + 1).drop_last() =~= every.take(i as int));
            assert(every.take(i + 1).last() == paths@[i as int]@);
        }
        let mut one: Vec<u8> = to_uri(paths[i].as_str());
        let mut end: Vec<u8> = ascii_bytes("\r\n");
        one.append(&mut end);
        out.append(&mut one);
        i += 1;
    }
    assert(every.take(i as int) =~= every);
    out
}

// --- the form Windows has -------------------------------------------------------

/// An offset to the paths, a point, and two flags.
pub const HEADER: usize = 20;

/// Where the flag saying the paths are wide characters sits.
pub const WIDE_AT: usize = 16;

/// Pairs of bytes as units, without the odd byte at the end.
pub open spec fn units(s: Seq<u8>) -> Seq<u16> {
    Seq::new(s.len() / 2, |i: int| number16(s, 2 * i) as u16)
}

pub open spec fn narrow_text() -> spec_fn(Seq<u8>) -> Seq<char> {
    |s: Seq<u8>| utf8_text(s)
}

pub open spec fn wide_text() -> spec_fn(Seq<u16>) -> Seq<char> {
    |s: Seq<u16>| utf16_text(s)
}

/// The paths in the Windows form, or what is wrong with it.
pub open spec fn dropped_paths(hdrop: Seq<u8>) -> Result<Seq<Seq<char>>, Seq<char>> {
    if hdrop.len() < HEADER {
        Err("it is shorter than a header"@)
    } else {
        let offset = number32(hdrop, 0);
        if offset < HEADER || offset > hdrop.len() {
            Err("the paths begin outside it"@)
        } else if number32(hdrop, WIDE_AT as int) != 0 {
            Ok(runs(units(hdrop.skip(offset)), 0).map_values(wide_text()))
        } else {
            Ok(runs(hdrop.skip(offset), 0).map_values(narrow_text()))
        }
    }
}

/// Whether a null stands in none of these.
pub open spec fn no_nulls(paths: Seq<Seq<char>>) -> bool {
    forall|i: int| 0 <= i < paths.len() ==> !(#[trigger] paths[i]).contains('\0')
}

/// A path in wide characters, ended.
pub open spec fn wide_path(path: Seq<char>) -> Seq<u16> {
    utf16(path).push(0)
}

pub open spec fn wide_paths(paths: Seq<Seq<char>>) -> Seq<u16>
    decreases paths.len(),
{
    if paths.len() == 0 {
        seq![]
    } else {
        wide_paths(paths.drop_last()) + wide_path(paths.last())
    }
}

pub open spec fn unit_bytes(s: Seq<u16>) -> Seq<u8>
    decreases s.len(),
{
    if s.len() == 0 {
        seq![]
    } else {
        unit_bytes(s.drop_last()) + le16(s.last())
    }
}

pub open spec fn drop_header() -> Seq<u8> {
    le32(HEADER as u32) + le32(0) + le32(0) + le32(0) + le32(1)
}

/// The Windows form of a list of paths. Wide characters, so paths outside the
/// system's code page survive; a second null ends the run.
pub open spec fn drop_list(paths: Seq<Seq<char>>) -> Seq<u8> {
    drop_header() + unit_bytes(wide_paths(paths).push(0))
}

pub open spec fn complaint(why: Seq<char>) -> ClipboardErrorView {
    ClipboardErrorView::Display("the file list on the clipboard is unusable: "@ + why)
}

fn bad(why: &str) -> (r: ClipboardError)
    ensures
        r.deep_view() == complaint(why@),
{
    unusable("the file list on the clipboard is unusable: ", why)
}

pub(crate) fn units_of(s: &[u8], from: usize) -> (r: Vec<u16>)
    requires
        from <= s@.len(),
    ensures
        r@ == units(s@.skip(from as int)),
{
    let ghost rest = s@.skip(from as int);
    let mut r: Vec<u16> = Vec::new();
    let mut i: usize = from;
    while s.len() - i >= 2
        invariant
            from <= i <= s@.len(),
            rest == s@.skip(from as int),
            i - from == 2 * r@.len(),
            r@ =~= units(rest.take(i - from)),
        decreases s@.len() - i,
    {
        proof {
            let t = rest.take(i - from + 2);
            assert forall|k: int| 0 <= k < r@.len() implies units(t)[k] == units(
                rest.take(i - from),
            )[k] by {
                assert(t[2 * k] == rest.take(i - from)[2 * k]);
                assert(t[2 * k + 1] == rest.take(i - from)[2 * k + 1]);
            }
            assert(t[i - from] == s@[i as int]);
            assert(t[i - from + 1] == s@[i + 1]);
        }
        r.push(read16(s, i));
        i += 2;
    }
    proof {
        assert forall|k: int| 0 <= k < r@.len() implies units(rest)[k] == units(
            rest.take(i - from),
        )[k] by {
            assert(rest[2 * k] == rest.take(i - from)[2 * k]);
            assert(rest[2 * k + 1] == rest.take(i - from)[2 * k + 1]);
        }
        assert(r@ =~= units(rest));
    }
    r
}

fn wide_paths_in(parts: &Vec<Vec<u16>>) -> (r: Vec<String>)
    ensures
        r.deep_view() == parts.deep_view().map_values(wide_text()),
        forall|k: int|
            0 <= k < r.deep_view().len() && !parts.deep_view()[k].contains(0) ==> !(
            #[trigger] r.deep_view()[k]).contains('\0'),
{
    let mut r: Vec<String> = Vec::new();
    let mut i: usize = 0;
    while i < parts.len()
        invariant
            i <= parts.len(),
            r.deep_view() =~= parts.deep_view().take(i as int).map_values(wide_text()),
            forall|k: int|
                0 <= k < r.deep_view().len() && !parts.deep_view()[k].contains(0) ==> !(
                #[trigger] r.deep_view()[k]).contains('\0'),
        decreases parts.len() - i,
    {
        let ghost before = r.deep_view();
        let text: String = wide_text_in(parts[i].as_slice());
        let ghost t = text@;
        r.push(text);
        proof {
            assert(parts@[i as int].deep_view() =~= parts@[i as int]@);
            assert(r.deep_view() =~= before.push(t));
        }
        i += 1;
    }
    assert(parts.deep_view().take(i as int) =~= parts.deep_view());
    r
}

fn narrow_paths_in(parts: &Vec<Vec<u8>>) -> (r: Vec<String>)
    ensures
        r.deep_view() == parts.deep_view().map_values(narrow_text()),
        forall|k: int|
            0 <= k < r.deep_view().len() && !parts.deep_view()[k].contains(0) ==> !(
            #[trigger] r.deep_view()[k]).contains('\0'),
{
    let mut r: Vec<String> = Vec::new();
    let mut i: usize = 0;
    while i < parts.len()
        invariant
            i <= parts.len(),
            r.deep_view() =~= parts.deep_view().take(i as int).map_values(narrow_text()),
            forall|k: int|
                0 <= k < r.deep_view().len() && !parts.deep_view()[k].contains(0) ==> !(
                #[trigger] r.deep_view()[k]).contains('\0'),
        decreases parts.len() - i,
    {
        let ghost before = r.deep_view();
        let text: String = text_in(parts[i].as_slice());
        let ghost t = text@;
        r.push(text);
        proof {
            assert(parts@[i as int].deep_view() =~= parts@[i as int]@);
            assert(r.deep_view() =~= before.push(t));
        }
        i += 1;
    }
    assert(parts.deep_view().take(i as int) =~= parts.deep_view());
    r
}

/// Turn the Windows form into `text/uri-list`. A null ends a path in that form,
/// and so stands in none of them.
pub fn hdrop_to_uri_list(hdrop: &[u8]) -> (r: Result<Vec<u8>, ClipboardError>)
    ensures
        match dropped_paths(hdrop@) {
            Ok(paths) => r is Ok && r->Ok_0@ == uri_lines(paths) && no_nulls(paths),
            Err(why) => r is Err && r->Err_0.deep_view() == complaint(why),
        },
{
    if hdrop.len() < HEADER {
        return Err(bad("it is shorter than a header"));
    }
    let offset: usize = read32(hdrop, 0) as usize;
    let wide: bool = read32(hdrop, WIDE_AT) != 0;
    if offset < HEADER || offset > hdrop.len() {
        return Err(bad("the paths begin outside it"));
    }
    let paths: Vec<String> = if wide {
        let all: Vec<u16> = units_of(hdrop, offset);
        assert(all.deep_view() =~= all@);
        proof {
            runs_hold_no_mark(all@, 0u16);
        }
        wide_paths_in(&runs_of(&all, &0u16))
    } else {
        let all: Vec<u8> = bytes_between(hdrop, offset, hdrop.len());
        assert(all@ =~= hdrop@.skip(offset as int));
        assert(all.deep_view() =~= all@);
        proof {
            runs_hold_no_mark(all@, 0u8);
        }
        narrow_paths_in(&runs_of(&all, &0u8))
    };
    Ok(uri_list(&paths))
}

/// The Windows form of a list of paths.
pub fn hdrop_of(paths: &Vec<String>) -> (r: Vec<u8>)
    ensures
        r@ == drop_list(paths.deep_view()),
{
    let ghost every = paths.deep_view();
    let mut out: Vec<u8> = Vec::new();
    add_le32(&mut out, HEADER as u32);
    add_le32(&mut out, 0);
    add_le32(&mut out, 0);
    add_le32(&mut out, 0);
    add_le32(&mut out, 1);
    assert(out@ =~= drop_header());
    let mut i: usize = 0;
    proof {
        assert(every.take(0) =~= seq![]);
        assert(out@ =~= drop_header() + unit_bytes(wide_paths(every.take(0))));
    }
    while i < paths.len()
        invariant
            i <= paths.len(),
            every == paths.deep_view(),
            out@ == drop_header() + unit_bytes(wide_paths(every.take(i as int))),
        decreases paths.len() - i,
    {
        let ghost sofar = wide_paths(every.take(i as int));
        let units: Vec<u16> = utf16_of(&chars_of(paths[i].as_str()));
        proof {
            assert(every.take(i + 1).drop_last() =~= every.take(i as int));
            assert(every.take(i + 1).last() == paths@[i as int]@);
        }
        let mut j: usize = 0;
        proof {
            assert(sofar + units@.take(0) =~= sofar);
        }
        while j < units.len()
            invariant
                j <= units.len(),
                out@ == drop_header() + unit_bytes(sofar + units@.take(j as int)),
            decreases units.len() - j,
        {
            proof {
                let next = sofar + units@.take(j + 1);
                assert(next.drop_last() =~= sofar + units@.take(j as int));
                assert(next.last() == units@[j as int]);
                assert(drop_header() + (unit_bytes(next.drop_last()) + le16(units@[j as int]))
                    =~= out@ + le16(units@[j as int]));
            }
            add_le16(&mut out, units[j]);
            j += 1;
        }
        proof {
            let next = sofar + units@.push(0);
            assert(units@.take(j as int) =~= units@);
            assert(next.drop_last() =~= sofar + units@);
            assert(next.last() == 0);
            assert(drop_header() + (unit_bytes(next.drop_last()) + le16(0)) =~= out@ + le16(0));
        }
        add_le16(&mut out, 0);
        i += 1;
    }
    proof {
        let all = wide_paths(every).push(0);
        assert(every.take(i as int) =~= every);
        assert(all.drop_last() =~= wide_paths(every));
        assert(drop_header() + (unit_bytes(all.drop_last()) + le16(0)) =~= out@ + le16(0));
    }
    add_le16(&mut out, 0);
    out
}

/// Turn `text/uri-list` into the Windows form.
pub fn uri_list_to_hdrop(uri_list: &[u8]) -> (r: Result<Vec<u8>, ClipboardError>)
    ensures
        ({
            let paths = paths_named(lines(utf8_text(uri_list@)), true);
            if paths.len() == 0 {
                r is Err && r->Err_0.deep_view() == complaint("it names no files"@)
            } else {
                r is Ok && r->Ok_0@ == drop_list(paths)
            }
        }),
{
    let paths: Vec<String> = local_paths(uri_list, true);
    if paths.len() == 0 {
        return Err(bad("it names no files"));
    }
    Ok(hdrop_of(&paths))
}

} // verus!
