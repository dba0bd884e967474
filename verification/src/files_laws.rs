//! What a list of files keeps when it changes form.

use vstd::prelude::*;
use vstd::utf8::{encode_utf8, valid_utf8};

use crate::bytes::{ascii, first_run, hex_pair, le16, mark_at_finds, number16, runs};
use crate::files::{
    drop_header, drop_list, dropped_paths, escape, escape_one, local_path, no_nulls, path_named,
    paths_named, plain, replaced, unescape_uri, unit_bytes, units, unrooted, uri, uri_lines, utf16_is_one_to_one,
    utf16_text, utf8_text, wide_path, wide_paths, wide_text, HEADER,
};
use crate::text::{after_prefix, first_at, first_at_finds, is_space, lines, trim, utf16, utf16_units};

verus! {

// --- the Windows form reads back ----------------------------------------------

/// Units written as bytes read back.
pub proof fn unit_bytes_read_back(s: Seq<u16>)
    ensures
        unit_bytes(s).len() == 2 * s.len(),
        units(unit_bytes(s)) == s,
    decreases s.len(),
{
    if s.len() > 0 {
        let fewer = s.drop_last();
        unit_bytes_read_back(fewer);
        let all = unit_bytes(s);
        let some = unit_bytes(fewer);
        assert forall|k: int| 0 <= k < s.len() implies number16(all, 2 * k) == s[k] by {
            if k < fewer.len() {
                assert(all[2 * k] == some[2 * k]);
                assert(all[2 * k + 1] == some[2 * k + 1]);
                assert(units(some)[k] == fewer[k]);
            } else {
                assert(all[2 * k] == le16(s.last())[0]);
                assert(all[2 * k + 1] == le16(s.last())[1]);
            }
        }
    }
    assert(units(unit_bytes(s)) =~= s);
}

/// A text with no null in it has none in UTF-16.
pub proof fn utf16_has_no_null(s: Seq<char>)
    requires
        !s.contains('\0'),
    ensures
        !utf16(s).contains(0),
        s.len() > 0 ==> utf16(s).len() > 0,
    decreases s.len(),
{
    if s.len() > 0 {
        assert forall|i: int| 0 <= i < s.drop_last().len() implies s.drop_last()[i] != '\0' by {
            assert(s.contains(s[i]));
        }
        utf16_has_no_null(s.drop_last());
        assert(s.contains(s[s.len() - 1]));
        assert(s.last() != '\0');
        vstd::utf8::char_is_scalar(s.last());
        let before = utf16(s.drop_last());
        let more = utf16_units(s.last());
        assert forall|i: int| 0 <= i < utf16(s).len() implies utf16(s)[i] != 0 by {
            if i < before.len() {
                assert(before.contains(before[i]));
            } else {
                assert(utf16(s)[i] == more[i - before.len()]);
                let u = s.last() as u32;
                vstd::utf8::char_u32_cast(s.last(), u);
                assert(u != 0);
                if u < 0x10000 {
                    assert(more =~= seq![u as u16]);
                } else {
                    assert(more.len() == 2);
                    assert(i - before.len() == 0 || i - before.len() == 1);
                }
            }
        }
    }
}

proof fn wide_paths_from_the_front(paths: Seq<Seq<char>>)
    requires
        paths.len() > 0,
    ensures
        wide_paths(paths) == wide_path(paths[0]) + wide_paths(paths.drop_first()),
    decreases paths.len(),
{
    let fewer = paths.drop_last();
    if paths.len() == 1 {
        assert(wide_paths(fewer) =~= seq![]);
        assert(wide_paths(paths.drop_first()) =~= seq![]);
        assert(wide_paths(paths) =~= wide_path(paths[0]) + wide_paths(paths.drop_first()));
    } else {
        wide_paths_from_the_front(fewer);
        assert(paths.drop_first().drop_last() =~= fewer.drop_first());
        assert(wide_paths(paths) =~= wide_path(paths[0]) + wide_paths(paths.drop_first()));
    }
}

/// A path that a list can hold: it is not empty and holds no null, which ends
/// a path in the Windows form.
pub open spec fn holdable(path: Seq<char>) -> bool {
    path.len() > 0 && !path.contains('\0')
}

proof fn wide_paths_read_back(paths: Seq<Seq<char>>)
    requires
        forall|i: int| 0 <= i < paths.len() ==> holdable(#[trigger] paths[i]),
    ensures
        runs(wide_paths(paths).push(0), 0).map_values(wide_text()) == paths,
    decreases paths.len(),
{
    let all = wide_paths(paths).push(0);
    mark_at_finds(all, 0);
    if paths.len() == 0 {
        assert(all[0] == 0);
        assert(runs(all, 0).map_values(wide_text()) =~= paths);
    } else {
        let first = utf16(paths[0]);
        let rest = paths.drop_first();
        let more = wide_paths(rest).push(0);
        assert(holdable(paths[0]));
        wide_paths_from_the_front(paths);
        assert(all =~= first + seq![0u16] + more);
        utf16_has_no_null(paths[0]);
        first_run(first, 0, more);
        assert forall|i: int| 0 <= i < rest.len() implies holdable(#[trigger] rest[i]) by {
            assert(rest[i] == paths[i + 1]);
        }
        wide_paths_read_back(rest);
        assert(crate::files::is_utf16(first));
        utf16_is_one_to_one(utf16_text(first), paths[0]);
        let found = runs(all, 0).map_values(wide_text());
        assert forall|i: int| 0 <= i < paths.len() implies found[i] == paths[i] by {
            if i > 0 {
                assert(runs(all, 0)[i] == runs(more, 0)[i - 1]);
                assert(runs(more, 0).map_values(wide_text())[i - 1] == rest[i - 1]);
            }
        }
        assert(runs(more, 0).map_values(wide_text()).len() == rest.len());
        assert(found =~= paths);
    }
}

/// The Windows form names just the paths it was made of, in their order.
pub proof fn a_drop_list_names_its_paths(paths: Seq<Seq<char>>)
    requires
        forall|i: int| 0 <= i < paths.len() ==> holdable(#[trigger] paths[i]),
    ensures
        dropped_paths(drop_list(paths)) == Ok::<Seq<Seq<char>>, Seq<char>>(paths),
{
    let all = wide_paths(paths).push(0);
    let s = drop_list(paths);
    assert(drop_header().len() == HEADER);
    assert(s.skip(HEADER as int) =~= unit_bytes(all));
    assert(s[0] == 20 && s[1] == 0 && s[2] == 0 && s[3] == 0);
    assert(s[16] == 1 && s[17] == 0 && s[18] == 0 && s[19] == 0);
    unit_bytes_read_back(all);
    wide_paths_read_back(paths);
}

// --- a list of URIs reads back --------------------------------------------------

spec fn as_chars(b: Seq<u8>) -> Seq<char> {
    Seq::new(b.len(), |i: int| b[i] as char)
}

proof fn ascii_reads_back(b: Seq<u8>)
    requires
        forall|i: int| 0 <= i < b.len() ==> #[trigger] b[i] < 128,
    ensures
        encode_utf8(as_chars(b)) == b,
        valid_utf8(b),
        utf8_text(b) == as_chars(b),
{
    let c = as_chars(b);
    assert(vstd::utf8::is_ascii_chars(c));
    vstd::utf8::is_ascii_chars_encode_utf8(c);
    assert forall|i: int| 0 <= i < b.len() implies encode_utf8(c)[i] == b[i] by {
        assert(c[i] as u8 == b[i]);
    }
    assert(encode_utf8(c) =~= b);
    vstd::utf8::encode_utf8_valid_utf8(c);
    vstd::utf8::encode_utf8_decode_utf8(c);
}

spec fn printable(b: u8) -> bool {
    0x21 <= b <= 0x7E
}

proof fn escape_is_printable(s: Seq<u8>)
    ensures
        forall|i: int| 0 <= i < escape(s).len() ==> printable(#[trigger] escape(s)[i]),
    decreases s.len(),
{
    if s.len() > 0 {
        escape_is_printable(s.skip(1));
        let one = escape_one(s[0]);
        let more = escape(s.skip(1));
        assert forall|i: int| 0 <= i < escape(s).len() implies printable(
            #[trigger] escape(s)[i],
        ) by {
            if i < one.len() {
                assert(escape(s)[i] == one[i]);
            } else {
                assert(escape(s)[i] == more[i - one.len()]);
            }
        }
    }
}

proof fn escape_reads_back(s: Seq<u8>)
    ensures
        unescape_uri(escape(s)) == s,
    decreases s.len(),
{
    if s.len() > 0 {
        escape_reads_back(s.skip(1));
        let more = escape(s.skip(1));
        let all = escape(s);
        let b = s[0];
        if plain(b) {
            assert(all[0] == b);
            assert(all.skip(1) =~= more);
        } else {
            assert(all[0] == 0x25 && all[1] == escape_one(b)[1] && all[2] == escape_one(b)[2]);
            assert(hex_pair(all[1], all[2]) == b);
            assert(all.skip(3) =~= more);
        }
        assert(unescape_uri(all) =~= s);
    } else {
        assert(unescape_uri(escape(s)) =~= s);
    }
}

proof fn uri_is_printable(path: Seq<char>)
    ensures
        forall|i: int| 0 <= i < uri(path).len() ==> printable(#[trigger] uri(path)[i]),
        uri(path).len() >= 8,
        uri(path)[0] == 0x66,
{
    reveal_strlit("file:///");
    let head = ascii("file:///"@);
    let tail = escape(encode_utf8(unrooted(replaced(path, '\\', '/'))));
    escape_is_printable(encode_utf8(unrooted(replaced(path, '\\', '/'))));
    assert(head.len() == 8);
    assert forall|i: int| 0 <= i < uri(path).len() implies printable(#[trigger] uri(path)[i]) by {
        if i < 8 {
            assert(uri(path)[i] == head[i]);
        } else {
            assert(uri(path)[i] == tail[i - 8]);
        }
    }
    assert(uri(path)[0] == head[0]);
}

/// A path Windows could have: it names something, a slash is no part of it, and
/// it does not begin with a backslash.
pub open spec fn on_windows(path: Seq<char>) -> bool {
    path.len() > 0 && !path.contains('/') && path[0] != '\\'
}

/// A path from the root of anything else: it names something there, with one
/// slash before it and no backslash in it.
pub open spec fn from_the_root(path: Seq<char>) -> bool {
    path.len() > 1 && path[0] == '/' && path[1] != '/' && !path.contains('\\')
}

/// A path that the machine could have.
pub open spec fn at_home(path: Seq<char>, windows: bool) -> bool {
    if windows {
        on_windows(path)
    } else {
        from_the_root(path)
    }
}

proof fn first_byte_is_no_slash(q: Seq<char>)
    requires
        q.len() > 0,
        q[0] != '/',
    ensures
        encode_utf8(q).len() > 0,
        encode_utf8(q)[0] != 0x2F,
{
    let e = encode_utf8(q);
    vstd::utf8::encode_utf8_first_scalar(q);
    vstd::utf8::char_is_scalar(q[0]);
    vstd::utf8::char_u32_cast(q[0], q[0] as u32);
    if e[0] == 0x2F {
        assert(0x2Fu8 & 0x7Fu8 == 0x2Fu8) by (bit_vector);
        assert(vstd::utf8::decode_first_scalar(e) == 0x2F);
        assert(q[0] as u32 == 0x2F);
    }
}

/// Whether a path names something: it is more than slashes of either kind.
pub open spec fn names_something(path: Seq<char>) -> bool {
    unrooted(replaced(path, '\\', '/')).len() > 0
}

/// A path as it comes back to Windows: with backslashes throughout, and none of
/// those it began with.
pub open spec fn brought_back(path: Seq<char>) -> Seq<char> {
    replaced(unrooted(replaced(path, '\\', '/')), '/', '\\')
}

proof fn unrooted_is_the_end(s: Seq<char>)
    ensures
        unrooted(s).len() <= s.len(),
        unrooted(s) == s.skip(s.len() - unrooted(s).len()),
        unrooted(s).len() > 0 ==> unrooted(s)[0] != '/',
        unrooted(unrooted(s)) == unrooted(s),
    decreases s.len(),
{
    if s.len() > 0 && s[0] == '/' {
        unrooted_is_the_end(s.skip(1));
    }
    assert(unrooted(s) =~= s.skip(s.len() - unrooted(s).len()));
}

proof fn a_uri_names_a_path(path: Seq<char>, windows: bool)
    requires
        names_something(path),
    ensures
        path_named(as_chars(uri(path)), windows) == local_path(
            unrooted(replaced(path, '\\', '/')),
            windows,
        ),
{
    let line = as_chars(uri(path));
    let q = unrooted(replaced(path, '\\', '/'));
    unrooted_is_the_end(replaced(path, '\\', '/'));
    let e = encode_utf8(q);
    let tail = escape(e);
    reveal_strlit("file:///");
    reveal_strlit("file://");
    uri_is_printable(path);
    let head = ascii("file:///"@);
    assert(head.len() == 8);
    assert(forall|i: int| 0 <= i < 8 ==> uri(path)[i] == head[i]);
    assert(line.take(7) =~= "file://"@);
    let rest = line.skip(7);
    assert(after_prefix(line, "file://"@) == Some(rest));
    assert(rest[0] == '/');
    first_byte_is_no_slash(q);
    assert(tail[0] == escape_one(e[0])[0]);
    assert(tail[0] != 0x2F);
    assert(rest.skip(1) =~= as_chars(tail));
    assert(as_chars(tail)[0] != '/');
    assert(unrooted(rest.skip(1)) == as_chars(tail));
    assert(unrooted(rest) == as_chars(tail));
    escape_is_printable(e);
    assert forall|i: int| 0 <= i < tail.len() implies #[trigger] tail[i] < 128 by {
        assert(printable(tail[i]));
    }
    ascii_reads_back(tail);
    escape_reads_back(e);
    vstd::utf8::encode_utf8_valid_utf8(q);
    vstd::utf8::encode_utf8_decode_utf8(q);
    assert(utf8_text(e) == q);
}

proof fn uri_names_its_path(path: Seq<char>, windows: bool)
    requires
        at_home(path, windows),
    ensures
        names_something(path),
        path_named(as_chars(uri(path)), windows) == Some(path),
{
    let slashed = replaced(path, '\\', '/');
    let q = unrooted(slashed);
    assert(path.contains(path[0]));
    if windows {
        assert(slashed[0] != '/');
        assert(q == slashed);
        assert forall|i: int| 0 <= i < path.len() implies replaced(q, '/', '\\')[i] == path[i] by {
            assert(path.contains(path[i]));
        }
        assert(replaced(q, '/', '\\') =~= path);
    } else {
        assert forall|i: int| 0 <= i < path.len() implies slashed[i] == path[i] by {
            assert(path.contains(path[i]));
        }
        assert(slashed =~= path);
        assert(path.skip(1)[0] == path[1]);
        assert(unrooted(path.skip(1)) == path.skip(1));
        assert(q == path.skip(1));
        assert(seq!['/'] + q =~= path);
    }
    a_uri_names_a_path(path, windows);
}

proof fn a_line_and_more(line: Seq<char>, rest: Seq<char>)
    requires
        !line.contains('\n'),
    ensures
        lines(line + seq!['\r', '\n'] + rest) == seq![line] + lines(rest),
{
    let s = line + seq!['\r', '\n'] + rest;
    let n = first_at(s, '\n');
    first_at_finds(s, '\n');
    assert(s[line.len() as int] == '\r');
    assert(s[line.len() as int + 1] == '\n');
    if n < line.len() {
        assert(s[n] == line[n]);
        assert(line.contains('\n'));
    }
    assert(n == line.len() + 1);
    assert(s.take(n).drop_last() =~= line);
    assert(s.take(n).last() == '\r');
    assert(s.skip(n + 1) =~= rest);
}

spec fn uri_line() -> spec_fn(Seq<char>) -> Seq<char> {
    |p: Seq<char>| as_chars(uri(p))
}

proof fn uri_lines_from_the_front(paths: Seq<Seq<char>>)
    requires
        paths.len() > 0,
    ensures
        uri_lines(paths) == uri(paths[0]) + ascii("\r\n"@) + uri_lines(paths.drop_first()),
    decreases paths.len(),
{
    let fewer = paths.drop_last();
    if paths.len() == 1 {
        assert(uri_lines(fewer) =~= seq![]);
        assert(uri_lines(paths.drop_first()) =~= seq![]);
    } else {
        uri_lines_from_the_front(fewer);
        assert(paths.drop_first().drop_last() =~= fewer.drop_first());
    }
    assert(uri_lines(paths) =~= uri(paths[0]) + ascii("\r\n"@) + uri_lines(paths.drop_first()));
}

proof fn uri_lines_read_back(paths: Seq<Seq<char>>)
    ensures
        forall|i: int| 0 <= i < uri_lines(paths).len() ==> #[trigger] uri_lines(paths)[i] < 128,
        lines(as_chars(uri_lines(paths))) == paths.map_values(uri_line()),
    decreases paths.len(),
{
    reveal_strlit("\r\n");
    let end = ascii("\r\n"@);
    let all = uri_lines(paths);
    if paths.len() == 0 {
        assert(as_chars(all).len() == 0);
        assert(lines(as_chars(all)) =~= paths.map_values(uri_line()));
    } else {
        let first = uri(paths[0]);
        let rest = paths.drop_first();
        let more = uri_lines(rest);
        uri_lines_from_the_front(paths);
        uri_lines_read_back(rest);
        uri_is_printable(paths[0]);
        assert forall|i: int| 0 <= i < all.len() implies #[trigger] all[i] < 128 by {
            if i < first.len() {
                assert(printable(first[i]));
            } else if i < first.len() + 2 {
                assert(all[i] == end[i - first.len()]);
            } else {
                assert(all[i] == more[i - first.len() - 2]);
            }
        }
        let line = as_chars(first);
        assert forall|i: int| 0 <= i < line.len() implies line[i] != '\n' by {
            assert(printable(first[i]));
        }
        assert(as_chars(all) =~= line + seq!['\r', '\n'] + as_chars(more));
        a_line_and_more(line, as_chars(more));
        assert(seq![line] + rest.map_values(uri_line()) =~= paths.map_values(uri_line()));
    }
}

spec fn named_by_uri(windows: bool) -> spec_fn(Seq<char>) -> Seq<char> {
    |p: Seq<char>| local_path(unrooted(replaced(p, '\\', '/')), windows)->0
}

proof fn listed_uris_name_paths(paths: Seq<Seq<char>>, windows: bool)
    requires
        forall|i: int| 0 <= i < paths.len() ==> names_something(#[trigger] paths[i]),
    ensures
        paths_named(paths.map_values(uri_line()), windows) == paths.map_values(
            named_by_uri(windows),
        ),
    decreases paths.len(),
{
    let all = paths.map_values(uri_line());
    let found = paths.map_values(named_by_uri(windows));
    if paths.len() == 0 {
        assert(paths_named(all, windows) =~= found);
    } else {
        let fewer = paths.drop_last();
        assert(all.drop_last() =~= fewer.map_values(uri_line()));
        listed_uris_name_paths(fewer, windows);
        let line = as_chars(uri(paths.last()));
        assert(names_something(paths[paths.len() - 1]));
        uri_is_printable(paths.last());
        a_uri_names_a_path(paths.last(), windows);
        assert(printable(uri(paths.last())[0]));
        assert(printable(uri(paths.last())[line.len() - 1]));
        assert(!is_space(line[0]));
        assert(!is_space(line.last()));
        assert(trim(line) == line);
        assert(fewer.map_values(named_by_uri(windows)).push(named_by_uri(windows)(paths.last()))
            =~= found);
    }
}

/// A list of URIs names just the paths it was made of, in their order, whatever
/// characters are in them.
pub proof fn a_uri_list_names_its_paths(paths: Seq<Seq<char>>, windows: bool)
    requires
        forall|i: int| 0 <= i < paths.len() ==> at_home(#[trigger] paths[i], windows),
    ensures
        paths_named(lines(utf8_text(uri_lines(paths))), windows) == paths,
{
    uri_lines_read_back(paths);
    ascii_reads_back(uri_lines(paths));
    assert forall|i: int| 0 <= i < paths.len() implies names_something(#[trigger] paths[i])
        && named_by_uri(windows)(paths[i]) == paths[i] by {
        assert(at_home(paths[i], windows));
        uri_names_its_path(paths[i], windows);
        a_uri_names_a_path(paths[i], windows);
    }
    listed_uris_name_paths(paths, windows);
    assert(paths.map_values(named_by_uri(windows)) =~= paths);
}

proof fn brought_back_the_same(path: Seq<char>)
    requires
        names_something(path),
    ensures
        uri(brought_back(path)) == uri(path),
        !path.contains('\0') ==> holdable(brought_back(path)),
{
    let slashed = replaced(path, '\\', '/');
    let q = unrooted(slashed);
    let back = brought_back(path);
    unrooted_is_the_end(slashed);
    let k = slashed.len() - q.len();
    assert forall|i: int| 0 <= i < q.len() implies replaced(back, '\\', '/')[i] == q[i] by {
        assert(q[i] == slashed[i + k]);
    }
    assert(replaced(back, '\\', '/') =~= q);
    if !path.contains('\0') {
        assert forall|i: int| 0 <= i < back.len() implies back[i] != '\0' by {
            assert(q[i] == slashed[i + k]);
            assert(path.contains(path[i + k]));
        }
    }
}

proof fn the_same_uris(paths: Seq<Seq<char>>, others: Seq<Seq<char>>)
    requires
        paths.len() == others.len(),
        forall|i: int| 0 <= i < paths.len() ==> uri(#[trigger] others[i]) == uri(paths[i]),
    ensures
        uri_lines(others) == uri_lines(paths),
    decreases paths.len(),
{
    if paths.len() > 0 {
        assert forall|i: int| 0 <= i < paths.drop_last().len() implies uri(
            #[trigger] others.drop_last()[i],
        ) == uri(paths.drop_last()[i]) by {
            assert(others.drop_last()[i] == others[i]);
        }
        the_same_uris(paths.drop_last(), others.drop_last());
        assert(uri(others[others.len() - 1]) == uri(paths[paths.len() - 1]));
    }
}

/// Files copied on Windows, offered as URIs, taken back by Windows and offered
/// again are offered as they were: the same list, whatever is in their names,
/// and on whichever machine of the network they are. A path that is nothing but
/// slashes names no file and does not come back.
pub proof fn files_survive_the_trip(hdrop: Seq<u8>)
    requires
        dropped_paths(hdrop) is Ok,
        no_nulls(dropped_paths(hdrop)->Ok_0),
        forall|i: int|
            0 <= i < dropped_paths(hdrop)->Ok_0.len() ==> names_something(
                #[trigger] dropped_paths(hdrop)->Ok_0[i],
            ),
    ensures
        ({
            let paths = dropped_paths(hdrop)->Ok_0;
            let back = paths_named(lines(utf8_text(uri_lines(paths))), true);
            &&& back.len() == paths.len()
            &&& forall|i: int|
                0 <= i < paths.len() ==> #[trigger] back[i] == brought_back(paths[i])
            &&& dropped_paths(drop_list(back)) == Ok::<Seq<Seq<char>>, Seq<char>>(back)
            &&& uri_lines(dropped_paths(drop_list(back))->Ok_0) == uri_lines(paths)
        }),
{
    let paths = dropped_paths(hdrop)->Ok_0;
    let back = paths_named(lines(utf8_text(uri_lines(paths))), true);
    uri_lines_read_back(paths);
    ascii_reads_back(uri_lines(paths));
    listed_uris_name_paths(paths, true);
    assert(back == paths.map_values(named_by_uri(true)));
    assert forall|i: int| 0 <= i < back.len() implies holdable(#[trigger] back[i]) && back[i]
        == brought_back(paths[i]) && uri(back[i]) == uri(paths[i]) by {
        assert(names_something(paths[i]));
        assert(!paths[i].contains('\0'));
        brought_back_the_same(paths[i]);
    }
    a_drop_list_names_its_paths(back);
    the_same_uris(paths, back);
}

/// Paths as Windows writes them, with a drive, come back letter for letter.
pub proof fn a_path_with_a_drive_comes_back(path: Seq<char>)
    requires
        on_windows(path),
    ensures
        names_something(path),
        brought_back(path) == path,
{
    uri_names_its_path(path, true);
    a_uri_names_a_path(path, true);
}

} // verus!
