//! The forms that things travel in, byte by byte and number by number: URIs, the
//! clipboard formats of Windows, and the words of a drag.

use vstd::prelude::*;
use vstd::utf8::encode_utf8;

use crate::bytes::{ascii, hex_value, le32, number32, runs};
use crate::clipboard::ClipboardErrorView;
use crate::files::{
    drop_header, drop_list, dropped_paths, escape, has_drive, local_path, path_named, paths_named,
    replaced, unescape_uri, units, uri, uri_lines, utf16_text, utf8_text,
};
use crate::image::{bitmap, frame_in, header_v3, picture_in, png_written, unconvertible};
use crate::proto::FormatView;
use crate::text::{after_prefix, trim};
use crate::windows::{
    changed, converted, first_form, format_with, formats_present, ids_of, native, native_form,
    offers_something, rendered, Formats, ReadingView, RenderView, WindowsView,
};
use crate::xdnd::{caught, files_in, CatcherView, DndAtoms, Drive, HappenedView, Stage, Words};
use crate::{windows_drag, xdnd};

verus! {

// --- URIs ---------------------------------------------------------------------------

/// Letters, digits and `-`, `.`, `_`, `~`, `/` and `:`, as bytes.
pub open spec fn stands_for_itself(b: u8) -> bool {
    let c = b as char;
    ||| 'a' <= c <= 'z'
    ||| 'A' <= c <= 'Z'
    ||| '0' <= c <= '9'
    ||| c == '-' || c == '.' || c == '_' || c == '~' || c == '/' || c == ':'
}

/// What a digit of a number in base sixteen looks like.
pub open spec fn digit_of(n: int) -> u8 {
    "0123456789ABCDEF"@[n] as u8
}

proof fn escape_ends(s: Seq<u8>, b: u8)
    ensures
        escape(s.push(b)) == escape(s) + escape(seq![b]),
    decreases s.len(),
{
    if s.len() == 0 {
        assert(s.push(b) =~= seq![b]);
        assert(escape(s) + escape(seq![b]) =~= escape(seq![b]));
    } else {
        escape_ends(s.skip(1), b);
        assert(s.push(b).skip(1) =~= s.skip(1).push(b));
        assert(s.push(b)[0] == s[0]);
    }
}

/// In a URI the plain bytes stand for themselves, and every other one is written
/// as a percent sign and two digits, capitals among them.
pub proof fn how_a_byte_is_written(s: Seq<u8>, b: u8)
    ensures
        escape(Seq::empty()) == Seq::<u8>::empty(),
        stands_for_itself(b) ==> escape(s.push(b)) == escape(s).push(b),
        !stands_for_itself(b) ==> escape(s.push(b)) == escape(s) + seq![
            '%' as u8,
            digit_of(b as int / 16),
            digit_of(b as int % 16),
        ],
{
    reveal_strlit("0123456789ABCDEF");
    escape_ends(s, b);
    let one = seq![b];
    let none = one.skip(1);
    assert(escape(none) =~= Seq::<u8>::empty());
    assert(escape(one) =~= crate::files::escape_one(b));
    assert(escape(s) + seq![b] =~= escape(s).push(b));
    assert(digit_of(b as int / 16) == crate::files::hex_letter(b as int / 16));
    assert(digit_of(b as int % 16) == crate::files::hex_letter(b as int % 16));
}

/// What a digit stands for, whether it is a capital or not.
pub proof fn what_a_hexadecimal_digit_stands_for(b: u8)
    ensures
        '0' as u8 <= b <= '9' as u8 ==> hex_value(b) == b - '0' as u8,
        'A' as u8 <= b <= 'F' as u8 ==> hex_value(b) == 10 + (b - 'A' as u8),
        'a' as u8 <= b <= 'f' as u8 ==> hex_value(b) == 10 + (b - 'a' as u8),
        !('0' as u8 <= b <= '9' as u8) && !('A' as u8 <= b <= 'F' as u8) && !('a' as u8 <= b
            <= 'f' as u8) ==> hex_value(b) < 0,
{
}

/// A percent sign and two digits stand for one byte, and anything else for
/// itself.
pub proof fn how_a_byte_is_read(a: u8, b: u8, c: u8, rest: Seq<u8>)
    ensures
        a != '%' as u8 ==> unescape_uri(seq![a] + rest) == seq![a] + unescape_uri(rest),
        hex_value(b) >= 0 && hex_value(c) >= 0 ==> unescape_uri(seq!['%' as u8, b, c] + rest)
            == seq![(16 * hex_value(b) + hex_value(c)) as u8] + unescape_uri(rest),
        unescape_uri(Seq::empty()) == Seq::<u8>::empty(),
        unescape_uri(seq!['%' as u8]) == seq!['%' as u8],
{
    let one = seq![a] + rest;
    assert(one[0] == a);
    assert(one.skip(1) =~= rest);
    let three = seq!['%' as u8, b, c] + rest;
    assert(three[0] == 0x25 && three[1] == b && three[2] == c);
    assert(three.skip(3) =~= rest);
    let sign = seq!['%' as u8];
    assert(unescape_uri(sign.skip(1)) =~= Seq::<u8>::empty());
    assert(unescape_uri(sign) =~= sign);
}

/// A line of a list names a file here if it is a path of this machine or a URI
/// of it; a URI of another machine, or of another kind, names none. Comments and
/// empty lines are passed over.
pub proof fn what_a_line_names(
    earlier: Seq<Seq<char>>,
    line: Seq<char>,
    text: Seq<char>,
    windows: bool,
)
    ensures
        ({
            let said = trim(line);
            let list = earlier.push(line);
            let before = paths_named(earlier, windows);
            &&& said.len() == 0 || said[0] == '#' ==> paths_named(list, windows) == before
            &&& said.len() > 0 && said[0] != '#' && path_named(said, windows) is None
                ==> paths_named(list, windows) == before
            &&& said.len() > 0 && said[0] != '#' && path_named(said, windows) is Some
                ==> paths_named(list, windows) == before.push(path_named(said, windows)->0)
        }),
        text.len() > 0 && text[0] == '/' ==> path_named(text, windows) == Some(text),
        text.len() == 0 || text[0] != '/' ==> path_named("file://"@ + text, windows) is None,
        (forall|i: int| 0 <= i < text.len() ==> #[trigger] text[i] != ':') && (text.len() == 0
            || text[0] != '/') ==> path_named(text, windows) is None,
{
    let list = earlier.push(line);
    assert(list.drop_last() =~= earlier);
    assert(list.last() == line);
    reveal_strlit("file://");
    let prefix = "file://"@;
    if text.len() > 0 && text[0] == '/' {
        if after_prefix(text, prefix) is Some {
            assert(text.take(prefix.len() as int)[0] == prefix[0]);
        }
    }
    let uri = prefix + text;
    assert(uri.take(prefix.len() as int) =~= prefix);
    assert(uri.skip(prefix.len() as int) =~= text);
    if (forall|i: int| 0 <= i < text.len() ==> #[trigger] text[i] != ':') && (text.len() == 0 || text[0]
        != '/') {
        if after_prefix(text, prefix) is Some {
            assert(text.take(prefix.len() as int)[4] == prefix[4]);
            assert(text[4] == ':');
        }
        if has_drive(text) {
            let i = choose|i: int| 0 <= i < text.len() - 1 && #[trigger] text[i] == ':' && text[i
                + 1] == '\\';
            assert(text[i] != ':');
        }
    }
}

/// A path with a drive in it, as Windows writes them, names itself.
pub proof fn a_path_with_a_drive_names_itself(text: Seq<char>, i: int, windows: bool)
    requires
        0 <= i < text.len() - 1,
        text[i] == ':',
        text[i + 1] == '\\',
        text[0] != 'f',
    ensures
        path_named(text, windows) == Some(text),
{
    reveal_strlit("file://");
    let prefix = "file://"@;
    if after_prefix(text, prefix) is Some {
        assert(text.take(prefix.len() as int)[0] == prefix[0]);
    }
    assert(has_drive(text));
}

// --- the Windows clipboard -------------------------------------------------------------

/// The numbers that Windows knows the formats by.
pub proof fn the_numbers_of_the_formats(formats: Formats, other: Seq<char>)
    ensures
        native(formats, FormatView::Text) == seq![13u32],
        native(formats, FormatView::Html) == seq![formats.html],
        native(formats, FormatView::Png) == seq![formats.png, 8u32],
        native(formats, FormatView::Uris) == seq![15u32],
        native(formats, FormatView::Other(other)).len() == 0,
{
}

/// What is on the clipboard is told by its numbers: each format is there exactly
/// when one of its numbers is.
pub proof fn what_is_there_is_told_by_the_numbers(formats: Formats, present: Seq<u32>, other: Seq<char>)
    ensures
        ({
            let there = formats_present(formats, present);
            &&& there.contains(FormatView::Text) <==> present.contains(13)
            &&& there.contains(FormatView::Html) <==> present.contains(formats.html)
            &&& there.contains(FormatView::Png) <==> present.contains(formats.png)
                || present.contains(8)
            &&& there.contains(FormatView::Uris) <==> present.contains(15)
            &&& !there.contains(FormatView::Other(other))
            &&& there.no_duplicates()
        }),
{
    let there = formats_present(formats, present);
    let t = native(formats, FormatView::Text);
    let h = native(formats, FormatView::Html);
    let p = native(formats, FormatView::Png);
    let u = native(formats, FormatView::Uris);
    assert(t[0] == 13 && h[0] == formats.html && p[0] == formats.png && p[1] == 8 && u[0] == 15);
    let a = crate::windows::if_any(present, t, FormatView::Text);
    let b = a + crate::windows::if_any(present, h, FormatView::Html);
    let c = b + crate::windows::if_any(present, p, FormatView::Png);
    assert(there == c + crate::windows::if_any(present, u, FormatView::Uris));
    assert(present.contains(13) == (a.len() == 1));
    if present.contains(13) {
        assert(there[0] == FormatView::Text);
    }
    if present.contains(formats.html) {
        assert(there[a.len() as int] == FormatView::Html);
    }
    if present.contains(formats.png) || present.contains(8) {
        assert(present.contains(p[0]) || present.contains(p[1]));
        assert(there[b.len() as int] == FormatView::Png);
    }
    if present.contains(15) {
        assert(there[c.len() as int] == FormatView::Uris);
    }
    assert forall|i: int| 0 <= i < there.len() implies ({
        let f = #[trigger] there[i];
        &&& f == FormatView::Text ==> present.contains(13) && i == 0
        &&& f == FormatView::Html ==> present.contains(formats.html) && i == a.len()
        &&& f == FormatView::Png ==> (present.contains(formats.png) || present.contains(8)) && i
            == b.len()
        &&& f == FormatView::Uris ==> present.contains(15) && i == c.len()
        &&& !(f is Other)
    }) by {}
}

/// Reading: a picture is taken as PNG where there is one, and as a bitmap only
/// where there is not; what cannot be read says so; a name that Windows has no
/// number for is refused.
pub proof fn how_the_clipboard_is_read(
    formats: Formats,
    format: FormatView,
    second: bool,
    png: Seq<u8>,
    error: ClipboardErrorView,
)
    ensures
        first_form(formats, FormatView::Text) == ReadingView::Try(13),
        first_form(formats, FormatView::Html) == ReadingView::Try(formats.html),
        first_form(formats, FormatView::Png) == ReadingView::Try(formats.png),
        first_form(formats, FormatView::Uris) == ReadingView::Try(15),
        format is Other ==> first_form(formats, format) == ReadingView::Done(
            Err(ClipboardErrorView::Refused(format)),
        ),
        png.len() > 0 ==> converted(FormatView::Png, false, Ok(png)) == ReadingView::Done(Ok(png)),
        png.len() == 0 ==> converted(FormatView::Png, false, Ok(png)) == ReadingView::Try(8),
        converted(FormatView::Png, false, Err(error)) == ReadingView::Try(8),
        !(format is Other) && !(format is Png && !second) ==> converted(format, second, Err(error))
            == ReadingView::Done(Err(error)),
{
}

/// What is put on the clipboard for another machine is read off it again as it
/// was: text, marked-up text, files and pictures, each under its own number.
pub proof fn what_is_put_there_is_read_back(
    formats: Formats,
    text: Seq<char>,
    fragment: Seq<u8>,
    png: Seq<u8>,
    as_id: u32,
    second: bool,
)
    requires
        !text.contains('\0'),
        crate::html::HEADER_LEN + crate::html::BEFORE_LEN + fragment.len() + crate::html::AFTER_LEN
            < 10_000_000_000,
        crate::html::HEADER_LEN + crate::html::BEFORE_LEN + fragment.len() + crate::html::AFTER_LEN
            <= usize::MAX,
        png.len() > 0,
    ensures
        ({
            let t = native_form(formats, FormatView::Text, as_id, encode_utf8(text));
            let h = native_form(formats, FormatView::Html, as_id, fragment);
            let p = native_form(formats, FormatView::Png, formats.png, png);
            &&& t is Ok && t->Ok_0.0 == 13
            &&& converted(FormatView::Text, second, Ok(t->Ok_0.1)) == ReadingView::Done(
                Ok(encode_utf8(text)),
            )
            &&& h is Ok && h->Ok_0.0 == formats.html
            &&& converted(FormatView::Html, second, Ok(h->Ok_0.1)) == ReadingView::Done(
                Ok(fragment),
            )
            &&& p == Ok::<(u32, Seq<u8>), ClipboardErrorView>((formats.png, png))
            &&& converted(FormatView::Png, false, Ok(p->Ok_0.1)) == ReadingView::Done(Ok(png))
        }),
{
    crate::windows::text_survives_the_windows_form(text);
    crate::html::unwrapping_gives_back_what_was_wrapped(fragment);
}

/// A list of files on Windows is read as the URIs of its paths, and a list of
/// URIs is put there as the paths they name.
pub proof fn files_go_both_ways(formats: Formats, paths: Seq<Seq<char>>, as_id: u32, second: bool)
    requires
        paths.len() > 0,
        forall|i: int|
            0 <= i < paths.len() ==> crate::files_laws::holdable(#[trigger] paths[i])
                && crate::files_laws::on_windows(paths[i]),
    ensures
        converted(FormatView::Uris, second, Ok(drop_list(paths))) == ReadingView::Done(
            Ok(uri_lines(paths)),
        ),
        native_form(formats, FormatView::Uris, as_id, uri_lines(paths)) == Ok::<
            (u32, Seq<u8>),
            ClipboardErrorView,
        >((15u32, drop_list(paths))),
{
    assert forall|i: int| 0 <= i < paths.len() implies crate::files_laws::holdable(
        #[trigger] paths[i],
    ) && crate::files_laws::at_home(paths[i], true) by {}
    crate::files_laws::a_drop_list_names_its_paths(paths);
    crate::files_laws::a_uri_list_names_its_paths(paths, true);
}

/// Everything offered is promised under all its numbers, and nothing else is.
pub proof fn what_is_offered_is_promised(formats: Formats, offered: Seq<FormatView>, id: u32)
    ensures
        ids_of(formats, offered).contains(id) <==> exists|i: int|
            0 <= i < offered.len() && native(formats, #[trigger] offered[i]).contains(id),
    decreases offered.len(),
{
    if offered.len() > 0 {
        let fewer = offered.drop_last();
        let last = offered.last();
        what_is_offered_is_promised(formats, fewer, id);
        let a = ids_of(formats, fewer);
        let b = native(formats, last);
        let all = ids_of(formats, offered);
        assert(all == a + b);
        if a.contains(id) {
            let k = choose|k: int| 0 <= k < a.len() && a[k] == id;
            assert(all[k] == id);
            let i = choose|i: int|
                0 <= i < fewer.len() && native(formats, #[trigger] fewer[i]).contains(id);
            assert(offered[i] == fewer[i]);
        }
        if b.contains(id) {
            let k = choose|k: int| 0 <= k < b.len() && b[k] == id;
            assert(all[a.len() + k] == id);
            assert(offered[offered.len() - 1] == last);
        }
        if all.contains(id) {
            let k = choose|k: int| 0 <= k < all.len() && all[k] == id;
            if k < a.len() {
                assert(a[k] == id);
            } else {
                assert(b[k - a.len()] == id);
            }
        }
        if exists|i: int| 0 <= i < offered.len() && native(formats, #[trigger] offered[i]).contains(id) {
            let i = choose|i: int|
                0 <= i < offered.len() && native(formats, #[trigger] offered[i]).contains(id);
            if i < fewer.len() {
                assert(fewer[i] == offered[i]);
            }
        }
    }
}

/// A change that is not this machine's own doing is news, and ends the offer;
/// what nobody promised is not produced, and what has not been fetched is fetched
/// first.
pub proof fn how_an_offer_ends(w: WindowsView, id: u32)
    ensures
        !w.ours ==> changed(w).1 && changed(w).0.offer is None && changed(w).0.cache.len() == 0,
        w.ours ==> !changed(w).1 && !changed(w).0.ours && changed(w).0.offer == w.offer
            && changed(w).0.cache == w.cache,
        w.offer is None ==> rendered(w, id) == RenderView::Nothing,
        w.offer is Some && format_with(w.formats, w.offer->0, id) is Some && crate::table::value_of(
            w.cache,
            format_with(w.formats, w.offer->0, id)->0,
        ) is None ==> rendered(w, id) == RenderView::Fetch(
            format_with(w.formats, w.offer->0, id)->0,
        ),
        w.offer is Some && format_with(w.formats, w.offer->0, id) is None ==> rendered(w, id)
            == RenderView::Nothing,
{
}

// --- drags ---------------------------------------------------------------------------

/// A drag of files is caught from beginning to end: once the application has
/// entered and said where the pointer is, it is told that the drag is welcome,
/// as a copy; the button is let go; when it drops, its files are asked for, as of
/// the time of the drop; they are read; and it is told that the drop is done.
pub proof fn a_drag_of_files_is_caught(
    window: u32,
    atoms: DndAtoms,
    enter: Words,
    position: Words,
    drop: Words,
    property: u32,
    list: Seq<u8>,
)
    requires
        enter.l1 % 2 == 0,
        enter.l2 == atoms.uri_list || enter.l3 == atoms.uri_list || enter.l4 == atoms.uri_list,
        atoms.uri_list != 0,
        atoms.position != atoms.drop,
        property != 0,
        list.len() > 0,
    ensures
        ({
            let c = CatcherView { window, atoms, stage: Stage::Entering, paths: None };
            let source = enter.l0;
            let a = caught(c, HappenedView::Message { window, kind: atoms.enter, data: enter });
            let b = caught(a.0, HappenedView::Message { window, kind: atoms.position, data: position });
            let d = caught(b.0, HappenedView::Told { ok: true });
            let e = caught(d.0, HappenedView::Message { window, kind: atoms.drop, data: drop });
            let f = caught(e.0, HappenedView::Answered { requestor: window, property });
            let g = caught(f.0, HappenedView::List { width: 8, value: list });
            &&& a.1.len() == 0
            &&& b.1 == seq![
                xdnd::Act::Tell {
                    to: source,
                    kind: atoms.status,
                    data: Words { l0: window, l1: 1, l2: 0, l3: 0, l4: atoms.action_copy },
                },
            ]
            &&& d.1 == seq![xdnd::Act::Drive(Drive::ReleaseLeft)]
            &&& e.1 == seq![xdnd::Act::AskForList { time: drop.l2 }]
            &&& f.1 == seq![xdnd::Act::ReadList]
            &&& g.1 == seq![
                xdnd::Act::Tell {
                    to: source,
                    kind: atoms.finished,
                    data: Words { l0: window, l1: 1, l2: atoms.action_copy, l3: 0, l4: 0 },
                },
                xdnd::Act::Withdraw,
            ]
            &&& g.0.stage is Over
            &&& g.0.paths == files_in(Some(list))
        }),
{
    let types = seq![enter.l2, enter.l3, enter.l4];
    crate::table::filter_members(types, |t: u32| t != 0);
    assert(types[0] == enter.l2 && types[1] == enter.l3 && types[2] == enter.l4);
    assert(types.contains(atoms.uri_list));
    assert(xdnd::types_in(enter).contains(atoms.uri_list));
    let c = CatcherView { window, atoms, stage: Stage::Entering, paths: None };
    let a = caught(c, HappenedView::Message { window, kind: atoms.enter, data: enter });
    let b = caught(a.0, HappenedView::Message { window, kind: atoms.position, data: position });
    let d = caught(b.0, HappenedView::Told { ok: true });
    let e = caught(d.0, HappenedView::Message { window, kind: atoms.drop, data: drop });
    assert(e.1 =~= seq![xdnd::Act::AskForList { time: drop.l2 }]);
}

/// The files of a drag are those its list names on this machine; a list that
/// names none, or is not a list of bytes, is no catch.
pub proof fn the_files_of_a_drag(c: CatcherView, source: u32, width: u8, value: Seq<u8>)
    requires
        c.stage == (Stage::Listing { source }),
    ensures
        ({
            let named = paths_named(crate::text::lines(crate::files::utf8_text(value)), false);
            let after = caught(c, HappenedView::List { width, value }).0;
            &&& width == 8 && value.len() > 0 && named.len() > 0 ==> after.paths == Some(named)
            &&& width != 8 || value.len() == 0 || named.len() == 0 ==> after.paths is None
            &&& after.stage is Over
        }),
{
}

/// A drag that carries no files, an application that cannot be told, or one that
/// never notices the window ends the catch at once, with the button as it was;
/// messages to other windows are nothing.
pub proof fn a_drag_of_anything_else_is_left_alone(
    c: CatcherView,
    source: u32,
    types: Seq<u32>,
    window: u32,
    kind: u32,
    data: Words,
)
    ensures
        c.stage == (Stage::Typing { source }) && !types.contains(c.atoms.uri_list) ==> caught(
            c,
            HappenedView::Types(types),
        ) == (CatcherView { stage: Stage::Over, ..c }, seq![xdnd::Act::Withdraw]),
        c.stage == (Stage::Typing { source }) && types.contains(c.atoms.uri_list) ==> caught(
            c,
            HappenedView::Types(types),
        ) == (CatcherView { stage: Stage::Positioning { source }, ..c }, Seq::<xdnd::Act>::empty()),
        c.stage == (Stage::Accepting { source }) ==> caught(c, HappenedView::Told { ok: false }) == (
            CatcherView { stage: Stage::Over, ..c },
            seq![xdnd::Act::Withdraw],
        ),
        c.stage is Entering ==> caught(c, HappenedView::Missed) == (
            CatcherView { stage: Stage::Over, ..c },
            seq![xdnd::Act::Withdraw],
        ),
        c.stage is Entering && kind == c.atoms.enter && window == c.window && data.l1 % 2 == 1
            ==> caught(c, HappenedView::Message { window, kind, data }) == (
            CatcherView { stage: Stage::Typing { source: data.l0 }, ..c },
            seq![xdnd::Act::ReadTypes { source: data.l0 }],
        ),
        window != c.window ==> caught(c, HappenedView::Message { window, kind, data }) == (
            c,
            Seq::<xdnd::Act>::empty(),
        ),
{
}

/// On Windows too: the files of a drag that has entered are kept, the button is
/// let go, and when it has dropped, or says nothing more, the window is hidden.
pub proof fn a_drag_on_windows_is_caught(paths: Seq<Seq<char>>, later: Seq<Seq<char>>)
    ensures
        ({
            let c = windows_drag::CatcherView { paths: None, over: false };
            let a = windows_drag::seen(c, windows_drag::SeenView::Entered(paths));
            let again = windows_drag::seen(a.0, windows_drag::SeenView::Entered(later));
            let b = windows_drag::seen(a.0, windows_drag::SeenView::Dropped);
            let n = windows_drag::seen(a.0, windows_drag::SeenView::Nothing);
            &&& a.1 == windows_drag::Act::Release
            &&& a.0.paths == Some(paths)
            &&& !a.0.over
            &&& again == (a.0, windows_drag::Act::Wait)
            &&& b.1 == windows_drag::Act::Withdraw && b.0.over && b.0.paths == Some(paths)
            &&& n.1 == windows_drag::Act::Withdraw && n.0.over && n.0.paths == Some(paths)
            &&& windows_drag::seen(c, windows_drag::SeenView::Dropped) == (
                c,
                windows_drag::Act::Wait,
            )
        }),
{
}

// --- lists of files -----------------------------------------------------------------

/// A list is one URI a line, each line ended by a carriage return and a line feed.
/// A path is written from its first name on, behind three slashes, and with slashes
/// between its names, whichever way it leans.
pub proof fn how_a_list_is_written(paths: Seq<Seq<char>>, path: Seq<char>)
    ensures
        uri_lines(Seq::empty()).len() == 0,
        uri_lines(paths.push(path)) == uri_lines(paths) + uri(path) + seq!['\r' as u8, '\n' as u8],
        uri(seq!['/'] + path) == uri(path),
        uri(seq!['\\'] + path) == uri(path),
        path.len() > 0 && path[0] != '/' && !path.contains('\\') ==> uri(path) == ascii(
            "file:///"@,
        ) + escape(encode_utf8(path)),
{
    reveal_strlit("\r\n");
    assert(ascii("\r\n"@) =~= seq!['\r' as u8, '\n' as u8]);
    assert(paths.push(path).drop_last() =~= paths);
    assert(uri_lines(paths) + (uri(path) + ascii("\r\n"@)) =~= uri_lines(paths) + uri(path) + seq![
        '\r' as u8,
        '\n' as u8,
    ]);
    let plain = replaced(path, '\\', '/');
    let a = replaced(seq!['/'] + path, '\\', '/');
    let b = replaced(seq!['\\'] + path, '\\', '/');
    assert(a =~= seq!['/'] + plain);
    assert(b =~= seq!['/'] + plain);
    assert((seq!['/'] + plain).skip(1) =~= plain);
    if path.len() > 0 && path[0] != '/' && !path.contains('\\') {
        assert forall|i: int| 0 <= i < path.len() implies path[i] != '\\' by {
            assert(path.contains(path[i]));
        }
        assert(plain =~= path);
    }
}

/// The Windows form is read by its header: where the paths begin, which must be
/// behind the header and not behind the end, and whether they are in wide
/// characters. What is wrong with one that cannot be read is said.
pub proof fn how_a_drop_list_is_read(hdrop: Seq<u8>)
    ensures
        hdrop.len() < 20 ==> dropped_paths(hdrop) == Err::<Seq<Seq<char>>, Seq<char>>(
            "it is shorter than a header"@,
        ),
        hdrop.len() >= 20 ==> ({
            let at = number32(hdrop, 0);
            let read = dropped_paths(hdrop);
            &&& at < 20 || at > hdrop.len() ==> read == Err::<Seq<Seq<char>>, Seq<char>>(
                "the paths begin outside it"@,
            )
            &&& 20 <= at <= hdrop.len() && number32(hdrop, 16) == 0 ==> read is Ok
                && read->Ok_0.len() == runs(hdrop.skip(at), 0).len() && (forall|i: int|
                0 <= i < read->Ok_0.len() ==> #[trigger] read->Ok_0[i] == utf8_text(
                    runs(hdrop.skip(at), 0)[i],
                ))
            &&& 20 <= at <= hdrop.len() && number32(hdrop, 16) != 0 ==> read is Ok
                && read->Ok_0.len() == runs(units(hdrop.skip(at)), 0).len() && (forall|i: int|
                0 <= i < read->Ok_0.len() ==> #[trigger] read->Ok_0[i] == utf16_text(
                    runs(units(hdrop.skip(at)), 0)[i],
                ))
        }),
{
}

/// The Windows form says where its paths begin and that they are in wide
/// characters, and nothing else.
pub proof fn the_header_of_a_drop_list(paths: Seq<Seq<char>>)
    ensures
        drop_list(paths).len() >= 20,
        number32(drop_list(paths), 0) == 20,
        forall|i: int| 4 <= i < 16 ==> #[trigger] drop_list(paths)[i] == 0,
        number32(drop_list(paths), 16) == 1,
{
    let d = drop_list(paths);
    let h = drop_header();
    assert(le32(20u32)[0] == 20 && le32(20u32)[1] == 0 && le32(20u32)[2] == 0 && le32(20u32)[3]
        == 0);
    assert(le32(0u32)[0] == 0 && le32(0u32)[1] == 0 && le32(0u32)[2] == 0 && le32(0u32)[3] == 0);
    assert(le32(1u32)[0] == 1 && le32(1u32)[1] == 0 && le32(1u32)[2] == 0 && le32(1u32)[3] == 0);
    assert(h.len() == 20);
    assert forall|i: int| 0 <= i < 20 implies #[trigger] d[i] == h[i] by {}
    assert(h[0] == 20 && h[1] == 0 && h[2] == 0 && h[3] == 0);
    assert forall|i: int| 4 <= i < 16 implies #[trigger] d[i] == 0 by {
        assert(h[i] == 0);
    }
    assert(h[16] == 1 && h[17] == 0 && h[18] == 0 && h[19] == 0);
    assert(d[0] == 20 && d[1] == 0 && d[2] == 0 && d[3] == 0);
    assert(d[16] == 1 && d[17] == 0 && d[18] == 0 && d[19] == 0);
}

/// A URI of nothing names no path; what it names otherwise is written with
/// backslashes on Windows, and from the root elsewhere.
pub proof fn how_a_path_is_written_here(text: Seq<char>, i: int)
    ensures
        local_path(Seq::empty(), true) is None,
        local_path(Seq::empty(), false) is None,
        text.len() > 0 ==> local_path(text, false) == Some(seq!['/'] + text),
        text.len() > 0 ==> local_path(text, true) is Some && local_path(text, true)->0.len()
            == text.len(),
        0 <= i < text.len() && text[i] == '/' ==> local_path(text, true)->0[i] == '\\',
        0 <= i < text.len() && text[i] != '/' ==> local_path(text, true)->0[i] == text[i],
{
}

// --- what Windows is handed ------------------------------------------------------------

/// Where a format stands in a list of them.
pub open spec fn standing(format: FormatView) -> int {
    match format {
        FormatView::Text => 0,
        FormatView::Html => 1,
        FormatView::Png => 2,
        FormatView::Uris => 3,
        FormatView::Other(_) => 4,
    }
}

/// What is there is told with text first, then markup, pictures and files.
pub proof fn what_is_there_is_told_in_order(formats: Formats, present: Seq<u32>, i: int, j: int)
    requires
        0 <= i < j < formats_present(formats, present).len(),
    ensures
        standing(formats_present(formats, present)[i]) < standing(
            formats_present(formats, present)[j],
        ),
{
}

/// A picture that was asked for as a bitmap is made into one, under the number of
/// bitmaps, and one that cannot be is refused with the reason. A format of another
/// kind is refused.
pub proof fn what_a_bitmap_is_made_of(
    formats: Formats,
    png: Seq<u8>,
    as_id: u32,
    second: bool,
    other: FormatView,
)
    requires
        as_id != formats.png,
    ensures
        ({
            let made = native_form(formats, FormatView::Png, as_id, png);
            match frame_in(png) {
                Ok(frame) => match unconvertible(frame) {
                    None => made == Ok::<(u32, Seq<u8>), ClipboardErrorView>(
                        (8u32, bitmap(header_v3(frame), frame)),
                    ),
                    Some(why) => made == Err::<(u32, Seq<u8>), ClipboardErrorView>(
                        ClipboardErrorView::Display(why),
                    ),
                },
                Err(why) => made == Err::<(u32, Seq<u8>), ClipboardErrorView>(
                    ClipboardErrorView::Display(why),
                ),
            }
        }),
        other is Other ==> native_form(formats, other, as_id, png) == Err::<
            (u32, Seq<u8>),
            ClipboardErrorView,
        >(ClipboardErrorView::Refused(other)),
        other is Other ==> converted(other, second, Ok(png)) == ReadingView::Done(
            Err(ClipboardErrorView::Refused(other)),
        ),
{
}

/// A bitmap is read as the picture in it; what cannot be read is said to be
/// unusable, and why.
pub proof fn what_a_bitmap_is_read_as(raw: Seq<u8>)
    ensures
        match picture_in(raw) {
            Ok(picture) => match png_written(picture) {
                Ok(png) => converted(FormatView::Png, true, Ok(raw)) == ReadingView::Done(Ok(png)),
                Err(why) => converted(FormatView::Png, true, Ok(raw)) == ReadingView::Done(
                    Err(crate::image::trouble("could not write a PNG: "@, why)),
                ),
            },
            Err(why) => converted(FormatView::Png, true, Ok(raw)) == ReadingView::Done(
                Err(crate::image::complaint(why)),
            ),
        },
{
}

/// A list of files that cannot be read is said to be unusable, and why; a list
/// that names no files is no list of files to Windows.
pub proof fn what_is_wrong_with_a_list_of_files(
    formats: Formats,
    raw: Seq<u8>,
    as_id: u32,
    second: bool,
)
    ensures
        dropped_paths(raw) is Err ==> converted(FormatView::Uris, second, Ok(raw))
            == ReadingView::Done(
            Err(
                ClipboardErrorView::Display(
                    "the file list on the clipboard is unusable: "@ + dropped_paths(raw)->Err_0,
                ),
            ),
        ),
        paths_named(crate::text::lines(utf8_text(raw)), true).len() == 0 ==> native_form(
            formats,
            FormatView::Uris,
            as_id,
            raw,
        ) == Err::<(u32, Seq<u8>), ClipboardErrorView>(
            ClipboardErrorView::Display(
                "the file list on the clipboard is unusable: "@ + "it names no files"@,
            ),
        ),
        dropped_paths(raw) is Err ==> windows_drag::dragged(raw) is None,
{
}

/// There is something to render while something is offered, and not for an offer
/// of nothing.
pub proof fn when_there_is_something_to_render(w: WindowsView)
    ensures
        w.offer is None ==> !offers_something(w),
        w.offer is Some ==> offers_something(w) == (w.offer->0.len() > 0),
{
}

// --- drags that stall ---------------------------------------------------------------

/// A source that never says where the cursor is is told that its files are
/// welcome all the same, one that asks again while it drops is answered again, and
/// one that drops nothing leaves nothing behind.
pub proof fn a_drag_that_stalls_is_seen_through(
    c: CatcherView,
    source: u32,
    asked: bool,
    data: Words,
)
    ensures
        c.stage == (Stage::Positioning { source }) ==> caught(c, HappenedView::Missed) == caught(
            c,
            HappenedView::Message { window: c.window, kind: c.atoms.position, data },
        ),
        c.stage == (Stage::Dropping { source, asked }) && c.atoms.position != c.atoms.drop
            ==> caught(
            c,
            HappenedView::Message { window: c.window, kind: c.atoms.position, data },
        ) == (
            CatcherView { stage: Stage::Dropping { source, asked: true }, ..c },
            Seq::<xdnd::Act>::empty(),
        ),
        c.stage == (Stage::Dropping { source, asked: true }) ==> ({
            let answer = xdnd::Act::Tell {
                to: source,
                kind: c.atoms.status,
                data: Words { l0: c.window, l1: 1, l2: 0, l3: 0, l4: c.atoms.action_copy },
            };
            &&& caught(
                c,
                HappenedView::Message { window: c.window, kind: c.atoms.drop, data },
            ).1 == seq![answer, xdnd::Act::AskForList { time: data.l2 }]
            &&& caught(c, HappenedView::Missed).1 == seq![answer, xdnd::Act::Withdraw]
        }),
        c.stage == (Stage::Dropping { source, asked: false }) ==> caught(c, HappenedView::Missed).1
            == seq![xdnd::Act::Withdraw],
        c.stage == (Stage::Dropping { source, asked }) ==> caught(c, HappenedView::Missed).0.stage
            is Over,
{
}

/// A list that does not come ends the drag without files, and the source is told
/// that it is over. Answers meant for other windows are left alone, and nothing
/// happens to a drag that is over.
pub proof fn a_list_that_does_not_come(
    c: CatcherView,
    source: u32,
    requestor: u32,
    property: u32,
    happened: HappenedView,
    seen: windows_drag::SeenView,
    over: windows_drag::CatcherView,
)
    ensures
        ({
            let empty = (
                CatcherView { stage: Stage::Over, paths: None, ..c },
                seq![
                    xdnd::Act::Tell {
                        to: source,
                        kind: c.atoms.finished,
                        data: Words { l0: c.window, l1: 1, l2: c.atoms.action_copy, l3: 0, l4: 0 },
                    },
                    xdnd::Act::Withdraw,
                ],
            );
            &&& c.stage == (Stage::Asking { source }) ==> caught(c, HappenedView::Missed) == empty
            &&& c.stage == (Stage::Asking { source }) ==> caught(
                c,
                HappenedView::Answered { requestor: c.window, property: 0 },
            ) == empty
            &&& c.stage == (Stage::Listing { source }) ==> caught(c, HappenedView::Missed) == empty
        }),
        c.stage == (Stage::Asking { source }) && requestor != c.window ==> caught(
            c,
            HappenedView::Answered { requestor, property },
        ) == (c, Seq::<xdnd::Act>::empty()),
        c.stage is Over ==> caught(c, happened) == (c, Seq::<xdnd::Act>::empty()),
        over.over ==> windows_drag::seen(over, seen) == (over, windows_drag::Act::Wait),
{
}

} // verus!
