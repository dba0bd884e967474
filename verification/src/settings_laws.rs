//! What settings files say: line by line, and what is made of it.

use vstd::prelude::*;

use crate::barrier::{
    edge_named, every_interface_note, fingerprints_note, grid_cell, imported, name_and_interval,
    named_screens, names_for, overwritten_note, partial, read_bare, read_config, read_entry,
    read_line, uncommented, unchecked_clients_note, with_option, Edge, ImportView, LinkView,
    Progress, ServerConfigView,
};
use crate::ini;
use crate::ini::{
    escaped_value, item, items, look_up, look_up_any, look_up_bool, section, truth, unescape,
    unquote, ItemView, SectionView, SectionsView,
};
use crate::order::Ranked;
use crate::table::{
    ascending_keys, ascending_keys_are_keyed, entry_is_found, leading_keys, leading_keys_split, put,
    put_keeps_order, stored_reads_back, value_of, value_of_finds,
};
use crate::text::{
    decimal, decimal_spells_the_number, first_at_finds, is_digit, is_space, lower, number, trim,
};
use crate::words_laws::{
    a_number_is_read_back, a_text_falls_apart_at_the_first, the_last_is_the_last,
    what_follows_and_what_precedes, what_is_trimmed_stays,
};

verus! {

/// What is put under a key is found there, and what is under the others stays.
pub proof fn what_is_put_is_found<K: Ranked, V>(s: Seq<(K::V, V)>, k: K::V, v: V, other: K::V)
    requires
        ascending_keys::<K, V>(s),
    ensures
        value_of(put::<K, V>(s, k, v), k) == Some(v),
        other != k ==> value_of(put::<K, V>(s, k, v), other) == value_of(s, other),
{
    let r = put::<K, V>(s, k, v);
    put_keeps_order::<K, V>(s, k, v);
    ascending_keys_are_keyed::<K, V>(s);
    ascending_keys_are_keyed::<K, V>(r);
    if value_of(s, k) is Some {
        stored_reads_back(s, k, v, k);
        stored_reads_back(s, k, v, other);
    } else {
        leading_keys_split::<K, V>(s, k);
        let p = leading_keys::<K, V>(s, k) as int;
        assert(r[p] == (k, v));
        entry_is_found(r, p);
        value_of_finds(s, other);
        value_of_finds(r, other);
        if value_of(s, other) is Some {
            let i = choose|i: int| 0 <= i < s.len() && s[i] == (other, value_of(s, other)->0);
            let j = if i < p {
                i
            } else {
                i + 1
            };
            assert(r[j] == s[i]);
            entry_is_found(r, j);
        } else if other != k && value_of(r, other) is Some {
            let j = choose|j: int| 0 <= j < r.len() && (#[trigger] r[j]).0 == other;
            if j < p {
                assert(s[j].0 == other);
            } else {
                assert(s[j - 1].0 == other);
            }
        }
    }
}

// --- a server's text configuration -----------------------------------------------------

/// The four ways a link can go.
pub proof fn the_four_edges(word: Seq<char>)
    ensures
        edge_named("left"@) == Some(Edge::Left),
        edge_named("right"@) == Some(Edge::Right),
        edge_named("up"@) == Some(Edge::Up),
        edge_named("down"@) == Some(Edge::Down),
        edge_named(word) is Some ==> word == "left"@ || word == "right"@ || word == "up"@ || word
            == "down"@,
{
    reveal_strlit("left");
    reveal_strlit("right");
    reveal_strlit("up");
    reveal_strlit("down");
    assert("left"@[0] == 'l' && "right"@[0] == 'r' && "up"@[0] == 'u' && "down"@[0] == 'd');
}

/// A name, and the part of an edge behind it in brackets.
pub proof fn a_name_and_the_part_of_its_edge(name: Seq<char>, low: u32, high: u32)
    requires
        name.len() > 0,
        !is_space(name[0]),
        !is_space(name[name.len() - 1]),
        !name.contains('('),
        !name.contains(')'),
    ensures
        name_and_interval(name) == (name, None::<(u32, u32)>),
        name_and_interval(
            name + seq!['('] + decimal(low as nat) + seq![','] + decimal(high as nat) + seq![')'],
        ) == (name, Some((low, high))),
{
    what_is_trimmed_stays(name);
    let a = decimal(low as nat);
    let b = decimal(high as nat);
    decimal_spells_the_number(low as nat);
    decimal_spells_the_number(high as nat);
    let none = Seq::<char>::empty();
    a_text_falls_apart_at_the_first(name, '(', none);
    first_at_finds(name, '(');
    no_such_last(name, ')');
    let inner = a + seq![','] + b;
    let s = name + seq!['('] + a + seq![','] + b + seq![')'];
    assert(s =~= name + seq!['('] + (inner + seq![')']));
    a_text_falls_apart_at_the_first(name, '(', inner + seq![')']);
    first_at_finds(s, '(');
    the_first_is_here(name, '(', inner + seq![')']);
    the_last_is_the_last(name + seq!['('] + inner, ')', none);
    assert(s =~= name + seq!['('] + inner + seq![')'] + none);
    assert(s[0] == name[0]);
    assert(s.last() == ')');
    what_is_trimmed_stays(s);
    assert(s.take(name.len() as int) =~= name);
    assert(s.subrange(name.len() as int + 1, s.len() - 1) =~= inner);
    digits_hold_no(a, ',');
    a_text_falls_apart_at_the_first(a, ',', b);
    digits_are_trimmed(a);
    digits_are_trimmed(b);
    a_number_is_read_back(low as nat, u32::MAX as int, none, 0);
    a_number_is_read_back(high as nat, u32::MAX as int, none, 0);
}

proof fn the_first_is_here(a: Seq<char>, c: char, b: Seq<char>)
    requires
        !a.contains(c),
    ensures
        crate::text::first_at(a + seq![c] + b, c) == a.len(),
{
    let s = a + seq![c] + b;
    first_at_finds(s, c);
    let n = crate::text::first_at(s, c);
    assert(s[a.len() as int] == c);
    if n < a.len() {
        assert(s[n] == a[n]);
        assert(a.contains(a[n]));
    }
}

proof fn no_such_last(s: Seq<char>, c: char)
    requires
        !s.contains(c),
    ensures
        crate::text::last_at(s, c) == -1,
{
    the_last_is_the_last(Seq::empty(), c, s);
}

proof fn digits_hold_no(d: Seq<char>, c: char)
    requires
        crate::text::all_digits(d),
        !is_digit(c),
    ensures
        !d.contains(c),
{
    if d.contains(c) {
        let j = choose|j: int| 0 <= j < d.len() && d[j] == c;
        assert(is_digit(d[j]));
    }
}

proof fn digits_are_trimmed(d: Seq<char>)
    requires
        crate::text::all_digits(d),
        d.len() > 0,
    ensures
        trim(d) == d,
{
    assert(is_digit(d[0]));
    assert(is_digit(d[d.len() - 1]));
    what_is_trimmed_stays(d);
}

/// In the links, a line `edge = screen` under a screen's name is a link from that
/// screen, over that edge, to the other, each with the part of the edge it names;
/// a line whose edge is none of the four is none.
pub proof fn a_link_is_read(p: Progress, from: Seq<char>, lhs: Seq<char>, rhs: Seq<char>)
    requires
        p.section == "links"@,
        p.subject == Some(from),
        !lhs.contains('='),
        rhs.len() == 0 || rhs[rhs.len() - 1] != ':',
    ensures
        ({
            let line = lhs + seq!['='] + rhs;
            let after = read_entry(p, line);
            let edge = edge_named(lower(name_and_interval(lhs).0));
            let one = LinkView {
                from,
                edge: edge->0,
                from_range: name_and_interval(lhs).1,
                to: name_and_interval(rhs).0,
                to_range: name_and_interval(rhs).1,
            };
            &&& edge is Some ==> after.cfg.links == p.cfg.links.push(one)
            &&& edge is None ==> after.cfg.links == p.cfg.links
            &&& after.cfg == (ServerConfigView { links: after.cfg.links, ..p.cfg })
            &&& after.subject == p.subject && after.section == p.section
        }),
{
    let line = lhs + seq!['='] + rhs;
    a_text_falls_apart_at_the_first(lhs, '=', rhs);
    what_follows_and_what_precedes(Seq::empty(), Seq::empty(), line, ':');
    if rhs.len() > 0 {
        assert(line[line.len() - 1] == rhs[rhs.len() - 1]);
    } else {
        assert(line[line.len() - 1] == '=');
    }
    the_sections_differ();
}

proof fn the_sections_differ()
    ensures
        "screens"@ != "links"@ && "screens"@ != "aliases"@ && "screens"@ != "options"@,
        "links"@ != "aliases"@ && "links"@ != "options"@ && "aliases"@ != "options"@,
{
    reveal_strlit("screens");
    reveal_strlit("links");
    reveal_strlit("aliases");
    reveal_strlit("options");
    assert("screens"@[0] == 's' && "links"@[0] == 'l' && "aliases"@[0] == 'a' && "options"@[0]
        == 'o');
}

/// A title: among the screens it names one, once; among the links and the other
/// names it says whose they are.
pub proof fn a_title_is_read(p: Progress, title: Seq<char>)
    requires
        title.len() > 0,
        !is_space(title[0]),
        !is_space(title[title.len() - 1]),
    ensures
        ({
            let after = read_entry(p, title.push(':'));
            &&& p.section == "screens"@ && !p.cfg.screens.contains(title) ==> after.cfg.screens
                == p.cfg.screens.push(title)
            &&& p.section == "screens"@ && p.cfg.screens.contains(title) ==> after.cfg.screens
                == p.cfg.screens
            &&& p.section == "links"@ || p.section == "aliases"@ || p.section == "screens"@
                ==> after.subject == Some(title)
            &&& p.section == "links"@ || p.section == "aliases"@ ==> after.cfg == p.cfg
        }),
{
    let line = title.push(':');
    what_follows_and_what_precedes(Seq::empty(), Seq::empty(), title, ':');
    what_is_trimmed_stays(title);
    the_sections_differ();
}

/// Another name of a screen is kept with those it has, and what is said of an
/// option is what counts; the others are as they were.
pub proof fn names_and_options_are_read(
    p: Progress,
    name: Seq<char>,
    alias: Seq<char>,
    key: Seq<char>,
    value: Seq<char>,
    other: Seq<char>,
)
    requires
        ascending_keys::<String, Seq<Seq<char>>>(p.cfg.aliases),
        ascending_keys::<String, Seq<char>>(p.cfg.options),
        alias.len() == 0 || alias[alias.len() - 1] != ':',
        !key.contains('='),
    ensures
        p.section == "aliases"@ && p.subject == Some(name) ==> ({
            let after = read_entry(p, alias).cfg;
            &&& names_for(after.aliases, name) == names_for(p.cfg.aliases, name).push(alias)
            &&& other != name ==> names_for(after.aliases, other) == names_for(
                p.cfg.aliases,
                other,
            )
            &&& after == (ServerConfigView { aliases: after.aliases, ..p.cfg })
        }),
        p.section == "options"@ ==> ({
            let after = read_entry(p, key + seq!['='] + value).cfg;
            &&& value_of(after.options, trim(key)) == Some(trim(value))
            &&& other != trim(key) ==> value_of(after.options, other) == value_of(
                p.cfg.options,
                other,
            )
            &&& after == (ServerConfigView { options: after.options, ..p.cfg })
        }),
{
    the_sections_differ();
    what_follows_and_what_precedes(Seq::empty(), Seq::empty(), alias, ':');
    a_text_falls_apart_at_the_first(key, '=', value);
    let more = names_for(p.cfg.aliases, name).push(alias);
    what_is_put_is_found::<String, Seq<Seq<char>>>(p.cfg.aliases, name, more, other);
    what_is_put_is_found::<String, Seq<char>>(p.cfg.options, trim(key), trim(value), other);
}

/// `section:` begins a section and `end` ends it, whatever the size of their
/// letters; what stands in no section says nothing; and a comment is everything
/// from its mark on.
pub proof fn sections_begin_and_end(p: Progress, name: Seq<char>, line: Seq<char>, comment: Seq<char>)
    ensures
        ({
            let begun = read_bare(p, "section:"@ + name);
            &&& begun.section == lower(trim(name))
            &&& begun.subject is None
            &&& begun.cfg == p.cfg
        }),
        ({
            let ended = read_bare(p, "end"@);
            &&& ended.section.len() == 0
            &&& ended.subject is None
            &&& ended.cfg == p.cfg
        }),
        p.section.len() == 0 ==> read_entry(p, line) == p,
        read_bare(p, Seq::empty()) == p,
        !line.contains('#') ==> uncommented(line + seq!['#'] + comment) == line && uncommented(line)
            == line,
{
    reveal_strlit("section:");
    reveal_strlit("end");
    reveal_strlit("screens");
    reveal_strlit("links");
    reveal_strlit("aliases");
    reveal_strlit("options");
    what_follows_and_what_precedes("section:"@, name, "end"@, ':');
    if crate::text::after_prefix("end"@, "section:"@) is Some {
        assert("end"@.len() >= 8);
    }
    assert(lower("end"@) =~= "end"@);
    if !line.contains('#') {
        a_text_falls_apart_at_the_first(line, '#', comment);
    }
}

// --- what comes of an installation ----------------------------------------------------------

/// A screen's cell in the grid: they are counted from one, row by row.
pub proof fn a_screen_sits_where_it_is_counted(columns: u32, index: u32, name: Seq<char>)
    requires
        columns > 0,
        index > 0,
    ensures
        ({
            let cell = grid_cell(columns, index, name);
            &&& cell.name == name
            &&& cell.column < columns
            &&& cell.row * columns + cell.column == index - 1
        }),
{
    let zero = index - 1;
    let w = columns as int;
    assert(zero / w * w + zero % w == zero && 0 <= zero % w < w && 0 <= zero / w <= zero)
        by (nonlinear_arith)
        requires
            zero >= 0,
            w > 0,
    ;
}

/// The names in the grid are those of the entries that have one, under their
/// numbers.
pub proof fn the_grid_holds_the_names(entries: Seq<ItemView>, e: ItemView, other: u32)
    requires
        ascending_keys::<u32, Seq<char>>(named_screens(entries)),
    ensures
        e.field == "name"@ && e.value.len() > 0 ==> value_of(
            named_screens(entries.push(e)),
            e.index,
        ) == Some(e.value) && (other != e.index ==> value_of(named_screens(entries.push(e)), other)
            == value_of(named_screens(entries), other)),
        e.field != "name"@ || e.value.len() == 0 ==> named_screens(entries.push(e))
            == named_screens(entries),
{
    assert(entries.push(e).drop_last() =~= entries);
    what_is_put_is_found::<u32, Seq<char>>(named_screens(entries), e.index, e.value, other);
}

/// Whether a settings file says something.
pub open spec fn says(s: SectionsView, name: Seq<char>, key: Seq<char>, value: Seq<char>) -> bool {
    value_of(s, name) is Some && value_of(value_of(s, name)->0, key) == Some(value)
}

/// What the settings say is what is imported: the machine's name, its role, the
/// server, the port, and, where they are switched on, the timings.
pub proof fn what_the_settings_say_is_imported(
    s: SectionsView,
    name: Seq<char>,
    host: Seq<char>,
    n: nat,
)
    ensures
        name.len() > 0 && says(s, "General"@, "screenName"@, name) ==> imported(s).screen_name
            == Some(name),
        host.len() > 0 && says(s, "General"@, "serverHostname"@, host) ==> imported(s).server_host
            == Some(host),
        says(s, "General"@, "groupServerChecked"@, "true"@) ==> imported(s).is_server,
        says(s, "General"@, "groupServerChecked"@, "false"@) ==> !imported(s).is_server,
        n <= 0xFFFF && says(s, "General"@, "port"@, decimal(n)) ==> imported(s).port == Some(
            n as u16,
        ),
        n > 0xFFFF && says(s, "General"@, "port"@, decimal(n)) ==> imported(s).port is None,
        n <= u32::MAX && says(s, "internalConfig"@, "switchDelay"@, decimal(n)) && says(
            s,
            "internalConfig"@,
            "hasSwitchDelay"@,
            "true"@,
        ) ==> imported(s).switch_delay_ms == Some(n as u32),
        says(s, "internalConfig"@, "hasSwitchDelay"@, "false"@) ==> imported(s).switch_delay_ms
            is None,
        n <= u32::MAX && says(s, "internalConfig"@, "switchDoubleTap"@, decimal(n)) && says(
            s,
            "internalConfig"@,
            "hasSwitchDoubleTap"@,
            "true"@,
        ) ==> imported(s).switch_double_tap_ms == Some(n as u32),
        says(s, "internalConfig"@, "hasSwitchDoubleTap"@, "false"@) ==> imported(
            s,
        ).switch_double_tap_ms is None,
        says(s, "internalConfig"@, "clipboardSharing"@, "true"@) ==> imported(s).clipboard == Some(
            true,
        ),
        says(s, "internalConfig"@, "clipboardSharing"@, "false"@) ==> imported(s).clipboard == Some(
            false,
        ),
        n <= u32::MAX && says(s, "internalConfig"@, "clipboardSharingSize"@, decimal(n))
            ==> imported(s).clipboard_limit == Some(n as u64),
        says(s, "internalConfig"@, "enableDragAndDrop"@, "true"@) ==> imported(s).drag_drop == Some(
            true,
        ),
        says(s, "internalConfig"@, "enableDragAndDrop"@, "false"@) ==> imported(s).drag_drop
            == Some(false),
        n <= u32::MAX && says(s, "internalConfig"@, "numColumns"@, decimal(n)) ==> imported(
            s,
        ).grid_columns == n,
        n <= u32::MAX && says(s, "internalConfig"@, "numRows"@, decimal(n)) ==> imported(s).grid_rows
            == n,
{
    words_of_truth();
    a_number_is_read_back(n, u32::MAX as int, Seq::empty(), 0);
}

proof fn words_of_truth()
    ensures
        truth("true"@) == Some(true),
        truth("false"@) == Some(false),
{
    reveal_strlit("true");
    reveal_strlit("false");
    reveal_strlit("yes");
    reveal_strlit("no");
    reveal_strlit("1");
    reveal_strlit("0");
    assert(lower("true"@) =~= "true"@);
    assert(lower("false"@) =~= "false"@);
    assert("false"@[0] == 'f');
    assert("true"@[0] == 't' && "1"@[0] == '1' && "yes"@[0] == 'y');
}

/// An option of the text configuration sets what it is about, and only that; of
/// one that means nothing here a note is made.
pub proof fn what_an_option_changes(i: ImportView, n: nat, option: Seq<char>, value: Seq<char>)
    ensures
        n <= u32::MAX ==> with_option(i, "switchDelay"@, decimal(n)) == (ImportView {
            switch_delay_ms: Some(n as u32),
            ..i
        }),
        n <= u32::MAX ==> with_option(i, "switchDoubleTap"@, decimal(n)) == (ImportView {
            switch_double_tap_ms: Some(n as u32),
            ..i
        }),
        with_option(i, "clipboardSharing"@, "true"@) == (ImportView { clipboard: Some(true), ..i }),
        with_option(i, "clipboardSharing"@, "false"@) == (ImportView {
            clipboard: Some(false),
            ..i
        }),
        with_option(i, "screenSaverSync"@, value) == i,
        with_option(i, "relativeMouseMoves"@, value) == i,
        with_option(i, "win32KeepForeground"@, value) == i,
        option != "switchDelay"@ && option != "switchDoubleTap"@ && option != "clipboardSharing"@
            && option != "screenSaverSync"@ && option != "relativeMouseMoves"@ && option
            != "win32KeepForeground"@ ==> ({
            let after = with_option(i, option, value);
            &&& after.notes.len() == i.notes.len() + 1
            &&& after == (ImportView { notes: after.notes, ..i })
        }),
{
    a_number_is_read_back(n, u32::MAX as int, Seq::empty(), 0);
    reveal_strlit("switchDelay");
    reveal_strlit("switchDoubleTap");
    reveal_strlit("clipboardSharing");
    reveal_strlit("screenSaverSync");
    reveal_strlit("relativeMouseMoves");
    reveal_strlit("win32KeepForeground");
    reveal_strlit("true");
    reveal_strlit("false");
    assert("switchDelay"@.len() == 11 && "switchDoubleTap"@.len() == 15 && "clipboardSharing"@.len()
        == 16 && "screenSaverSync"@.len() == 15 && "relativeMouseMoves"@.len() == 18
        && "win32KeepForeground"@.len() == 19);
    assert("switchDoubleTap"@[1] == 'w' && "screenSaverSync"@[1] == 'c');
    assert("true"@.len() == 4 && "false"@.len() == 5);
}

// --- settings files ------------------------------------------------------------------------

/// `[name]` begins a section and `key=value` is a setting in the one begun last;
/// comments and blank lines are nothing.
pub proof fn a_setting_is_read(
    r: ini::Reading,
    name: Seq<char>,
    key: Seq<char>,
    value: Seq<char>,
    other: Seq<char>,
)
    requires
        ascending_keys::<String, SectionView>(r.sections),
        ascending_keys::<String, Seq<char>>(section(r.sections, r.current)),
        key.len() > 0,
        !is_space(key[0]),
        !is_space(key[key.len() - 1]),
        !key.contains('='),
        key[0] != '[' && key[0] != '#' && key[0] != ';',
        value.len() > 0,
        !is_space(value[0]),
        !is_space(value[value.len() - 1]),
    ensures
        ({
            let after = ini::read_line(r, key + seq!['='] + value);
            &&& after.current == r.current
            &&& look_up(after.sections, r.current, unescape(key)) == Some(unquote(value))
            &&& other != unescape(key) ==> look_up(after.sections, r.current, other) == look_up(
                r.sections,
                r.current,
                other,
            )
            &&& other != r.current ==> section(after.sections, other) == section(
                r.sections,
                other,
            )
        }),
        name.len() == 0 || !is_space(name[0]) ==> ini::read_line(
            r,
            seq!['['] + name + seq![']'],
        ).current == unescape(name),
        ini::read_line(r, seq!['#'] + value) == r,
        ini::read_line(r, seq![';'] + value) == r,
        ini::read_line(r, Seq::empty()) == r,
{
    let line = key + seq!['='] + value;
    assert(line[0] == key[0]);
    assert(line[line.len() - 1] == value[value.len() - 1]);
    what_is_trimmed_stays(line);
    what_is_trimmed_stays(key);
    what_is_trimmed_stays(value);
    a_text_falls_apart_at_the_first(key, '=', value);
    reveal_strlit("[");
    assert("["@ =~= seq!['[']);
    if crate::text::after_prefix(line, "["@) is Some {
        assert(line.take(1)[0] == '[');
    }
    let inner = put::<String, Seq<char>>(section(r.sections, r.current), unescape(key), unquote(value));
    what_is_put_is_found::<String, Seq<char>>(
        section(r.sections, r.current),
        unescape(key),
        unquote(value),
        other,
    );
    what_is_put_is_found::<String, SectionView>(r.sections, r.current, inner, other);
    let heading = seq!['['] + name + seq![']'];
    assert(heading[0] == '[');
    assert(heading.last() == ']');
    what_is_trimmed_stays(heading);
    what_follows_and_what_precedes("["@, name + seq![']'], name, ']');
    assert(heading =~= "["@ + (name + seq![']']));
    assert(name + seq![']'] =~= name.push(']'));
    let a = seq!['#'] + value;
    let b = seq![';'] + value;
    assert(a[0] == '#' && b[0] == ';');
    assert(a[a.len() - 1] == value[value.len() - 1]);
    assert(b[b.len() - 1] == value[value.len() - 1]);
    what_is_trimmed_stays(a);
    what_is_trimmed_stays(b);
    what_is_trimmed_stays(Seq::empty());
}

/// What a section does not say, the general one is asked for; and a yes or a no is
/// said with any of six words.
pub proof fn what_is_looked_up(s: SectionsView, name: Seq<char>, key: Seq<char>, value: Seq<char>)
    ensures
        says(s, name, key, value) ==> look_up_any(s, name, key) == Some(value),
        look_up(s, name, key) is None && says(s, "General"@, key, value) ==> look_up_any(
            s,
            name,
            key,
        ) == Some(value),
        truth("true"@) == Some(true) && truth("yes"@) == Some(true) && truth("1"@) == Some(true),
        truth("false"@) == Some(false) && truth("no"@) == Some(false) && truth("0"@) == Some(false),
        truth(value) is Some ==> ({
            let w = lower(value);
            w == "true"@ || w == "yes"@ || w == "1"@ || w == "false"@ || w == "no"@ || w == "0"@
        }),
{
    reveal_strlit("true");
    reveal_strlit("false");
    reveal_strlit("yes");
    reveal_strlit("no");
    reveal_strlit("1");
    reveal_strlit("0");
    assert(lower("true"@) =~= "true"@);
    assert(lower("false"@) =~= "false"@);
    assert(lower("yes"@) =~= "yes"@);
    assert(lower("no"@) =~= "no"@);
    assert(lower("1"@) =~= "1"@);
    assert(lower("0"@) =~= "0"@);
    assert("false"@[0] == 'f' && "no"@[0] == 'n' && "0"@[0] == '0');
    assert("true"@[0] == 't' && "1"@[0] == '1' && "yes"@[0] == 'y');
}

/// Quotes around a value are no part of it, and an escape stands for the character
/// whose number it gives; a null is left out.
pub proof fn quotes_and_escapes_are_undone(text: Seq<char>, a: char, b: char, c: char, rest: Seq<char>)
    ensures
        unquote(seq!['"'] + text + seq!['"']) == unescape(text),
        text.len() > 0 && text[0] != '"' ==> unquote(text) == unescape(text),
        c != '%' ==> unescape(seq![c] + rest) == seq![c] + unescape(rest),
        escaped_value(a, b) > 0 ==> unescape(seq!['%', a, b] + rest) == seq![
            escaped_value(a, b) as char,
        ] + unescape(rest),
        escaped_value(a, b) == 0 ==> unescape(seq!['%', a, b] + rest) == unescape(rest),
        escaped_value('2', '0') == 32,
        escaped_value('4', 'a') == 74 && escaped_value('4', 'A') == 74,
        escaped_value('g', '0') < 0,
{
    let q = seq!['"'] + text + seq!['"'];
    assert(q[0] == '"' && q.last() == '"');
    assert(q.subrange(1, q.len() - 1) =~= text);
    let one = seq![c] + rest;
    assert(one[0] == c);
    assert(one.skip(1) =~= rest);
    let three = seq!['%', a, b] + rest;
    assert(three[0] == '%' && three[1] == a && three[2] == b);
    assert(three.skip(3) =~= rest);
}

/// `prefix\\number\\field` is an entry of a list, under its number.
pub proof fn an_entry_of_a_list(prefix: Seq<char>, n: u32, field: Seq<char>, value: Seq<char>, key: Seq<char>)
    ensures
        item(prefix, prefix + seq!['\\'] + decimal(n as nat) + seq!['\\'] + field, value) == Some(
            ItemView { index: n, field, value },
        ),
        item(prefix, key, value) is Some ==> crate::text::after_prefix(key, prefix) is Some,
{
    let d = decimal(n as nat);
    decimal_spells_the_number(n as nat);
    digits_hold_no(d, '\\');
    reveal_strlit("\\");
    assert("\\"@ =~= seq!['\\']);
    let tail = d + seq!['\\'] + field;
    let whole = prefix + seq!['\\'] + d + seq!['\\'] + field;
    assert(whole =~= prefix + ("\\"@ + tail));
    what_follows_and_what_precedes(prefix, "\\"@ + tail, whole, ':');
    what_follows_and_what_precedes("\\"@, tail, whole, ':');
    a_text_falls_apart_at_the_first(d, '\\', field);
    a_number_is_read_back(n as nat, u32::MAX as int, Seq::empty(), 0);
}

// --- what is left unsaid ------------------------------------------------------------

/// What the settings leave unsaid stays open: no name, no server, no port, no
/// timings, and a machine that does not serve. A port that no number can be is none.
pub proof fn what_the_settings_do_not_say(s: SectionsView)
    ensures
        ({
            let i = imported(s);
            let g = |key: Seq<char>| look_up(s, "General"@, key) is None;
            let c = |key: Seq<char>|
                look_up(s, "internalConfig"@, key) is None && look_up(s, "General"@, key) is None;
            &&& g("screenName"@) ==> i.screen_name is None
            &&& says(s, "General"@, "screenName"@, ""@) ==> i.screen_name is None
            &&& g("serverHostname"@) ==> i.server_host is None
            &&& says(s, "General"@, "serverHostname"@, ""@) ==> i.server_host is None
            &&& g("groupServerChecked"@) ==> !i.is_server
            &&& g("port"@) ==> i.port is None
            &&& c("hasSwitchDelay"@) ==> i.switch_delay_ms is None
            &&& c("switchDelay"@) ==> i.switch_delay_ms is None
            &&& c("hasSwitchDoubleTap"@) ==> i.switch_double_tap_ms is None
            &&& c("switchDoubleTap"@) ==> i.switch_double_tap_ms is None
            &&& c("clipboardSharing"@) ==> i.clipboard is None
            &&& c("clipboardSharingSize"@) ==> i.clipboard_limit is None
            &&& c("enableDragAndDrop"@) ==> i.drag_drop is None
            &&& c("numColumns"@) ==> i.grid_columns == 0
            &&& c("numRows"@) ==> i.grid_rows == 0
        }),
{
    reveal_strlit("");
}

/// What a person is told of the settings they came from: that the certificates of
/// the machines were not checked, if encryption was on and they were not; that
/// every network was listened on, unless one was named; that the arrangement was
/// kept elsewhere; and that the machines are to be paired again. Nothing else, and
/// in that order.
pub proof fn what_a_person_is_told(s: SectionsView)
    ensures
        ({
            let notes = imported(s).notes;
            let on = |key: Seq<char>| look_up_bool(s, "General"@, key) == Some(true);
            let unchecked = on("cryptoEnabled"@) && !on("requireClientCertificate"@);
            let everywhere = look_up(s, "General"@, "interface"@) is None || says(
                s,
                "General"@,
                "interface"@,
                ""@,
            );
            let elsewhere = on("useInternalConfig"@);
            let a: int = if unchecked {
                1
            } else {
                0
            };
            let b: int = if everywhere {
                a + 1
            } else {
                a
            };
            let c: int = if elsewhere {
                b + 1
            } else {
                b
            };
            &&& notes.len() == c + 1
            &&& unchecked ==> notes[0] == unchecked_clients_note()
            &&& everywhere ==> notes[a] == every_interface_note()
            &&& elsewhere ==> notes[b] == overwritten_note()
            &&& notes[c] == fingerprints_note()
        }),
{
    reveal_strlit("");
    let word = look_up_any(s, "General"@, "interface"@);
    if word is Some && word->0.len() == 0 {
        assert(word->0 =~= ""@);
    }
}

/// Each screen that the settings name stands where its number puts it among the
/// columns they name, in the order of the numbers.
pub proof fn where_the_screens_stand(s: SectionsView, k: int)
    ensures
        ({
            let named = named_screens(items(section(s, "internalConfig"@), "screens"@));
            let i = imported(s);
            &&& i.grid.len() == named.len()
            &&& 0 <= k < named.len() ==> i.grid[k] == grid_cell(
                i.grid_columns,
                named[k].0,
                named[k].1,
            )
        }),
{
}

/// Without columns everything stands in the corner, and what is numbered nought
/// stands where what is numbered one does.
pub proof fn where_a_screen_stands_without_a_place(columns: u32, index: u32, name: Seq<char>)
    ensures
        grid_cell(0, index, name).column == 0 && grid_cell(0, index, name).row == 0,
        grid_cell(0, index, name).name == name,
        grid_cell(columns, 0, name) == grid_cell(columns, 1, name),
{
}

/// A link is for a part of an edge when either of its ends is.
pub proof fn when_a_link_is_partial(link: LinkView)
    ensures
        partial(link) <==> link.from_range is Some || link.to_range is Some,
{
}

/// Only the word `true` turns sharing on, and what is no number leaves a timing
/// unset.
pub proof fn what_else_an_option_may_say(i: ImportView, value: Seq<char>)
    ensures
        with_option(i, "clipboardSharing"@, value).clipboard == Some(value == "true"@),
        number(value, u32::MAX as int) is None ==> with_option(
            i,
            "switchDelay"@,
            value,
        ).switch_delay_ms is None && with_option(
            i,
            "switchDoubleTap"@,
            value,
        ).switch_double_tap_ms is None,
{
    reveal_strlit("switchDelay");
    reveal_strlit("switchDoubleTap");
    reveal_strlit("clipboardSharing");
    assert("switchDelay"@.len() != "switchDoubleTap"@.len());
    assert("switchDelay"@.len() != "clipboardSharing"@.len());
    assert("clipboardSharing"@.len() != "switchDoubleTap"@.len());
}

/// A text that is read begins in no section, with nothing read of it. Lines that
/// no section claims, or that belong to nothing, say nothing; the end of a section
/// may be written in capitals.
pub proof fn what_says_nothing(p: Progress, line: Seq<char>, raw: Seq<char>, comment: Seq<char>)
    ensures
        read_config(Seq::empty()) == (ServerConfigView {
            screens: seq![],
            links: seq![],
            aliases: seq![],
            options: seq![],
        }),
        p.section != "screens"@ && p.section != "links"@ && p.section != "aliases"@ && p.section
            != "options"@ ==> read_entry(p, line) == p,
        (line.len() == 0 || line[line.len() - 1] != ':') && p.section == "screens"@ ==> read_entry(
            p,
            line,
        ) == p,
        (line.len() == 0 || line[line.len() - 1] != ':') && p.subject is None && (p.section
            == "links"@ || p.section == "aliases"@) ==> read_entry(p, line) == p,
        !line.contains('=') && p.section == "options"@ ==> read_entry(p, line) == p,
        line.len() > 0 && lower(line) == "end"@ && crate::text::after_prefix(line, "section:"@)
            is None ==> read_bare(p, line).section.len() == 0 && read_bare(p, line).subject is None
            && read_bare(p, line).cfg == p.cfg,
        !raw.contains('#') ==> read_line(p, raw + seq!['#'] + comment) == read_line(p, raw),
        !raw.contains('#') ==> read_line(p, raw) == read_bare(p, trim(raw)),
{
    reveal_strlit("screens");
    reveal_strlit("links");
    reveal_strlit("aliases");
    reveal_strlit("options");
    assert("screens"@[0] != "links"@[0] && "screens"@[0] != "aliases"@[0] && "screens"@[0]
        != "options"@[0]);
    assert("links"@[0] != "aliases"@[0] && "links"@[0] != "options"@[0] && "aliases"@[0]
        != "options"@[0]);
    what_follows_and_what_precedes(Seq::empty(), Seq::empty(), line, ':');
    if !line.contains('=') {
        a_text_falls_apart_at_the_first(line, '=', Seq::empty());
    }
    if !raw.contains('#') {
        a_text_falls_apart_at_the_first(raw, '#', comment);
    }
}

/// Settings are read into the section that was named last, and into the general
/// one before any was; what a section already holds stays when it is named again.
pub proof fn which_section_is_read_into(r: ini::Reading, name: Seq<char>, other: Seq<char>)
    requires
        ascending_keys::<String, SectionView>(r.sections),
        name.len() == 0 || !is_space(name[0]),
    ensures
        ini::read_lines(Seq::empty()).current == "General"@,
        ini::read_lines(Seq::empty()).sections.len() == 0,
        ({
            let after = ini::read_line(r, seq!['['] + name + seq![']']);
            &&& section(after.sections, other) == section(r.sections, other)
            &&& value_of(after.sections, unescape(name)) is Some
        }),
        value_of(ini::read_settings(Seq::empty()), "General"@) is Some,
{
    let line = seq!['['] + name + seq![']'];
    assert(line[0] == '[' && line[line.len() - 1] == ']');
    what_is_trimmed_stays(line);
    reveal_strlit("[");
    assert("["@ =~= seq!['[']);
    assert(line =~= "["@ + name.push(']'));
    what_follows_and_what_precedes("["@, name.push(']'), line, ']');
    what_follows_and_what_precedes("["@, name, name, ']');
    what_is_put_is_found::<String, SectionView>(r.sections, unescape(name), seq![], unescape(name));
    what_is_put_is_found::<String, SectionView>(r.sections, unescape(name), seq![], other);
    let none: Seq<(Seq<char>, SectionView)> = seq![];
    what_is_put_is_found::<String, SectionView>(none, "General"@, seq![], "General"@);
}

/// What a digit of a number in base sixteen stands for; less than nothing for
/// anything else.
pub open spec fn sixteenth(c: char) -> int {
    if '0' <= c <= '9' {
        c as int - '0' as int
    } else if 'a' <= c <= 'f' {
        c as int - 'a' as int + 10
    } else if 'A' <= c <= 'F' {
        c as int - 'A' as int + 10
    } else {
        -1
    }
}

/// An escape stands for the number its two digits spell, and what is no digit
/// spells none.
pub proof fn what_an_escape_stands_for(a: char, b: char)
    ensures
        sixteenth(a) >= 0 && sixteenth(b) >= 0 ==> escaped_value(a, b) == 16 * sixteenth(a)
            + sixteenth(b),
        sixteenth(b) < 0 ==> escaped_value(a, b) < 0,
        sixteenth(a) < 0 && a != '+' ==> escaped_value(a, b) < 0,
{
}

/// The entries of a list are told in the order they stand in, and nothing else is.
pub proof fn which_entries_a_list_has(
    settings: SectionView,
    key: Seq<char>,
    value: Seq<char>,
    prefix: Seq<char>,
)
    ensures
        items(Seq::empty(), prefix).len() == 0,
        item(prefix, key, value) is Some ==> items(settings.push((key, value)), prefix) == items(
            settings,
            prefix,
        ).push(item(prefix, key, value)->0),
        item(prefix, key, value) is None ==> items(settings.push((key, value)), prefix) == items(
            settings,
            prefix,
        ),
{
    assert(settings.push((key, value)).drop_last() =~= settings);
}

} // verus!
