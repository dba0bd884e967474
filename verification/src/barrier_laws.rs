//! What always holds of taking over a Barrier installation.

use vstd::prelude::*;

use crate::barrier::{
    fingerprints_note, imported, merged, nothing_read, partial, partial_edges_note, read_bare,
    read_config, read_lines, uncommented, unknown_option_note, with_option, with_options,
    with_screen, with_screens, GridView, ImportView, Progress, ServerConfigView,
};
use crate::ini::SectionsView;
use crate::text::{
    first_at, first_at_finds, is_space, lines, trim, trim_end, trim_start, without_return,
};

verus! {

/// Whether a screen is in the grid.
pub open spec fn in_grid(grid: Seq<GridView>, name: Seq<char>) -> bool {
    exists|i: int| 0 <= i < grid.len() && (#[trigger] grid[i]).name == name
}

/// Whether no two screens in the grid have the same name.
pub open spec fn all_different(grid: Seq<GridView>) -> bool {
    forall|i: int, j: int|
        0 <= i < j < grid.len() ==> (#[trigger] grid[i]).name != (#[trigger] grid[j]).name
}

/// Whether an option means something here, or is known to mean nothing.
pub open spec fn is_known(option: Seq<char>) -> bool {
    option == "switchDelay"@ || option == "switchDoubleTap"@ || option == "clipboardSharing"@
        || option == "screenSaverSync"@ || option == "relativeMouseMoves"@ || option
        == "win32KeepForeground"@
}

proof fn screens_join_the_grid(grid: Seq<GridView>, names: Seq<Seq<char>>)
    ensures
        grid.is_prefix_of(with_screens(grid, names)),
        forall|k: int| 0 <= k < names.len() ==> in_grid(with_screens(grid, names), #[trigger] names[k]),
        all_different(grid) ==> all_different(with_screens(grid, names)),
    decreases names.len(),
{
    if names.len() > 0 {
        let before = with_screens(grid, names.drop_last());
        let after = with_screens(grid, names);
        screens_join_the_grid(grid, names.drop_last());
        assert(after == with_screen(before, names.last()));
        assert(before.is_prefix_of(after));
        assert forall|k: int| 0 <= k < names.len() implies in_grid(after, #[trigger] names[k]) by {
            if k < names.len() - 1 {
                assert(names.drop_last()[k] == names[k]);
                let i = choose|i: int| 0 <= i < before.len() && (#[trigger] before[i]).name == names[k];
                assert(after[i] == before[i]);
            } else if !in_grid(before, names.last()) {
                assert(after[before.len() as int].name == names.last());
            }
        }
    }
}

proof fn options_leave_the_grid(i: ImportView, options: Seq<(Seq<char>, Seq<char>)>)
    ensures
        with_options(i, options).grid == i.grid,
        i.notes.is_prefix_of(with_options(i, options).notes),
        forall|k: int|
            0 <= k < options.len() && !is_known((#[trigger] options[k]).0) ==> with_options(
                i,
                options,
            ).notes.contains(unknown_option_note(options[k].0, options[k].1)),
    decreases options.len(),
{
    if options.len() > 0 {
        let before = with_options(i, options.drop_last());
        let after = with_options(i, options);
        let (option, value) = options.last();
        options_leave_the_grid(i, options.drop_last());
        assert(after == with_option(before, option, value));
        assert(before.notes.is_prefix_of(after.notes));
        assert forall|k: int|
            0 <= k < options.len() && !is_known((#[trigger] options[k]).0) implies after.notes.contains(
            unknown_option_note(options[k].0, options[k].1),
        ) by {
            let note = unknown_option_note(options[k].0, options[k].1);
            if k < options.len() - 1 {
                assert(options.drop_last()[k] == options[k]);
                let n = choose|n: int| 0 <= n < before.notes.len() && before.notes[n] == note;
                assert(after.notes[n] == note);
            } else {
                assert(after.notes[before.notes.len() as int] == note);
            }
        }
    }
}

/// Every screen that a server's text configuration names is in the grid once
/// that is folded in; the screens that were there stay where they were, and
/// none comes to be there twice.
pub proof fn every_screen_comes_across(i: ImportView, cfg: ServerConfigView)
    ensures
        i.grid.is_prefix_of(merged(i, cfg).grid),
        forall|k: int|
            0 <= k < cfg.screens.len() ==> in_grid(merged(i, cfg).grid, #[trigger] cfg.screens[k]),
        all_different(i.grid) ==> all_different(merged(i, cfg).grid),
{
    screens_join_the_grid(i.grid, cfg.screens);
    let any_partial = exists|k: int| 0 <= k < cfg.links.len() && partial(#[trigger] cfg.links[k]);
    let started = ImportView {
        grid: with_screens(i.grid, cfg.screens),
        notes: i.notes + crate::barrier::when(any_partial, partial_edges_note()),
        ..i
    };
    options_leave_the_grid(started, cfg.options);
}

/// Nothing is dropped in silence: what was said before is still said, links
/// along part of an edge are spoken of, and so is every option that has no
/// equivalent here.
pub proof fn nothing_is_dropped_in_silence(i: ImportView, cfg: ServerConfigView)
    ensures
        i.notes.is_prefix_of(merged(i, cfg).notes),
        (exists|k: int| 0 <= k < cfg.links.len() && partial(#[trigger] cfg.links[k])) ==> merged(
            i,
            cfg,
        ).notes.contains(partial_edges_note()),
        forall|k: int|
            0 <= k < cfg.options.len() && !is_known((#[trigger] cfg.options[k]).0) ==> merged(
                i,
                cfg,
            ).notes.contains(unknown_option_note(cfg.options[k].0, cfg.options[k].1)),
{
    let any_partial = exists|k: int| 0 <= k < cfg.links.len() && partial(#[trigger] cfg.links[k]);
    let started = ImportView {
        grid: with_screens(i.grid, cfg.screens),
        notes: i.notes + crate::barrier::when(any_partial, partial_edges_note()),
        ..i
    };
    options_leave_the_grid(started, cfg.options);
    if any_partial {
        assert(started.notes[i.notes.len() as int] == partial_edges_note());
        assert(merged(i, cfg).notes[i.notes.len() as int] == partial_edges_note());
    }
}

/// Trust is never carried over, and whoever imports is always told so.
pub proof fn machines_are_paired_again(s: SectionsView)
    ensures
        imported(s).notes.contains(fingerprints_note()),
{
    assert(imported(s).notes.last() == fingerprints_note());
}

// --- what counts in a text configuration ------------------------------------------

/// A line as it is read: without its comment and the space around it.
pub open spec fn bare() -> spec_fn(Seq<char>) -> Seq<char> {
    |raw: Seq<char>| trim(uncommented(raw))
}

pub open spec fn says_something() -> spec_fn(Seq<char>) -> bool {
    |line: Seq<char>| line.len() > 0
}

/// What is left of some lines without comments, blank lines and the space around
/// what they say.
pub open spec fn what_counts(raw: Seq<Seq<char>>) -> Seq<Seq<char>> {
    raw.map_values(bare()).filter(says_something())
}

spec fn read_all(counted: Seq<Seq<char>>) -> Progress
    decreases counted.len(),
{
    if counted.len() == 0 {
        nothing_read()
    } else {
        read_bare(read_all(counted.drop_last()), counted.last())
    }
}

proof fn only_what_counts_is_read(raw: Seq<Seq<char>>)
    ensures
        read_lines(raw) == read_all(what_counts(raw)),
    decreases raw.len(),
{
    reveal(Seq::filter);
    let all = raw.map_values(bare());
    if raw.len() > 0 {
        only_what_counts_is_read(raw.drop_last());
        let earlier = what_counts(raw.drop_last());
        assert(all.drop_last() =~= raw.drop_last().map_values(bare()));
        assert(all.last() == bare()(raw.last()));
        if all.last().len() > 0 {
            assert(what_counts(raw) == earlier.push(all.last()));
            assert(earlier.push(all.last()).drop_last() =~= earlier);
        }
    }
}

/// Two texts that say the same read the same: comments, blank lines and the
/// space around what a line says make no difference.
pub proof fn comments_and_blank_lines_say_nothing(text: Seq<char>, other: Seq<char>)
    requires
        what_counts(lines(text)) == what_counts(lines(other)),
    ensures
        read_config(text) == read_config(other),
{
    only_what_counts_is_read(lines(text));
    only_what_counts_is_read(lines(other));
}

/// Lines as a text, each ended.
pub open spec fn joined(raw: Seq<Seq<char>>) -> Seq<char>
    decreases raw.len(),
{
    if raw.len() == 0 {
        seq![]
    } else {
        raw[0] + seq!['\n'] + joined(raw.drop_first())
    }
}

proof fn a_space_at_the_end_is_trimmed(s: Seq<char>, c: char)
    requires
        is_space(c),
    ensures
        trim_start(s).len() > 0 ==> trim_start(s.push(c)) == trim_start(s).push(c),
        trim_start(s).len() == 0 ==> trim_start(s.push(c)).len() == 0,
        trim(s.push(c)) == trim(s),
    decreases s.len(),
{
    let more = s.push(c);
    if s.len() == 0 {
        assert(more.drop_first() =~= s);
        assert(trim_start(more) == trim_start(s));
    } else if is_space(s[0]) {
        assert(more.drop_first() =~= s.drop_first().push(c));
        a_space_at_the_end_is_trimmed(s.drop_first(), c);
    }
    if trim_start(s).len() > 0 {
        assert(trim_start(s).push(c).drop_last() =~= trim_start(s));
    } else {
        assert(trim_start(s) =~= trim_start(more));
    }
}

proof fn the_return_says_nothing(l: Seq<char>)
    ensures
        bare()(without_return(l)) == bare()(l),
{
    if l.len() > 0 && l.last() == '\r' {
        let s = l.drop_last();
        let n = first_at(l, '#');
        let k = first_at(s, '#');
        first_at_finds(l, '#');
        first_at_finds(s, '#');
        assert(l =~= s.push('\r'));
        if n < l.len() {
            assert(l[n] == '#');
            assert(n < s.len());
            assert(s[n] == l[n]);
            if k < n {
                assert(l[k] == s[k]);
            } else if n < k {
                assert(s[n] != '#');
            }
            assert(s.take(n) =~= l.take(n));
        } else {
            if k < s.len() {
                assert(l[k] == s[k]);
            }
            a_space_at_the_end_is_trimmed(s, '\r');
        }
    }
}

proof fn a_line_then_the_rest(line: Seq<char>, rest: Seq<char>)
    requires
        !line.contains('\n'),
    ensures
        lines(line + seq!['\n'] + rest) == seq![without_return(line)] + lines(rest),
{
    let s = line + seq!['\n'] + rest;
    let n = first_at(s, '\n');
    first_at_finds(s, '\n');
    assert(s[line.len() as int] == '\n');
    if n < line.len() {
        assert(s[n] == line[n]);
        assert(line.contains('\n'));
    }
    assert(s.take(n) =~= line);
    assert(s.skip(n + 1) =~= rest);
}

/// Whether each of these is a line: none is broken in itself.
pub open spec fn unbroken(raw: Seq<Seq<char>>) -> bool {
    forall|i: int| 0 <= i < raw.len() ==> !(#[trigger] raw[i]).contains('\n')
}

proof fn joined_lines_say_the_same(raw: Seq<Seq<char>>)
    requires
        unbroken(raw),
    ensures
        lines(joined(raw)).map_values(bare()) == raw.map_values(bare()),
    decreases raw.len(),
{
    if raw.len() == 0 {
        assert(lines(joined(raw)).map_values(bare()) =~= raw.map_values(bare()));
    } else {
        let rest = raw.drop_first();
        assert forall|i: int| 0 <= i < rest.len() implies !(#[trigger] rest[i]).contains('\n') by {
            assert(rest[i] == raw[i + 1]);
        }
        joined_lines_say_the_same(rest);
        assert(!raw[0].contains('\n'));
        a_line_then_the_rest(raw[0], joined(rest));
        the_return_says_nothing(raw[0]);
        let more = lines(joined(rest));
        let all = lines(joined(raw));
        assert(all == seq![without_return(raw[0])] + more);
        assert(more.map_values(bare()).len() == rest.map_values(bare()).len());
        assert forall|i: int| 0 <= i < raw.len() implies #[trigger] all.map_values(bare())[i]
            == raw.map_values(bare())[i] by {
            if i > 0 {
                assert(all[i] == more[i - 1]);
                assert(more.map_values(bare())[i - 1] == rest.map_values(bare())[i - 1]);
            }
        }
        assert(all.map_values(bare()) =~= raw.map_values(bare()));
    }
}

proof fn lines_are_unbroken(text: Seq<char>)
    ensures
        unbroken(lines(text)),
    decreases text.len(),
{
    let n = first_at(text, '\n');
    first_at_finds(text, '\n');
    if text.len() > 0 {
        if n < text.len() {
            let more = lines(text.skip(n + 1));
            lines_are_unbroken(text.skip(n + 1));
            assert forall|i: int| 0 <= i < lines(text).len() implies !(#[trigger] lines(
                text,
            )[i]).contains('\n') by {
                if i == 0 {
                    let line = without_return(text.take(n));
                    assert(lines(text)[0] == line);
                    assert forall|k: int| 0 <= k < line.len() implies line[k] != '\n' by {
                        assert(line[k] == text[k]);
                    }
                } else {
                    assert(lines(text)[i] == more[i - 1]);
                }
            }
        }
    }
}

/// A text with every line cut off at its first `#` reads as it did.
pub proof fn cutting_the_comments_changes_nothing(text: Seq<char>)
    ensures
        read_config(
            joined(lines(text).map_values(|raw: Seq<char>| uncommented(raw))),
        ) == read_config(text),
{
    let raw = lines(text);
    let cut = raw.map_values(|raw: Seq<char>| uncommented(raw));
    lines_are_unbroken(text);
    assert forall|i: int| 0 <= i < cut.len() implies !(#[trigger] cut[i]).contains('\n')
        && bare()(cut[i]) == bare()(raw[i]) by {
        let l = raw[i];
        let n = first_at(l, '#');
        first_at_finds(l, '#');
        assert(!l.contains('\n'));
        assert(cut[i] == uncommented(l));
        assert forall|k: int| 0 <= k < cut[i].len() implies cut[i][k] != '\n' && cut[i][k]
            != '#' by {
            assert(cut[i][k] == l[k]);
        }
        first_at_finds(cut[i], '#');
        assert(uncommented(cut[i]) == cut[i]);
    }
    joined_lines_say_the_same(cut);
    assert(cut.map_values(bare()) =~= raw.map_values(bare()));
    comments_and_blank_lines_say_nothing(joined(cut), text);
}

proof fn blanks_are_left_out(some: Seq<Seq<char>>, blank: Seq<char>, more: Seq<Seq<char>>)
    requires
        trim(blank).len() == 0,
    ensures
        what_counts(some + seq![blank] + more) == what_counts(some + more),
    decreases more.len(),
{
    reveal(Seq::filter);
    let with = some + seq![blank] + more;
    let without = some + more;
    if more.len() == 0 {
        let n = first_at(blank, '#');
        first_at_finds(blank, '#');
        assert(with.drop_last() =~= some);
        assert(without =~= some);
        nothing_before_a_comment(blank);
        assert(with.map_values(bare()).drop_last() =~= some.map_values(bare()));
        assert(with.map_values(bare()).last() == bare()(blank));
    } else {
        blanks_are_left_out(some, blank, more.drop_last());
        assert(with.drop_last() =~= some + seq![blank] + more.drop_last());
        assert(without.drop_last() =~= some + more.drop_last());
        assert(with.map_values(bare()).drop_last() =~= with.drop_last().map_values(bare()));
        assert(without.map_values(bare()).drop_last() =~= without.drop_last().map_values(bare()));
        assert(with.map_values(bare()).last() == without.map_values(bare()).last());
    }
}

proof fn only_spaces(s: Seq<char>)
    ensures
        trim(s).len() == 0 <==> forall|i: int| 0 <= i < s.len() ==> is_space(#[trigger] s[i]),
    decreases s.len(),
{
    if s.len() > 0 {
        if is_space(s[0]) {
            only_spaces(s.drop_first());
            if forall|i: int| 0 <= i < s.drop_first().len() ==> is_space(
                #[trigger] s.drop_first()[i],
            ) {
                assert forall|i: int| 0 <= i < s.len() implies is_space(#[trigger] s[i]) by {
                    if i > 0 {
                        assert(s[i] == s.drop_first()[i - 1]);
                    }
                }
            }
            if forall|i: int| 0 <= i < s.len() ==> is_space(#[trigger] s[i]) {
                assert forall|i: int| 0 <= i < s.drop_first().len() implies is_space(
                    #[trigger] s.drop_first()[i],
                ) by {
                    assert(s.drop_first()[i] == s[i + 1]);
                }
            }
        } else {
            trimming_keeps_the_first(s);
        }
    }
}

proof fn trimming_keeps_the_first(s: Seq<char>)
    requires
        s.len() > 0,
        !is_space(s[0]),
    ensures
        trim_end(s).len() > 0,
    decreases s.len(),
{
    if is_space(s.last()) {
        trimming_keeps_the_first(s.drop_last());
    }
}

proof fn nothing_before_a_comment(blank: Seq<char>)
    requires
        trim(blank).len() == 0,
    ensures
        bare()(blank).len() == 0,
{
    only_spaces(blank);
    first_at_finds(blank, '#');
    let before = uncommented(blank);
    assert forall|i: int| 0 <= i < before.len() implies is_space(#[trigger] before[i]) by {
        assert(before[i] == blank[i]);
    }
    only_spaces(before);
}

/// A blank line more or less, wherever it is, changes nothing.
pub proof fn a_blank_line_changes_nothing(
    some: Seq<Seq<char>>,
    blank: Seq<char>,
    more: Seq<Seq<char>>,
)
    requires
        unbroken(some),
        unbroken(more),
        !blank.contains('\n'),
        trim(blank).len() == 0,
    ensures
        read_config(joined(some + seq![blank] + more)) == read_config(joined(some + more)),
{
    joined_lines_say_the_same(some + seq![blank] + more);
    joined_lines_say_the_same(some + more);
    blanks_are_left_out(some, blank, more);
    comments_and_blank_lines_say_nothing(
        joined(some + seq![blank] + more),
        joined(some + more),
    );
}

} // verus!
