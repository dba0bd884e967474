//! What holds of every file that is let onto the disk.

use vstd::prelude::*;

use crate::landing::{
    between_slashes, candidate_name, first_bad, first_free, first_names, fit_parts, has_extension,
    is_fit, landing_plan, open_question, place_entry, place_top, placed, safe_components, total, unfit, MAX_ENTRIES,
    MOST_TRIES,
};
use crate::proto::{FileOfferView, FileView};
use crate::text::{decimal, decimal_spells_the_number, first_at, first_at_finds, is_digit, last_at};

verus! {

/// A name that stays where it is put: one component, which neither names a
/// directory above nor holds what separates components on any system.
pub open spec fn stays_put(c: Seq<char>) -> bool {
    &&& c.len() > 0
    &&& c != "."@
    &&& c != ".."@
    &&& !c.contains('/')
    &&& !c.contains('\\')
    &&& !c.contains('\0')
    &&& !c.contains(':')
}

proof fn pieces_hold_no_slash(s: Seq<char>)
    ensures
        forall|i: int, c: char|
            0 <= i < between_slashes(s).len() && #[trigger] between_slashes(s)[i].contains(c)
                ==> c != '/' && s.contains(c),
    decreases s.len(),
{
    let n = first_at(s, '/');
    first_at_finds(s, '/');
    if n < s.len() {
        let rest = s.skip(n + 1);
        pieces_hold_no_slash(rest);
        let all = between_slashes(s);
        assert forall|i: int, c: char|
            0 <= i < all.len() && #[trigger] all[i].contains(c) implies c != '/' && s.contains(
            c,
        ) by {
            if i == 0 {
                let j = choose|j: int| 0 <= j < all[0].len() && all[0][j] == c;
                assert(s[j] == c);
            } else {
                assert(all[i] == between_slashes(rest)[i - 1]);
                assert(rest.contains(c));
                let j = choose|j: int| 0 <= j < rest.len() && rest[j] == c;
                assert(s[n + 1 + j] == c);
            }
        }
    } else {
        assert forall|i: int, c: char|
            0 <= i < between_slashes(s).len() && #[trigger] between_slashes(s)[i].contains(
                c,
            ) implies c != '/' && s.contains(c) by {
            let j = choose|j: int| 0 <= j < s.len() && s[j] == c;
            assert(s[j] == c);
        }
    }
}

proof fn fit_parts_are_fit(parts: Seq<Seq<char>>)
    requires
        fit_parts(parts) is Some,
    ensures
        forall|i: int|
            0 <= i < fit_parts(parts)->0.len() ==> is_fit(#[trigger] fit_parts(parts)->0[i])
                && parts.contains(fit_parts(parts)->0[i]),
    decreases parts.len(),
{
    if parts.len() > 0 {
        let earlier = parts.drop_last();
        fit_parts_are_fit(earlier);
        let found = fit_parts(parts)->0;
        let before = fit_parts(earlier)->0;
        assert forall|i: int| 0 <= i < found.len() implies is_fit(#[trigger] found[i])
            && parts.contains(found[i]) by {
            if i < before.len() {
                assert(found[i] == before[i]);
                assert(earlier.contains(before[i]));
                let j = choose|j: int| 0 <= j < earlier.len() && earlier[j] == before[i];
                assert(parts[j] == found[i]);
            } else {
                assert(found[i] == parts.last());
                assert(parts[parts.len() - 1] == found[i]);
            }
        }
    }
}

proof fn a_fit_part_stays_put(name: Seq<char>, p: Seq<char>)
    requires
        !name.contains('\\'),
        !name.contains('\0'),
        is_fit(p),
        forall|c: char| #[trigger] p.contains(c) ==> c != '/' && name.contains(c),
    ensures
        stays_put(p),
{
    reveal_strlit(".");
    reveal_strlit("..");
    if p.contains(':') {
        let j = choose|j: int| 0 <= j < p.len() && p[j] == ':';
        assert(!unfit(p[j]));
    }
}

proof fn safe_components_stay_put(name: Seq<char>)
    requires
        safe_components(name) is Some,
    ensures
        safe_components(name)->0.len() > 0,
        forall|i: int|
            0 <= i < safe_components(name)->0.len() ==> stays_put(
                #[trigger] safe_components(name)->0[i],
            ) && is_fit(safe_components(name)->0[i]),
{
    let pieces = between_slashes(name);
    let found = safe_components(name)->0;
    pieces_hold_no_slash(name);
    fit_parts_are_fit(pieces);
    assert forall|i: int| 0 <= i < found.len() implies stays_put(#[trigger] found[i]) && is_fit(
        found[i],
    ) by {
        assert(is_fit(found[i]) && pieces.contains(found[i]));
        let k = choose|k: int| 0 <= k < pieces.len() && pieces[k] == found[i];
        assert forall|c: char| #[trigger] found[i].contains(c) implies c != '/' && name.contains(
            c,
        ) by {
            assert(pieces[k].contains(c));
        }
        a_fit_part_stays_put(name, found[i]);
    }
}

proof fn last_at_finds(s: Seq<char>, c: char)
    ensures
        -1 <= last_at(s, c) < s.len(),
        last_at(s, c) >= 0 ==> s[last_at(s, c)] == c,
    decreases s.len(),
{
    if s.len() > 0 && s.last() != c {
        last_at_finds(s.drop_last(), c);
    }
}

/// Whether a run of characters holds nothing that could lead elsewhere.
spec fn harmless(s: Seq<char>) -> bool {
    forall|i: int|
        0 <= i < s.len() ==> #[trigger] s[i] != '/' && s[i] != '\\' && s[i] != '\0' && s[i] != ':'
}

proof fn harmless_together(a: Seq<char>, b: Seq<char>)
    requires
        harmless(a),
        harmless(b),
    ensures
        harmless(a + b),
{
}

proof fn a_candidate_stays_put(name: Seq<char>, n: nat)
    requires
        stays_put(name),
        is_fit(name),
    ensures
        stays_put(candidate_name(name, n)),
{
    assert forall|i: int| 0 <= i < name.len() implies #[trigger] name[i] != '/' && name[i] != '\\'
        && name[i] != '\0' && name[i] != ':' by {
        assert(name.contains(name[i]));
    }
    assert(harmless(name));
    if n > 1 {
        let dot = last_at(name, '.');
        last_at_finds(name, '.');
        decimal_spells_the_number(n);
        reveal_strlit(" (");
        reveal_strlit(")");
        reveal_strlit(").");
        reveal_strlit(".");
        reveal_strlit("..");
        let d = decimal(n);
        assert forall|i: int| 0 <= i < d.len() implies #[trigger] d[i] != '/' && d[i] != '\\'
            && d[i] != '\0' && d[i] != ':' by {
            assert(is_digit(d[i]));
        }
        let c = candidate_name(name, n);
        if has_extension(name) {
            let a = name.take(dot) + " ("@;
            let b = a + d;
            let e = b + ")."@;
            assert(harmless(name.take(dot)));
            assert(harmless(name.skip(dot + 1)));
            harmless_together(name.take(dot), " ("@);
            harmless_together(a, d);
            harmless_together(b, ")."@);
            harmless_together(e, name.skip(dot + 1));
            assert(c.len() > 2);
        } else {
            let a = name + " ("@;
            let b = a + d;
            harmless_together(name, " ("@);
            harmless_together(a, d);
            harmless_together(b, ")"@);
            assert(c.len() > 2);
        }
        assert(harmless(c));
    }
}

proof fn what_is_chosen_is_a_candidate(name: Seq<char>, present: Seq<Seq<char>>, n: nat)
    ensures
        exists|k: nat|
            (k == 1 || n <= k < MOST_TRIES) && first_free(name, present, n)
                == #[trigger] candidate_name(name, k),
    decreases MOST_TRIES - n,
{
    if n >= MOST_TRIES {
        assert(candidate_name(name, 1) == name);
    } else if !present.contains(candidate_name(name, n)) {
    } else {
        what_is_chosen_is_a_candidate(name, present, n + 1);
    }
}

proof fn no_bad_name(files: Seq<FileView>, i: int)
    requires
        first_bad(files) is None,
        0 <= i < files.len(),
    ensures
        safe_components(files[i].path) is Some,
    decreases files.len(),
{
    if i < files.len() - 1 {
        no_bad_name(files.drop_last(), i);
    }
}

/// Nothing that lands lands outside: every component of every path that a
/// manifest is given is a name of its own, whatever the manifest says.
pub proof fn nothing_lands_outside(
    offer: FileOfferView,
    present: Seq<Seq<char>>,
    limit: u64,
    i: int,
    j: int,
)
    requires
        landing_plan(offer, present, limit) is Ok,
        0 <= i < landing_plan(offer, present, limit)->Ok_0.paths.len(),
        0 <= j < landing_plan(offer, present, limit)->Ok_0.paths[i].len(),
    ensures
        stays_put(landing_plan(offer, present, limit)->Ok_0.paths[i][j]),
{
    let path = landing_plan(offer, present, limit)->Ok_0.paths[i];
    no_bad_name(offer.files, i);
    let parts = safe_components(offer.files[i].path)->0;
    safe_components_stay_put(offer.files[i].path);
    assert(path == placed(parts, present));
    if j == 0 {
        what_is_chosen_is_a_candidate(parts[0], present, 1);
        let k = choose|k: nat| first_free(parts[0], present, 1) == #[trigger] candidate_name(parts[0], k);
        assert(stays_put(parts[0]) && is_fit(parts[0]));
        a_candidate_stays_put(parts[0], k);
    } else {
        assert(path[j] == parts[j]);
    }
}

proof fn a_free_name_is_taken(name: Seq<char>, present: Seq<Seq<char>>, n: nat, k: nat)
    requires
        n <= k < MOST_TRIES,
        !present.contains(candidate_name(name, k)),
    ensures
        !present.contains(first_free(name, present, n)),
    decreases MOST_TRIES - n,
{
    if present.contains(candidate_name(name, n)) {
        a_free_name_is_taken(name, present, n + 1, k);
    }
}

/// What is already there is not overwritten: a top-level name is given only
/// where nothing was, as long as one of the names that are tried is free.
pub proof fn what_is_already_there_is_not_overwritten(
    offer: FileOfferView,
    present: Seq<Seq<char>>,
    limit: u64,
    i: int,
    k: nat,
)
    requires
        landing_plan(offer, present, limit) is Ok,
        0 <= i < landing_plan(offer, present, limit)->Ok_0.top_level.len(),
        1 <= k < MOST_TRIES,
        !present.contains(candidate_name(first_names(offer.files)[i], k)),
    ensures
        !present.contains(landing_plan(offer, present, limit)->Ok_0.top_level[i]),
{
    let name = first_names(offer.files)[i];
    a_free_name_is_taken(name, present, 1, k);
    assert(landing_plan(offer, present, limit)->Ok_0.top_level[i] == place_top(present)(name));
}

proof fn every_try_is_taken(name: Seq<char>, present: Seq<Seq<char>>, n: nat, k: nat)
    requires
        present.contains(first_free(name, present, n)),
        n <= k < MOST_TRIES,
    ensures
        present.contains(candidate_name(name, k)),
{
    if !present.contains(candidate_name(name, k)) {
        a_free_name_is_taken(name, present, n, k);
    }
}

/// Once the disk has nothing left to be asked about the names in an offer, each
/// top-level name that is given is one the disk said was free, or else it said
/// of every name that is tried that it was there.
pub proof fn what_is_given_was_found_free(
    offer: FileOfferView,
    present: Seq<Seq<char>>,
    free: Seq<Seq<char>>,
    limit: u64,
    i: int,
)
    requires
        landing_plan(offer, present, limit) is Ok,
        0 <= i < landing_plan(offer, present, limit)->Ok_0.top_level.len(),
        open_question(first_names(offer.files)[i], present, free) is None,
    ensures
        free.contains(landing_plan(offer, present, limit)->Ok_0.top_level[i]) || forall|k: nat|
            1 <= k < MOST_TRIES ==> present.contains(
                #[trigger] candidate_name(first_names(offer.files)[i], k),
            ),
{
    let name = first_names(offer.files)[i];
    let given = first_free(name, present, 1);
    assert(landing_plan(offer, present, limit)->Ok_0.top_level[i] == place_top(present)(name));
    if !free.contains(given) {
        assert forall|k: nat| 1 <= k < MOST_TRIES implies present.contains(
            #[trigger] candidate_name(name, k),
        ) by {
            every_try_is_taken(name, present, 1, k);
        }
    }
}

/// What the disk is asked for is a name that was not known of, so that each
/// answer leaves fewer names to ask for.
pub proof fn nothing_is_asked_twice(name: Seq<char>, present: Seq<Seq<char>>, free: Seq<Seq<char>>)
    requires
        open_question(name, present, free) is Some,
    ensures
        !present.contains(open_question(name, present, free)->0),
        !free.contains(open_question(name, present, free)->0),
        exists|k: nat|
            1 <= k < MOST_TRIES && open_question(name, present, free)->0
                == #[trigger] candidate_name(name, k),
{
    what_is_chosen_is_a_candidate(name, present, 1);
}

proof fn every_first_name_is_listed(files: Seq<FileView>, i: int)
    requires
        0 <= i < files.len(),
        safe_components(files[i].path) is Some,
    ensures
        first_names(files).contains(safe_components(files[i].path)->0[0]),
    decreases files.len(),
{
    let earlier = first_names(files.drop_last());
    let wanted = safe_components(files[i].path)->0[0];
    if i < files.len() - 1 {
        every_first_name_is_listed(files.drop_last(), i);
        let j = choose|j: int| 0 <= j < earlier.len() && earlier[j] == wanted;
        assert(first_names(files)[j] == wanted);
    } else if !earlier.contains(wanted) {
        assert(first_names(files)[earlier.len() as int] == wanted);
    }
}

/// Every file of a manifest that is taken has a path, every path begins with
/// something the pasting application is handed, and all of it is within the
/// limits.
pub proof fn a_manifest_lands_whole(offer: FileOfferView, present: Seq<Seq<char>>, limit: u64, i: int)
    requires
        landing_plan(offer, present, limit) is Ok,
        0 <= i < offer.files.len(),
    ensures
        ({
            let landing = landing_plan(offer, present, limit)->Ok_0;
            &&& landing.paths.len() == offer.files.len()
            &&& landing.top_level.contains(landing.paths[i][0])
            &&& 0 < offer.files.len() <= MAX_ENTRIES
            &&& total(offer.files) <= limit
            &&& offer.total_bytes <= limit
        }),
{
    let landing = landing_plan(offer, present, limit)->Ok_0;
    no_bad_name(offer.files, i);
    safe_components_stay_put(offer.files[i].path);
    every_first_name_is_listed(offer.files, i);
    let names = first_names(offer.files);
    let wanted = safe_components(offer.files[i].path)->0[0];
    let j = choose|j: int| 0 <= j < names.len() && names[j] == wanted;
    assert(landing.paths[i] == place_entry(present)(offer.files[i]));
    assert(landing.top_level[j] == place_top(present)(names[j]));
}

// --- which names are taken ------------------------------------------------------

/// A name of its own that any system here can write: it is not empty, does not
/// end in a dot or a space, and holds no control character and nothing that
/// means something to a system. Letters of every script are fine.
pub open spec fn plain_name(p: Seq<char>) -> bool {
    &&& p.len() > 0
    &&& p[p.len() - 1] != '.'
    &&& p[p.len() - 1] != ' '
    &&& !p.contains('/')
    &&& forall|i: int|
        0 <= i < p.len() ==> {
            let c = #[trigger] p[i];
            &&& 0x1F < c as u32
            &&& !(0x7F <= c as u32 <= 0x9F)
            &&& c != '<' && c != '>' && c != ':' && c != '"' && c != '|' && c != '?' && c != '*'
            &&& c != '\\'
        }
}

/// Names with slashes between them.
pub open spec fn with_slashes(parts: Seq<Seq<char>>) -> Seq<char>
    decreases parts.len(),
{
    if parts.len() == 0 {
        seq![]
    } else if parts.len() == 1 {
        parts[0]
    } else {
        parts[0] + seq!['/'] + with_slashes(parts.drop_first())
    }
}

/// Whether part of a name says nothing: two slashes in a row, or a directory's
/// name for itself.
pub open spec fn says_nothing(p: Seq<char>) -> bool {
    p == Seq::<char>::empty() || p == seq!['.']
}

proof fn slashes_are_taken_apart(parts: Seq<Seq<char>>)
    requires
        parts.len() > 0,
        forall|i: int| 0 <= i < parts.len() ==> !(#[trigger] parts[i]).contains('/'),
    ensures
        between_slashes(with_slashes(parts)) == parts,
    decreases parts.len(),
{
    let s = with_slashes(parts);
    let first = parts[0];
    first_at_finds(s, '/');
    let n = first_at(s, '/');
    assert(!parts[0].contains('/'));
    if parts.len() == 1 {
        assert(n == s.len()) by {
            if n < s.len() {
                assert(first.contains(first[n]));
            }
        }
        assert(parts =~= seq![s]);
    } else {
        let rest = parts.drop_first();
        assert forall|i: int| 0 <= i < rest.len() implies !(#[trigger] rest[i]).contains('/') by {
            assert(rest[i] == parts[i + 1]);
        }
        slashes_are_taken_apart(rest);
        assert(s[first.len() as int] == '/');
        assert(n == first.len()) by {
            if n < first.len() {
                assert(first[n] == s[n]);
                assert(first.contains(first[n]));
            }
        }
        assert(s.take(n) =~= first);
        assert(s.skip(n + 1) =~= with_slashes(rest));
        assert(seq![first] + rest =~= parts);
    }
}

proof fn only_what_counts_is_left(parts: Seq<Seq<char>>)
    ensures
        (forall|i: int|
            0 <= i < parts.len() ==> says_nothing(#[trigger] parts[i]) || is_fit(parts[i]))
            ==> fit_parts(parts) == Some(parts.filter(|p: Seq<char>| !says_nothing(p))),
        (exists|i: int|
            0 <= i < parts.len() && !says_nothing(#[trigger] parts[i]) && !is_fit(parts[i]))
            ==> fit_parts(parts) is None,
    decreases parts.len(),
{
    reveal(Seq::filter);
    let counts = |p: Seq<char>| !says_nothing(p);
    if parts.len() > 0 {
        let earlier = parts.drop_last();
        only_what_counts_is_left(earlier);
        let last = parts.last();
        assert(last == parts[parts.len() - 1]);
        reveal_strlit(".");
        assert("."@ =~= seq!['.']);
        assert(last.len() == 0 ==> last =~= Seq::<char>::empty());
        assert(crate::landing::is_idle(last) == says_nothing(last));
        if forall|i: int|
            0 <= i < parts.len() ==> says_nothing(#[trigger] parts[i]) || is_fit(parts[i]) {
            assert forall|i: int| 0 <= i < earlier.len() implies says_nothing(
                #[trigger] earlier[i],
            ) || is_fit(earlier[i]) by {
                assert(earlier[i] == parts[i]);
            }
        }
        if exists|i: int|
            0 <= i < parts.len() && !says_nothing(#[trigger] parts[i]) && !is_fit(parts[i]) {
            let i = choose|i: int|
                0 <= i < parts.len() && !says_nothing(#[trigger] parts[i]) && !is_fit(parts[i]);
            if i < earlier.len() {
                assert(earlier[i] == parts[i]);
            }
        }
    } else {
        assert(parts.filter(counts) =~= seq![]);
    }
}

proof fn a_plain_name_is_fit(p: Seq<char>)
    ensures
        plain_name(p) ==> is_fit(p),
        is_fit(p) && !p.contains('/') && !p.contains('\\') ==> plain_name(p),
{
    if is_fit(p) && !p.contains('/') && !p.contains('\\') {
        assert forall|i: int| 0 <= i < p.len() implies ({
            let c = #[trigger] p[i];
            &&& 0x1F < c as u32
            &&& !(0x7F <= c as u32 <= 0x9F)
            &&& c != '<' && c != '>' && c != ':' && c != '"' && c != '|' && c != '?' && c != '*'
            &&& c != '\\'
        }) by {
            assert(!unfit(p[i]));
            assert(p.contains(p[i]));
        }
    }
}

proof fn letters_of_the_parts(parts: Seq<Seq<char>>, c: char)
    requires
        c != '/',
        with_slashes(parts).contains(c),
    ensures
        exists|i: int| 0 <= i < parts.len() && (#[trigger] parts[i]).contains(c),
    decreases parts.len(),
{
    let s = with_slashes(parts);
    let j = choose|j: int| 0 <= j < s.len() && s[j] == c;
    if parts.len() == 1 {
        assert(parts[0][j] == c);
        assert(parts[0].contains(c));
    } else if parts.len() > 1 {
        let rest = parts.drop_first();
        if j < parts[0].len() {
            assert(parts[0][j] == c);
            assert(parts[0].contains(c));
        } else {
            assert(j > parts[0].len());
            assert(with_slashes(rest)[j - parts[0].len() - 1] == c);
            assert(with_slashes(rest).contains(c));
            letters_of_the_parts(rest, c);
            let i = choose|i: int| 0 <= i < rest.len() && (#[trigger] rest[i]).contains(c);
            assert(parts[i + 1] == rest[i]);
            assert(parts[i + 1].contains(c));
        }
    }
}

/// A name is taken exactly when it does not begin at a root and what stands
/// between its slashes is, part by part, a plain name or nothing, and not
/// nothing throughout; its components are then the plain names in it, in order.
pub proof fn a_name_is_taken_for_its_parts(parts: Seq<Seq<char>>)
    requires
        parts.len() > 0,
        forall|i: int| 0 <= i < parts.len() ==> !(#[trigger] parts[i]).contains('/'),
    ensures
        ({
            let name = with_slashes(parts);
            let counting = parts.filter(|p: Seq<char>| !says_nothing(p));
            let sound = forall|i: int|
                0 <= i < parts.len() ==> says_nothing(#[trigger] parts[i]) || plain_name(parts[i]);
            let rooted = parts.len() > 1 && parts[0].len() == 0;
            &&& sound && !rooted && counting.len() > 0 ==> safe_components(name) == Some(counting)
            &&& !sound || rooted || counting.len() == 0 ==> safe_components(name) is None
        }),
{
    let name = with_slashes(parts);
    let counting = parts.filter(|p: Seq<char>| !says_nothing(p));
    slashes_are_taken_apart(parts);
    only_what_counts_is_left(parts);
    assert forall|i: int| 0 <= i < parts.len() implies (plain_name(#[trigger] parts[i]) ==> is_fit(
        parts[i],
    )) && (is_fit(parts[i]) && !parts[i].contains('\\') ==> plain_name(parts[i])) by {
        a_plain_name_is_fit(parts[i]);
    }
    let sound = forall|i: int|
        0 <= i < parts.len() ==> says_nothing(#[trigger] parts[i]) || plain_name(parts[i]);
    if sound {
        if name.contains('\0') {
            letters_of_the_parts(parts, '\0');
            let i = choose|i: int| 0 <= i < parts.len() && (#[trigger] parts[i]).contains('\0');
            let j = choose|j: int| 0 <= j < parts[i].len() && parts[i][j] == '\0';
            assert(says_nothing(parts[i]) || plain_name(parts[i]));
        }
        if name.contains('\\') {
            letters_of_the_parts(parts, '\\');
            let i = choose|i: int| 0 <= i < parts.len() && (#[trigger] parts[i]).contains('\\');
            let j = choose|j: int| 0 <= j < parts[i].len() && parts[i][j] == '\\';
            assert(says_nothing(parts[i]) || plain_name(parts[i]));
        }
    } else {
        let i = choose|i: int|
            0 <= i < parts.len() && !says_nothing(#[trigger] parts[i]) && !plain_name(parts[i]);
        if parts[i].contains('\\') {
            a_part_is_in_the_name(parts, i, '\\');
        }
    }
    assert(!parts[0].contains('/'));
    if parts[0].len() > 0 {
        assert(name[0] == parts[0][0]);
        assert(parts[0].contains(parts[0][0]));
    } else if parts.len() > 1 {
        assert(name[0] == '/');
    }
}

proof fn a_part_is_in_the_name(parts: Seq<Seq<char>>, i: int, c: char)
    requires
        0 <= i < parts.len(),
        parts[i].contains(c),
    ensures
        with_slashes(parts).contains(c),
    decreases parts.len(),
{
    let s = with_slashes(parts);
    if parts.len() > 1 {
        let rest = parts.drop_first();
        if i == 0 {
            let j = choose|j: int| 0 <= j < parts[0].len() && parts[0][j] == c;
            assert(s[j] == c);
        } else {
            assert(rest[i - 1] == parts[i]);
            a_part_is_in_the_name(rest, i - 1, c);
            let t = with_slashes(rest);
            let j = choose|j: int| 0 <= j < t.len() && t[j] == c;
            assert(s[parts[0].len() + 1 + j] == c);
        }
    }
}

/// A name made of plain names is taken, and its components are those names.
pub proof fn plain_names_are_taken(parts: Seq<Seq<char>>)
    requires
        parts.len() > 0,
        forall|i: int| 0 <= i < parts.len() ==> plain_name(#[trigger] parts[i]),
    ensures
        safe_components(with_slashes(parts)) == Some(parts),
{
    assert forall|i: int| 0 <= i < parts.len() implies !(#[trigger] parts[i]).contains('/') && !says_nothing(parts[i]) by {
        assert(plain_name(parts[i]));
    }
    a_name_is_taken_for_its_parts(parts);
    let counts = |p: Seq<char>| !says_nothing(p);
    crate::table::keeping_all(parts, counts);
    assert(parts[0].len() > 0);
}

// --- which offers are taken -------------------------------------------------------

/// The bytes that an offer's files have together.
pub open spec fn bytes_in(files: Seq<FileView>) -> int
    decreases files.len(),
{
    if files.len() == 0 {
        0
    } else {
        files[0].bytes + bytes_in(files.drop_first())
    }
}

proof fn bytes_add_up(files: Seq<FileView>)
    ensures
        total(files) == bytes_in(files),
    decreases files.len(),
{
    if files.len() == 1 {
        assert(files.drop_last() =~= Seq::empty());
        assert(files.drop_first() =~= Seq::empty());
        assert(total(Seq::<FileView>::empty()) == 0);
        assert(bytes_in(Seq::<FileView>::empty()) == 0);
    } else if files.len() > 1 {
        bytes_add_up(files.drop_last());
        bytes_add_up(files.drop_first());
        bytes_add_up(files.drop_last().drop_first());
        assert(files.drop_last().drop_first() =~= files.drop_first().drop_last());
        assert(files.drop_first().last() == files.last());
        assert(files.drop_last()[0] == files[0]);
    }
}

proof fn bad_names_are_found(files: Seq<FileView>)
    ensures
        (forall|i: int| 0 <= i < files.len() ==> safe_components((#[trigger] files[i]).path) is Some)
            ==> first_bad(files) is None,
        forall|i: int|
            0 <= i < files.len() && safe_components((#[trigger] files[i]).path) is None && (forall|
                j: int,
            |
                0 <= j < i ==> safe_components((#[trigger] files[j]).path) is Some) ==> first_bad(
                files,
            ) == Some(files[i].path),
    decreases files.len(),
{
    if files.len() > 0 {
        let earlier = files.drop_last();
        bad_names_are_found(earlier);
        if forall|i: int|
            0 <= i < files.len() ==> safe_components((#[trigger] files[i]).path) is Some {
            assert forall|i: int| 0 <= i < earlier.len() implies safe_components(
                (#[trigger] earlier[i]).path,
            ) is Some by {
                assert(earlier[i] == files[i]);
            }
            assert(files.last() == files[files.len() - 1]);
        }
        assert forall|i: int|
            0 <= i < files.len() && safe_components((#[trigger] files[i]).path) is None && (forall|
                j: int,
            |
                0 <= j < i ==> safe_components((#[trigger] files[j]).path) is Some) implies first_bad(
            files,
        ) == Some(files[i].path) by {
            assert forall|j: int| 0 <= j < i implies safe_components(
                (#[trigger] earlier[j]).path,
            ) is Some by {
                assert(earlier[j] == files[j]);
            }
            if i < earlier.len() {
                assert(earlier[i] == files[i]);
            } else {
                assert(files.last() == files[i]);
            }
        }
    }
}

/// An offer of plain names, no more than can be taken and no larger than the
/// limit, is taken, wherever it comes from: each file goes where its name says,
/// below the place that is found for the first part of it; and that place is
/// the name's own where nothing is in the way.
pub proof fn an_offer_of_plain_names_is_taken(
    offer: FileOfferView,
    names: Seq<Seq<Seq<char>>>,
    present: Seq<Seq<char>>,
    limit: u64,
    i: int,
)
    requires
        0 < offer.files.len() <= 20_000,
        bytes_in(offer.files) <= limit,
        offer.total_bytes <= limit,
        names.len() == offer.files.len(),
        forall|k: int|
            0 <= k < names.len() ==> (#[trigger] names[k]).len() > 0 && offer.files[k].path
                == with_slashes(names[k]),
        forall|k: int, m: int|
            0 <= k < names.len() && 0 <= m < names[k].len() ==> plain_name(#[trigger] names[k][m]),
        0 <= i < names.len(),
    ensures
        ({
            let plan = landing_plan(offer, present, limit);
            &&& plan is Ok
            &&& plan->Ok_0.paths.len() == names.len()
            &&& plan->Ok_0.paths[i].len() == names[i].len()
            &&& plan->Ok_0.paths[i].skip(1) == names[i].skip(1)
            &&& !present.contains(names[i][0]) ==> plan->Ok_0.paths[i] == names[i]
            &&& plan->Ok_0.top_level.contains(plan->Ok_0.paths[i][0])
        }),
{
    bytes_add_up(offer.files);
    bad_names_are_found(offer.files);
    assert forall|k: int| 0 <= k < offer.files.len() implies safe_components(
        (#[trigger] offer.files[k]).path,
    ) == Some(names[k]) by {
        assert(names[k].len() > 0);
        assert forall|m: int| 0 <= m < names[k].len() implies plain_name(
            #[trigger] names[k][m],
        ) by {}
        plain_names_are_taken(names[k]);
    }
    let plan = landing_plan(offer, present, limit)->Ok_0;
    assert(plan.paths[i] == place_entry(present)(offer.files[i]));
    assert(plan.paths[i] == placed(names[i], present));
    assert(plan.paths[i].skip(1) =~= names[i].skip(1));
    if !present.contains(names[i][0]) {
        assert(candidate_name(names[i][0], 1) == names[i][0]);
        assert(first_free(names[i][0], present, 1) == names[i][0]);
        assert(plan.paths[i] =~= names[i]);
    }
    a_manifest_lands_whole(offer, present, limit, i);
}

/// An offer is refused for the first of these that holds: that it names
/// nothing, that it names too many files, that they are too large or say that
/// they are, and then, by name, for the first name that may not be written.
pub proof fn why_an_offer_is_refused(offer: FileOfferView, present: Seq<Seq<char>>, limit: u64, i: int)
    ensures
        ({
            let plan = landing_plan(offer, present, limit);
            let count = offer.files.len();
            let bytes = bytes_in(offer.files);
            let large = bytes > limit || offer.total_bytes > limit;
            &&& count == 0 ==> plan is Err && plan->Err_0 is Empty
            &&& 20_000 < count <= usize::MAX ==> plan is Err && plan->Err_0 is TooMany
                && plan->Err_0->TooMany_0 == count
            &&& 0 < count <= 20_000 && large ==> plan is Err && plan->Err_0 is TooLarge
                && plan->Err_0->limit == limit && plan->Err_0->bytes >= offer.total_bytes && (bytes
                <= u64::MAX ==> plan->Err_0->bytes >= bytes && (plan->Err_0->bytes == bytes
                || plan->Err_0->bytes == offer.total_bytes)) && (bytes > u64::MAX
                ==> plan->Err_0->bytes == u64::MAX)
            &&& 0 < count <= 20_000 && !large && 0 <= i < count && safe_components(
                offer.files[i].path,
            ) is None && (forall|j: int|
                0 <= j < i ==> safe_components((#[trigger] offer.files[j]).path) is Some)
                ==> plan is Err && plan->Err_0 is BadPath && plan->Err_0->BadPath_0
                == offer.files[i].path
        }),
{
    bytes_add_up(offer.files);
    bad_names_are_found(offer.files);
}

// --- names that are given instead ----------------------------------------------------

proof fn the_last_dot(stem: Seq<char>, extension: Seq<char>)
    requires
        !extension.contains('.'),
    ensures
        last_at(stem + seq!['.'] + extension, '.') == stem.len(),
    decreases extension.len(),
{
    let s = stem + seq!['.'] + extension;
    if extension.len() == 0 {
        assert(s.last() == '.');
    } else {
        let fewer = extension.drop_last();
        assert(s.last() == extension.last());
        assert(extension.contains(extension[extension.len() - 1]));
        assert(!fewer.contains('.')) by {
            if fewer.contains('.') {
                let j = choose|j: int| 0 <= j < fewer.len() && fewer[j] == '.';
                assert(extension[j] == '.');
            }
        }
        the_last_dot(stem, fewer);
        assert(s.drop_last() =~= stem + seq!['.'] + fewer);
    }
}

proof fn no_dot_at_all(s: Seq<char>)
    requires
        !s.contains('.'),
    ensures
        last_at(s, '.') == -1,
    decreases s.len(),
{
    if s.len() > 0 {
        assert(s.contains(s[s.len() - 1]));
        assert(!s.drop_last().contains('.')) by {
            if s.drop_last().contains('.') {
                let j = choose|j: int| 0 <= j < s.len() - 1 && s.drop_last()[j] == '.';
                assert(s[j] == '.');
            }
        }
        no_dot_at_all(s.drop_last());
    }
}

/// The number that tells two of one name apart stands in brackets behind the
/// name, before its extension where it has one; the first is the name itself.
pub proof fn how_a_second_one_is_called(stem: Seq<char>, extension: Seq<char>, n: nat)
    requires
        n >= 2,
        stem.len() > 0,
        !extension.contains('.'),
    ensures
        ({
            let numbered = stem + seq![' ', '('] + decimal(n) + seq![')'];
            let whole = stem + seq!['.'] + extension;
            &&& candidate_name(whole, 1) == whole
            &&& candidate_name(whole, n) == numbered + seq!['.'] + extension
            &&& !stem.contains('.') ==> candidate_name(stem, n) == numbered
            &&& candidate_name(seq!['.'] + extension, n) == seq!['.'] + extension + seq![' ', '(']
                + decimal(n) + seq![')']
        }),
{
    the_last_dot(stem, extension);
    let whole = stem + seq!['.'] + extension;
    reveal_strlit(" (");
    reveal_strlit(")");
    reveal_strlit(").");
    assert(whole.take(stem.len() as int) =~= stem);
    assert(whole.skip(stem.len() as int + 1) =~= extension);
    assert(" ("@ =~= seq![' ', '(']);
    assert(")"@ =~= seq![')']);
    assert(")."@ =~= seq![')', '.']);
    assert(candidate_name(whole, n) =~= stem + seq![' ', '('] + decimal(n) + seq![')'] + seq!['.']
        + extension);
    if !stem.contains('.') {
        no_dot_at_all(stem);
        assert(candidate_name(stem, n) =~= stem + seq![' ', '('] + decimal(n) + seq![')']);
    }
    let none = Seq::<char>::empty();
    the_last_dot(none, extension);
    assert(none + seq!['.'] + extension =~= seq!['.'] + extension);
}

/// What is in the way is gone round by the next number that is free.
pub proof fn the_first_free_name_is_given(name: Seq<char>, present: Seq<Seq<char>>, k: nat)
    requires
        1 <= k < 10_000,
        !present.contains(candidate_name(name, k)),
        forall|j: nat| 1 <= j < k ==> present.contains(#[trigger] candidate_name(name, j)),
    ensures
        first_free(name, present, 1) == candidate_name(name, k),
{
    free_from(name, present, 1, k);
}

proof fn free_from(name: Seq<char>, present: Seq<Seq<char>>, n: nat, k: nat)
    requires
        1 <= n <= k < 10_000,
        !present.contains(candidate_name(name, k)),
        forall|j: nat| 1 <= j < k ==> present.contains(#[trigger] candidate_name(name, j)),
    ensures
        first_free(name, present, n) == candidate_name(name, k),
    decreases k - n,
{
    if n < k {
        assert(present.contains(candidate_name(name, n)));
        free_from(name, present, n + 1, k);
    }
}

/// The pasting application is handed each first part of a name once, and nothing
/// else.
pub proof fn each_top_level_name_is_handed_over_once(files: Seq<FileView>)
    ensures
        first_names(files).no_duplicates(),
        forall|n: int|
            0 <= n < first_names(files).len() ==> exists|i: int|
                0 <= i < files.len() && safe_components((#[trigger] files[i]).path) is Some
                    && safe_components(files[i].path)->0[0] == #[trigger] first_names(files)[n],
    decreases files.len(),
{
    if files.len() > 0 {
        let earlier = first_names(files.drop_last());
        let all = first_names(files);
        each_top_level_name_is_handed_over_once(files.drop_last());
        assert forall|n: int| 0 <= n < all.len() implies exists|i: int|
            0 <= i < files.len() && safe_components((#[trigger] files[i]).path) is Some
                && safe_components(files[i].path)->0[0] == #[trigger] all[n] by {
            if n < earlier.len() {
                assert(all[n] == earlier[n]);
                let i = choose|i: int|
                    0 <= i < files.drop_last().len() && safe_components(
                        (#[trigger] files.drop_last()[i]).path,
                    ) is Some && safe_components(files.drop_last()[i].path)->0[0] == earlier[n];
                assert(files[i] == files.drop_last()[i]);
            } else {
                assert(files[files.len() - 1] == files.last());
            }
        }
    }
}

} // verus!
