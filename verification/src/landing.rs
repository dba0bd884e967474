//! Files from another machine: where they may be written, and the pieces.
//!
//! What travels first is a *manifest*: relative names and sizes, nothing more.
//! Deciding where each arriving file may be written is the one place a name
//! from another machine touches this machine's disk.

use vstd::prelude::*;

use crate::clipboard::{quoted, shown_quoted};
use crate::proto::{FileEntry, FileOffer, FileOfferView, FileView, MAX_CHUNK_DATA};
use crate::table::listed;
use crate::text::{
    add_text, chars_of, decimal, decimal_of, find_last, first_at, first_at_finds, is_word, last_at, part,
    text_of,
};

verus! {

/// The most entries one copy may carry. A folder with more in it is refused
/// rather than announced a piece at a time for ever.
pub const MAX_ENTRIES: usize = 20_000;

/// How many names are tried for something that is already there.
pub const MOST_TRIES: u32 = 10_000;

/// Why a manifest from another machine is not one to write to disk.
#[derive(Debug, PartialEq, Eq)]
pub enum Unacceptable {
    Empty,
    TooLarge { bytes: u64, limit: u64 },
    TooMany(usize),
    /// A name that would land outside the directory it was meant for.
    BadPath(String),
}

pub enum UnacceptableView {
    Empty,
    TooLarge { bytes: u64, limit: u64 },
    TooMany(usize),
    BadPath(Seq<char>),
}

impl DeepView for Unacceptable {
    type V = UnacceptableView;

    open spec fn deep_view(&self) -> UnacceptableView {
        match self {
            Unacceptable::Empty => UnacceptableView::Empty,
            Unacceptable::TooLarge { bytes, limit } => UnacceptableView::TooLarge {
                bytes: *bytes,
                limit: *limit,
            },
            Unacceptable::TooMany(n) => UnacceptableView::TooMany(*n),
            Unacceptable::BadPath(p) => UnacceptableView::BadPath(p@),
        }
    }
}

pub open spec fn refusal(u: UnacceptableView) -> Seq<char> {
    match u {
        UnacceptableView::Empty => "it names no files"@,
        UnacceptableView::TooLarge { bytes, limit } => "it is "@ + decimal(bytes as nat)
            + " bytes and the limit is "@ + decimal(limit as nat)
            + "; raise transfer.max_bytes"@,
        UnacceptableView::TooMany(n) => "it names "@ + decimal(n as nat)
            + " files, more than can be taken"@,
        UnacceptableView::BadPath(p) => shown_quoted(p)
            + " is not a name a file may arrive under"@,
    }
}

impl Unacceptable {
    /// What this says to a person.
    pub fn message(&self) -> (r: String)
        ensures
            r@ == refusal(self.deep_view()),
    {
        match self {
            Unacceptable::Empty => "it names no files".to_owned(),
            Unacceptable::TooLarge { bytes, limit } => {
                let mut r: Vec<char> = chars_of("it is ");
                let mut number: Vec<char> = decimal_of(*bytes);
                r.append(&mut number);
                add_text(&mut r, " bytes and the limit is ");
                let mut number: Vec<char> = decimal_of(*limit);
                r.append(&mut number);
                add_text(&mut r, "; raise transfer.max_bytes");
                text_of(&r)
            },
            Unacceptable::TooMany(n) => {
                let mut r: Vec<char> = chars_of("it names ");
                let mut number: Vec<char> = decimal_of(*n as u64);
                r.append(&mut number);
                add_text(&mut r, " files, more than can be taken");
                text_of(&r)
            },
            Unacceptable::BadPath(p) => {
                let shown: String = quoted(p.as_str());
                let mut r: Vec<char> = chars_of(shown.as_str());
                add_text(&mut r, " is not a name a file may arrive under");
                text_of(&r)
            },
        }
    }
}

// --- names ----------------------------------------------------------------------

/// What stands between the slashes.
pub open spec fn between_slashes(s: Seq<char>) -> Seq<Seq<char>>
    decreases s.len(),
{
    let n = first_at(s, '/');
    if 0 <= n < s.len() {
        seq![s.take(n)] + between_slashes(s.skip(n + 1))
    } else {
        seq![s]
    }
}

/// A character no file system here accepts in a name.
pub open spec fn unfit(c: char) -> bool {
    let u = c as u32;
    ||| u <= 0x1F
    ||| 0x7F <= u <= 0x9F
    ||| c == '<'
    ||| c == '>'
    ||| c == ':'
    ||| c == '"'
    ||| c == '|'
    ||| c == '?'
    ||| c == '*'
}

/// Whether part of a name is passed over.
pub open spec fn is_idle(p: Seq<char>) -> bool {
    p.len() == 0 || p == "."@
}

/// Whether part of a name may be the name of a file.
pub open spec fn is_fit(p: Seq<char>) -> bool {
    &&& p.len() > 0
    &&& p.last() != '.'
    &&& p.last() != ' '
    &&& forall|i: int| 0 <= i < p.len() ==> !unfit(#[trigger] p[i])
}

/// The parts that count, if the others can be passed over.
pub open spec fn fit_parts(parts: Seq<Seq<char>>) -> Option<Seq<Seq<char>>>
    decreases parts.len(),
{
    if parts.len() == 0 {
        Some(seq![])
    } else {
        match fit_parts(parts.drop_last()) {
            Some(earlier) => if is_idle(parts.last()) {
                Some(earlier)
            } else if is_fit(parts.last()) {
                Some(earlier.push(parts.last()))
            } else {
                None
            },
            None => None,
        }
    }
}

/// The components of a relative name, or `None` if it is not one this will
/// write.
pub open spec fn safe_components(name: Seq<char>) -> Option<Seq<Seq<char>>> {
    if name.contains('\0') || name.contains('\\') || (name.len() > 0 && name[0] == '/') {
        None
    } else {
        match fit_parts(between_slashes(name)) {
            Some(parts) => if parts.len() == 0 {
                None
            } else {
                Some(parts)
            },
            None => None,
        }
    }
}

fn split_slashes(s: &Vec<char>) -> (r: Vec<Vec<char>>)
    ensures
        r.deep_view() == between_slashes(s@),
{
    let mut r: Vec<Vec<char>> = Vec::new();
    let mut from: usize = 0;
    proof {
        assert(s@.skip(0) =~= s@);
        assert(r.deep_view() + between_slashes(s@) =~= between_slashes(s@));
    }
    loop
        invariant
            from <= s.len(),
            between_slashes(s@) == r.deep_view() + between_slashes(s@.skip(from as int)),
        decreases s.len() - from,
    {
        let ghost rest = s@.skip(from as int);
        let ghost earlier = r.deep_view();
        let mut to: usize = from;
        proof {
            first_at_finds(rest, '/');
            assert(rest.skip(0) =~= rest);
        }
        while to < s.len() && s[to] != '/'
            invariant
                from <= to <= s.len(),
                rest == s@.skip(from as int),
                first_at(rest, '/') == to - from + first_at(rest.skip(to - from), '/'),
            decreases s.len() - to,
        {
            proof {
                assert(rest.skip(to - from)[0] == s@[to as int]);
                assert(rest.skip(to - from).drop_first() =~= rest.skip(to + 1 - from));
            }
            to += 1;
        }
        proof {
            if to < s.len() {
                assert(rest.skip(to - from)[0] == s@[to as int]);
            }
            assert(first_at(rest, '/') == to - from);
        }
        let piece: Vec<char> = part(s, from, to);
        assert(piece.deep_view() =~= piece@);
        let ghost pv = piece@;
        r.push(piece);
        assert(r.deep_view() =~= earlier.push(pv));
        if to == s.len() {
            proof {
                assert(pv =~= rest);
                assert(earlier + seq![rest] =~= r.deep_view());
            }
            return r;
        }
        proof {
            assert(rest.take(to - from) =~= pv);
            assert(rest.skip(to - from + 1) =~= s@.skip(to + 1));
            assert(earlier + (seq![pv] + between_slashes(s@.skip(to + 1))) =~= earlier.push(pv)
                + between_slashes(s@.skip(to + 1)));
        }
        from = to + 1;
    }
}

fn looks_fit(p: &Vec<char>) -> (r: bool)
    requires
        p@.len() > 0,
    ensures
        r == is_fit(p@),
{
    let last: char = p[p.len() - 1];
    if last == '.' || last == ' ' {
        return false;
    }
    let mut i: usize = 0;
    while i < p.len()
        invariant
            i <= p.len(),
            forall|j: int| 0 <= j < i ==> !unfit(#[trigger] p@[j]),
        decreases p.len() - i,
    {
        let c: char = p[i];
        let u: u32 = c as u32;
        if u <= 0x1F || (0x7F <= u && u <= 0x9F) || c == '<' || c == '>' || c == ':' || c == '"' || c
            == '|' || c == '?' || c == '*' {
            assert(unfit(p@[i as int]));
            return false;
        }
        i += 1;
    }
    true
}

fn holds(s: &Vec<char>, c: char) -> (r: bool)
    ensures
        r == s@.contains(c),
{
    let mut i: usize = 0;
    while i < s.len()
        invariant
            i <= s.len(),
            forall|j: int| 0 <= j < i ==> s@[j] != c,
        decreases s.len() - i,
    {
        if s[i] == c {
            assert(s@[i as int] == c);
            return true;
        }
        i += 1;
    }
    false
}

proof fn a_bad_part_spoils_the_name(parts: Seq<Seq<char>>, n: int)
    requires
        0 <= n <= parts.len(),
        fit_parts(parts.take(n)) is None,
    ensures
        fit_parts(parts) is None,
    decreases parts.len(),
{
    if n == parts.len() {
        assert(parts.take(n) =~= parts);
    } else {
        assert(parts.drop_last().take(n) =~= parts.take(n));
        a_bad_part_spoils_the_name(parts.drop_last(), n);
    }
}

/// The components of a relative name, or `None` if it is not one this will
/// write. Empty and `.` components are skipped; `..`, roots, drives and
/// characters no file system here accepts are refused outright.
pub fn safe_parts(name: &str) -> (r: Option<Vec<String>>)
    ensures
        r.deep_view() == safe_components(name@),
{
    let chars: Vec<char> = chars_of(name);
    if holds(&chars, '\0') || holds(&chars, '\\') || (chars.len() > 0 && chars[0] == '/') {
        return None;
    }
    let pieces: Vec<Vec<char>> = split_slashes(&chars);
    let ghost all = pieces.deep_view();
    let mut parts: Vec<String> = Vec::new();
    let mut i: usize = 0;
    proof {
        assert(all.take(0) =~= seq![]);
        assert(parts.deep_view() =~= seq![]);
    }
    while i < pieces.len()
        invariant
            i <= pieces.len(),
            all == pieces.deep_view(),
            all == between_slashes(name@),
            !(name@.contains('\0') || name@.contains('\\') || (name@.len() > 0 && name@[0] == '/')),
            fit_parts(all.take(i as int)) == Some(parts.deep_view()),
        decreases pieces.len() - i,
    {
        let ghost before = parts.deep_view();
        proof {
            assert(all.take(i + 1).drop_last() =~= all.take(i as int));
            assert(all.take(i + 1).last() == all[i as int]);
            assert(pieces@[i as int].deep_view() =~= pieces@[i as int]@);
        }
        let piece: &Vec<char> = &pieces[i];
        if piece.len() == 0 || is_word(piece, ".") {
            i += 1;
            continue ;
        }
        if !looks_fit(piece) {
            proof {
                a_bad_part_spoils_the_name(all, i + 1);
            }
            return None;
        }
        let text: String = text_of(piece);
        let ghost t = text@;
        parts.push(text);
        assert(parts.deep_view() =~= before.push(t));
        i += 1;
    }
    assert(all.take(i as int) =~= all);
    if parts.len() == 0 {
        None
    } else {
        Some(parts)
    }
}

/// Whether a name has a stem and an extension.
pub open spec fn has_extension(name: Seq<char>) -> bool {
    last_at(name, '.') > 0
}

/// `name`, or `name (2)`, `name (3)`...: the number stands before the
/// extension.
pub open spec fn candidate_name(name: Seq<char>, n: nat) -> Seq<char> {
    let dot = last_at(name, '.');
    if n <= 1 {
        name
    } else if has_extension(name) {
        name.take(dot) + " ("@ + decimal(n) + ")."@ + name.skip(dot + 1)
    } else {
        name + " ("@ + decimal(n) + ")"@
    }
}

/// The name that the `n`th try for a place is made under.
pub fn candidate(name: &str, n: u32) -> (r: String)
    ensures
        r@ == candidate_name(name@, n as nat),
{
    let chars: Vec<char> = chars_of(name);
    if n <= 1 {
        return text_of(&chars);
    }
    let mut number: Vec<char> = decimal_of(n as u64);
    match find_last(&chars, '.') {
        Some(dot) => if dot > 0 {
            let mut r: Vec<char> = part(&chars, 0, dot);
            assert(r@ =~= chars@.take(dot as int));
            let mut extension: Vec<char> = part(&chars, dot + 1, chars.len());
            assert(extension@ =~= chars@.skip(dot + 1));
            add_text(&mut r, " (");
            r.append(&mut number);
            add_text(&mut r, ").");
            r.append(&mut extension);
            return text_of(&r);
        },
        None => {},
    }
    let mut r: Vec<char> = chars;
    add_text(&mut r, " (");
    r.append(&mut number);
    add_text(&mut r, ")");
    text_of(&r)
}

/// The first candidate, from the `n`th on, that is not already present; the
/// name itself where none is left.
pub open spec fn first_free(name: Seq<char>, present: Seq<Seq<char>>, n: nat) -> Seq<char>
    decreases MOST_TRIES - n,
{
    if n >= MOST_TRIES {
        name
    } else if !present.contains(candidate_name(name, n)) {
        candidate_name(name, n)
    } else {
        first_free(name, present, n + 1)
    }
}

/// `name`, or `name (2)`, `name (3)`... -- the first not already present.
pub fn unclaimed(name: &String, present: &Vec<String>) -> (r: String)
    ensures
        r@ == first_free(name@, present.deep_view(), 1),
{
    let mut n: u32 = 1;
    while n < MOST_TRIES
        invariant
            1 <= n <= MOST_TRIES,
            first_free(name@, present.deep_view(), 1) == first_free(
                name@,
                present.deep_view(),
                n as nat,
            ),
        decreases MOST_TRIES - n,
    {
        let next: String = candidate(name.as_str(), n);
        if !listed(present, &next) {
            return next;
        }
        n += 1;
    }
    name.clone()
}

/// The name whose being there decides where `name` goes, while it is not known
/// whether it is: nothing once the place is known to be free, or every try is
/// known to be taken.
pub open spec fn open_question(
    name: Seq<char>,
    present: Seq<Seq<char>>,
    free: Seq<Seq<char>>,
) -> Option<Seq<char>> {
    let next = first_free(name, present, 1);
    if present.contains(next) || free.contains(next) {
        None
    } else {
        Some(next)
    }
}

/// What the disk is to be asked for next, to find a place for `name`, once it
/// has said of some names that they are `present` and of some that they are
/// `free`.
pub fn still_to_ask(name: &String, present: &Vec<String>, free: &Vec<String>) -> (r: Option<String>)
    ensures
        match r {
            Some(next) => open_question(name@, present.deep_view(), free.deep_view()) == Some(
                next@,
            ),
            None => open_question(name@, present.deep_view(), free.deep_view()) is None,
        },
{
    let next: String = unclaimed(name, present);
    if listed(present, &next) || listed(free, &next) {
        None
    } else {
        Some(next)
    }
}

// --- the plan --------------------------------------------------------------------

/// Where a manifest's files will be written, decided once before the first
/// byte arrives so nothing is half done when a name turns out to be bad.
#[derive(Debug, PartialEq, Eq)]
pub struct Landing {
    /// One per entry, in the manifest's order: the components below the
    /// directory everything lands in.
    pub paths: Vec<Vec<String>>,
    /// What the pasting application is handed: one name for each top-level
    /// file or folder.
    pub top_level: Vec<String>,
}

#[verifier::ext_equal]
pub struct LandingView {
    pub paths: Seq<Seq<Seq<char>>>,
    pub top_level: Seq<Seq<char>>,
}

impl DeepView for Landing {
    type V = LandingView;

    open spec fn deep_view(&self) -> LandingView {
        LandingView { paths: self.paths.deep_view(), top_level: self.top_level.deep_view() }
    }
}

pub open spec fn total(files: Seq<FileView>) -> nat
    decreases files.len(),
{
    if files.len() == 0 {
        0
    } else {
        total(files.drop_last()) + files.last().bytes as nat
    }
}

/// A number of bytes, as far as it can be shown.
pub open spec fn shown_total(n: nat) -> u64 {
    if n > u64::MAX {
        u64::MAX
    } else {
        n as u64
    }
}

/// The first components of the names, each once, in the order they come up.
pub open spec fn first_names(files: Seq<FileView>) -> Seq<Seq<char>>
    decreases files.len(),
{
    if files.len() == 0 {
        seq![]
    } else {
        let earlier = first_names(files.drop_last());
        match safe_components(files.last().path) {
            Some(parts) => if earlier.contains(parts[0]) {
                earlier
            } else {
                earlier.push(parts[0])
            },
            None => earlier,
        }
    }
}

/// Each top-level name is placed once, and everything beneath it follows.
pub open spec fn placed(parts: Seq<Seq<char>>, present: Seq<Seq<char>>) -> Seq<Seq<char>> {
    seq![first_free(parts[0], present, 1)] + parts.drop_first()
}

pub open spec fn place_top(present: Seq<Seq<char>>) -> spec_fn(Seq<char>) -> Seq<char> {
    |name: Seq<char>| first_free(name, present, 1)
}

pub open spec fn place_entry(present: Seq<Seq<char>>) -> spec_fn(FileView) -> Seq<Seq<char>> {
    |file: FileView| placed(safe_components(file.path)->0, present)
}

/// The first name that may not be written, if there is one.
pub open spec fn first_bad(files: Seq<FileView>) -> Option<Seq<char>>
    decreases files.len(),
{
    if files.len() == 0 {
        None
    } else {
        match first_bad(files.drop_last()) {
            Some(bad) => Some(bad),
            None => if safe_components(files.last().path) is None {
                Some(files.last().path)
            } else {
                None
            },
        }
    }
}

/// Where each file of an offer lands, or why none does.
pub open spec fn landing_plan(
    offer: FileOfferView,
    present: Seq<Seq<char>>,
    limit: u64,
) -> Result<LandingView, UnacceptableView> {
    let bytes = total(offer.files);
    if offer.files.len() == 0 {
        Err(UnacceptableView::Empty)
    } else if offer.files.len() > MAX_ENTRIES {
        Err(UnacceptableView::TooMany(offer.files.len() as usize))
    } else if bytes > limit || offer.total_bytes > limit {
        Err(
            UnacceptableView::TooLarge {
                bytes: shown_total(
                    if bytes > offer.total_bytes {
                        bytes
                    } else {
                        offer.total_bytes as nat
                    },
                ),
                limit,
            },
        )
    } else {
        match first_bad(offer.files) {
            Some(bad) => Err(UnacceptableView::BadPath(bad)),
            None => Ok(
                LandingView {
                    paths: offer.files.map_values(place_entry(present)),
                    top_level: first_names(offer.files).map_values(place_top(present)),
                },
            ),
        }
    }
}

pub(crate) fn total_of(files: &Vec<FileEntry>) -> (r: u128)
    ensures
        r == total(files.deep_view()),
{
    let ghost all = files.deep_view();
    let mut sum: u128 = 0;
    let mut i: usize = 0;
    assert(all.take(0) =~= seq![]);
    while i < files.len()
        invariant
            i <= files.len(),
            all == files.deep_view(),
            sum == total(all.take(i as int)),
            sum <= i * 0xFFFF_FFFF_FFFF_FFFF,
        decreases files.len() - i,
    {
        proof {
            assert(all.take(i + 1).drop_last() =~= all.take(i as int));
            assert(all.take(i + 1).last() == all[i as int]);
            assert(i * 0xFFFF_FFFF_FFFF_FFFF <= 0xFFFF_FFFF_FFFF_FFFF * 0xFFFF_FFFF_FFFF_FFFF)
                by (nonlinear_arith)
                requires
                    i <= 0xFFFF_FFFF_FFFF_FFFF,
            ;
        }
        sum += files[i].bytes as u128;
        i += 1;
    }
    assert(all.take(i as int) =~= all);
    sum
}

/// The top-level names of an offer, each once: the ones that may be present
/// already.
pub fn top_names(files: &Vec<FileEntry>) -> (r: Vec<String>)
    ensures
        r.deep_view() == first_names(files.deep_view()),
{
    let ghost all = files.deep_view();
    let mut r: Vec<String> = Vec::new();
    let mut i: usize = 0;
    proof {
        assert(all.take(0) =~= seq![]);
        assert(r.deep_view() =~= seq![]);
    }
    while i < files.len()
        invariant
            i <= files.len(),
            all == files.deep_view(),
            r.deep_view() == first_names(all.take(i as int)),
        decreases files.len() - i,
    {
        let ghost before = r.deep_view();
        proof {
            assert(all.take(i + 1).drop_last() =~= all.take(i as int));
            assert(all.take(i + 1).last() == all[i as int]);
        }
        if let Some(parts) = safe_parts(files[i].path.as_str()) {
            proof {
                assert(parts.deep_view().len() > 0);
                assert(parts.deep_view()[0] == parts@[0]@);
            }
            if !listed(&r, &parts[0]) {
                let first: String = parts[0].clone();
                let ghost f = first@;
                r.push(first);
                assert(r.deep_view() =~= before.push(f));
            }
        }
        i += 1;
    }
    assert(all.take(i as int) =~= all);
    r
}

fn place_one(parts: Vec<String>, present: &Vec<String>) -> (r: Vec<String>)
    requires
        parts@.len() > 0,
    ensures
        r.deep_view() == placed(parts.deep_view(), present.deep_view()),
{
    let mut parts: Vec<String> = parts;
    let ghost all = parts.deep_view();
    let first: String = unclaimed(&parts[0], present);
    let ghost f = first@;
    parts.set(0, first);
    assert(parts.deep_view() =~= placed(all, present.deep_view()));
    parts
}

proof fn a_bad_name_stays_first(files: Seq<FileView>, n: int)
    requires
        0 <= n <= files.len(),
        first_bad(files.take(n)) is Some,
    ensures
        first_bad(files) == first_bad(files.take(n)),
    decreases files.len(),
{
    if n == files.len() {
        assert(files.take(n) =~= files);
    } else {
        assert(files.drop_last().take(n) =~= files.take(n));
        a_bad_name_stays_first(files.drop_last(), n);
    }
}

fn paths_of(files: &Vec<FileEntry>, present: &Vec<String>) -> (r: Result<Vec<Vec<String>>, String>)
    ensures
        match r {
            Ok(paths) => first_bad(files.deep_view()) is None && paths.deep_view()
                == files.deep_view().map_values(place_entry(present.deep_view())),
            Err(bad) => first_bad(files.deep_view()) == Some(bad@),
        },
{
    let ghost all = files.deep_view();
    let mut paths: Vec<Vec<String>> = Vec::new();
    let mut i: usize = 0;
    proof {
        assert(all.take(0) =~= seq![]);
        assert(paths.deep_view() =~= seq![]);
    }
    while i < files.len()
        invariant
            i <= files.len(),
            all == files.deep_view(),
            first_bad(all.take(i as int)) is None,
            paths.deep_view() =~= all.take(i as int).map_values(place_entry(present.deep_view())),
        decreases files.len() - i,
    {
        let ghost before = paths.deep_view();
        proof {
            assert(all.take(i + 1).drop_last() =~= all.take(i as int));
            assert(all.take(i + 1).last() == all[i as int]);
        }
        match safe_parts(files[i].path.as_str()) {
            Some(parts) => {
                assert(parts.deep_view().len() == parts@.len());
                let path: Vec<String> = place_one(parts, present);
                let ghost p = path.deep_view();
                paths.push(path);
                assert(paths.deep_view() =~= before.push(p));
            },
            None => {
                proof {
                    a_bad_name_stays_first(all, i + 1);
                }
                return Err(files[i].path.clone());
            },
        }
        i += 1;
    }
    assert(all.take(i as int) =~= all);
    Ok(paths)
}

fn tops_of(names: &Vec<String>, present: &Vec<String>) -> (r: Vec<String>)
    ensures
        r.deep_view() == names.deep_view().map_values(place_top(present.deep_view())),
{
    let mut r: Vec<String> = Vec::new();
    let mut i: usize = 0;
    while i < names.len()
        invariant
            i <= names.len(),
            r.deep_view() =~= names.deep_view().take(i as int).map_values(
                place_top(present.deep_view()),
            ),
        decreases names.len() - i,
    {
        let ghost before = r.deep_view();
        let top: String = unclaimed(&names[i], present);
        let ghost t = top@;
        r.push(top);
        assert(r.deep_view() =~= before.push(t));
        i += 1;
    }
    assert(names.deep_view().take(i as int) =~= names.deep_view());
    r
}

/// Decide where each file in `offer` lands, given the names already `present`
/// in the directory.
///
/// Names are relative, `/`-separated, and may not escape: no absolute paths,
/// no `..`, no drive letters, nothing Windows will not take. A top-level name
/// already present gets a ` (2)` the way a browser's downloads do, so nothing
/// that was there is overwritten. Nothing is created here; that happens as the
/// bytes arrive.
pub fn plan_landing(offer: &FileOffer, present: &Vec<String>, limit: u64) -> (r: Result<
    Landing,
    Unacceptable,
>)
    ensures
        match r {
            Ok(landing) => landing_plan(offer.deep_view(), present.deep_view(), limit) == Ok::<
                LandingView,
                UnacceptableView,
            >(landing.deep_view()),
            Err(why) => landing_plan(offer.deep_view(), present.deep_view(), limit) == Err::<
                LandingView,
                UnacceptableView,
            >(why.deep_view()),
        },
{
    if offer.files.len() == 0 {
        return Err(Unacceptable::Empty);
    }
    if offer.files.len() > MAX_ENTRIES {
        return Err(Unacceptable::TooMany(offer.files.len()));
    }
    let bytes: u128 = total_of(&offer.files);
    if bytes > limit as u128 || offer.total_bytes > limit {
        let most: u128 = if bytes > offer.total_bytes as u128 {
            bytes
        } else {
            offer.total_bytes as u128
        };
        let shown: u64 = if most > u64::MAX as u128 {
            u64::MAX
        } else {
            most as u64
        };
        return Err(Unacceptable::TooLarge { bytes: shown, limit });
    }
    match paths_of(&offer.files, present) {
        Ok(paths) => {
            let names: Vec<String> = top_names(&offer.files);
            let top_level: Vec<String> = tops_of(&names, present);
            Ok(Landing { paths, top_level })
        },
        Err(bad) => Err(Unacceptable::BadPath(bad)),
    }
}

/// The top-level names of an offer for which places are to be found: none
/// where the offer is not taken.
pub fn names_to_place(offer: &FileOffer, limit: u64) -> (r: Vec<String>)
    ensures
        r.deep_view() == if landing_plan(offer.deep_view(), seq![], limit) is Ok {
            first_names(offer.deep_view().files)
        } else {
            seq![]
        },
{
    let nothing: Vec<String> = Vec::new();
    assert(nothing.deep_view() =~= seq![]);
    match plan_landing(offer, &nothing, limit) {
        Ok(_) => top_names(&offer.files),
        Err(_) => nothing,
    }
}

// --- pieces ------------------------------------------------------------------------

/// What to read of a file for one request.
#[derive(Debug, Clone, Copy, PartialEq, Eq, Structural)]
pub struct Piece {
    pub want: usize,
    pub last: bool,
}

/// How much of a file of `len` bytes answers a request for what starts at
/// `offset`: no more than one chunk carries, so a request is answered by
/// exactly one. Nothing, where that is past the end.
pub fn piece_of(len: u64, offset: u64) -> (r: Option<Piece>)
    ensures
        match r {
            Some(piece) => {
                &&& offset <= len
                &&& piece.want == (if len - offset < MAX_CHUNK_DATA {
                    len - offset
                } else {
                    MAX_CHUNK_DATA as int
                })
                &&& piece.last == (offset + piece.want == len)
            },
            None => offset > len,
        },
{
    if offset > len {
        return None;
    }
    let left: u64 = len - offset;
    if left <= MAX_CHUNK_DATA as u64 {
        Some(Piece { want: left as usize, last: true })
    } else {
        Some(Piece { want: MAX_CHUNK_DATA, last: false })
    }
}

/// A file being written as its pieces arrive.
#[derive(Debug, PartialEq, Eq)]
pub struct Arriving {
    written: u64,
}

impl View for Arriving {
    type V = u64;

    closed spec fn view(&self) -> u64 {
        self.written
    }
}

impl Arriving {
    /// Nothing of it has been written yet.
    pub fn create() -> (r: Arriving)
        ensures
            r@ == 0,
    {
        Arriving { written: 0 }
    }

    pub fn written(&self) -> (r: u64)
        ensures
            r == self@,
    {
        self.written
    }

    /// Whether a piece may be appended: it must begin exactly where the last
    /// one ended.
    pub fn admits(&self, offset: u64) -> (r: bool)
        ensures
            r == (offset == self@),
    {
        offset == self.written
    }

    /// Append a piece, which must begin exactly where the last one ended. It is
    /// refused otherwise, and where no file could be that long.
    pub fn append(&mut self, offset: u64, len: usize) -> (r: bool)
        ensures
            r == (offset == old(self)@ && old(self)@ + len <= u64::MAX),
            final(self)@ == (if r {
                (old(self)@ + len) as u64
            } else {
                old(self)@
            }),
    {
        if offset != self.written || len as u64 > u64::MAX - self.written {
            return false;
        }
        self.written = self.written + len as u64;
        true
    }
}

} // verus!
