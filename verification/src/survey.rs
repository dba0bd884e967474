//! What is being copied: the manifest of the files and folders an application
//! put on the clipboard.
//!
//! Files are entered as themselves; a folder is walked and every file under it
//! entered with its path relative to the folder's parent, so the folder arrives
//! as a folder. Symbolic links are not followed -- a link out of the copied
//! tree would carry whatever it points at, which nobody chose to copy.
//!
//! The walk is a state machine. It says which place to look at next; whoever
//! holds the disk looks, and says what was there. Places are numbers that the
//! one who looks gives out.

use vstd::prelude::*;

use crate::landing::{shown_total, total, MAX_ENTRIES};
use crate::order::{
    dictionary, dictionary_chains, dictionary_is_strict, dictionary_is_total, octets, octets_precede,
};
use crate::proto::{FileEntry, FileOffer, FileOfferView, FileView, TransferId};
use crate::text::{add_text, chars_of, decimal, decimal_of, text_of};

verus! {

/// Something inside a folder.
#[derive(Debug, PartialEq, Eq)]
pub struct Child {
    /// The name as the disk has it, by which a folder is ordered.
    pub raw: Vec<u8>,
    /// The name as text, under which it is copied.
    pub name: String,
    pub place: usize,
}

#[verifier::ext_equal]
pub struct ChildView {
    pub raw: Seq<u8>,
    pub name: Seq<char>,
    pub place: usize,
}

impl DeepView for Child {
    type V = ChildView;

    open spec fn deep_view(&self) -> ChildView {
        ChildView { raw: self.raw@, name: self.name@, place: self.place }
    }
}

/// What was found at a place.
#[derive(Debug, PartialEq, Eq)]
pub enum Found {
    File { bytes: u64 },
    Folder { children: Vec<Child> },
    /// A link, which is not followed.
    Link,
    /// Neither a file nor a folder: nothing to copy.
    Other,
}

#[verifier::ext_equal]
pub enum FoundView {
    File { bytes: u64 },
    Folder { children: Seq<ChildView> },
    Link,
    Other,
}

impl DeepView for Found {
    type V = FoundView;

    open spec fn deep_view(&self) -> FoundView {
        match self {
            Found::File { bytes } => FoundView::File { bytes: *bytes },
            Found::Folder { children } => FoundView::Folder { children: children.deep_view() },
            Found::Link => FoundView::Link,
            Found::Other => FoundView::Other,
        }
    }
}

/// What the walk wants next.
#[derive(Debug, Clone, Copy, PartialEq, Eq, Structural)]
pub enum Wanted {
    /// Look at this place.
    Look(usize),
    /// This place has no name to copy it under.
    Nameless(usize),
    /// There is more than one copy may carry.
    TooMany,
    Nothing,
}

struct Waiting {
    /// The path in the manifest, where there is a name for it.
    relative: Option<String>,
    place: usize,
}

#[verifier::ext_equal]
pub struct WaitingView {
    pub relative: Option<Seq<char>>,
    pub place: usize,
}

impl DeepView for Waiting {
    type V = WaitingView;

    closed spec fn deep_view(&self) -> WaitingView {
        WaitingView { relative: self.relative.deep_view(), place: self.place }
    }
}

/// A manifest in the making.
pub struct Survey {
    files: Vec<FileEntry>,
    places: Vec<usize>,
    waiting: Vec<Waiting>,
}

#[verifier::ext_equal]
pub struct SurveyView {
    /// The manifest so far.
    pub files: Seq<FileView>,
    /// Where each of its entries is.
    pub places: Seq<usize>,
    /// What has not been looked at, the next of it last.
    pub waiting: Seq<WaitingView>,
}

impl View for Survey {
    type V = SurveyView;

    closed spec fn view(&self) -> SurveyView {
        SurveyView {
            files: self.files.deep_view(),
            places: self.places@,
            waiting: self.waiting.deep_view(),
        }
    }
}

// --- the order of a folder -----------------------------------------------------

/// Whether one name comes before another.
pub open spec fn named_before(a: ChildView, b: ChildView) -> bool {
    dictionary(octets(a.raw), octets(b.raw))
}

/// How many of the leading items do not come after `x`.
pub open spec fn not_after(s: Seq<ChildView>, x: ChildView) -> nat
    decreases s.len(),
{
    if s.len() == 0 || named_before(x, s[0]) {
        0
    } else {
        1 + not_after(s.drop_first(), x)
    }
}

/// Whether nothing comes before what stands ahead of it.
pub open spec fn in_order(s: Seq<ChildView>) -> bool {
    forall|i: int, j: int| 0 <= i < j < s.len() ==> !named_before(#[trigger] s[j], #[trigger] s[i])
}

/// The items in the order of their names; of those with one name, the earlier
/// stays the earlier.
pub open spec fn by_name(s: Seq<ChildView>) -> Seq<ChildView>
    decreases s.len(),
{
    if s.len() == 0 {
        seq![]
    } else {
        let earlier = by_name(s.drop_last());
        earlier.insert(not_after(earlier, s.last()) as int, s.last())
    }
}

proof fn not_after_is_within(s: Seq<ChildView>, x: ChildView)
    ensures
        not_after(s, x) <= s.len(),
    decreases s.len(),
{
    if s.len() > 0 && !named_before(x, s[0]) {
        not_after_is_within(s.drop_first(), x);
    }
}

/// The place of an item among others that are in order.
fn place_for(items: &Vec<Child>, x: &Child) -> (r: usize)
    requires
        in_order(items.deep_view()),
    ensures
        r == not_after(items.deep_view(), x.deep_view()),
        r <= items@.len(),
{
    let ghost s = items.deep_view();
    let ghost c = x.deep_view();
    let mut low: usize = 0;
    let mut high: usize = items.len();
    while low < high
        invariant
            low <= high <= items@.len(),
            s == items.deep_view(),
            c == x.deep_view(),
            in_order(s),
            forall|i: int| 0 <= i < low ==> !named_before(c, #[trigger] s[i]),
            forall|i: int| high <= i < s.len() ==> named_before(c, #[trigger] s[i]),
        decreases high - low,
    {
        let middle: usize = low + (high - low) / 2;
        let ghost m = s[middle as int];
        if octets_precede(&x.raw, &items[middle].raw) {
            proof {
                assert forall|i: int| middle <= i < s.len() implies named_before(
                    c,
                    #[trigger] s[i],
                ) by {
                    if i > middle {
                        dictionary_is_total(octets(m.raw), octets(s[i].raw));
                        if named_before(m, s[i]) {
                            dictionary_chains(octets(c.raw), octets(m.raw), octets(s[i].raw));
                        }
                    }
                }
            }
            high = middle;
        } else {
            proof {
                assert forall|i: int| 0 <= i <= middle implies !named_before(
                    c,
                    #[trigger] s[i],
                ) by {
                    if i < middle && named_before(c, s[i]) {
                        dictionary_is_total(octets(s[i].raw), octets(m.raw));
                        if named_before(s[i], m) {
                            dictionary_chains(octets(c.raw), octets(s[i].raw), octets(m.raw));
                        }
                    }
                }
            }
            low = middle + 1;
        }
    }
    proof {
        not_after_splits(s, c);
        let n = not_after(s, c) as int;
        if n < low {
            assert(named_before(c, s[n]));
        } else if n > low {
            assert(!named_before(c, s[low as int]));
        }
    }
    low
}

fn sorted(children: Vec<Child>) -> (r: Vec<Child>)
    ensures
        r.deep_view() == by_name(children.deep_view()),
{
    let ghost all = children.deep_view();
    let mut left: Vec<Child> = children;
    let mut reversed: Vec<Child> = Vec::new();
    while left.len() > 0
        invariant
            left@.len() + reversed@.len() == all.len(),
            left.deep_view() == all.take(left@.len() as int),
            forall|i: int|
                0 <= i < reversed@.len() ==> (#[trigger] reversed@[i]).deep_view() == all[all.len()
                    - 1 - i],
        decreases left@.len(),
    {
        let ghost before = left.deep_view();
        match left.pop() {
            Some(child) => {
                proof {
                    assert(before.last() == child.deep_view());
                    assert(left.deep_view() =~= before.drop_last());
                    assert(left.deep_view() =~= all.take(left@.len() as int));
                }
                reversed.push(child);
            },
            None => {},
        }
    }
    let mut r: Vec<Child> = Vec::new();
    proof {
        assert(all.take(0) =~= seq![]);
        assert(r.deep_view() =~= seq![]);
    }
    let ghost mut done: int = 0;
    while reversed.len() > 0
        invariant
            0 <= done <= all.len(),
            reversed@.len() == all.len() - done,
            forall|i: int|
                0 <= i < reversed@.len() ==> (#[trigger] reversed@[i]).deep_view() == all[all.len()
                    - 1 - i],
            r.deep_view() == by_name(all.take(done)),
        decreases reversed@.len(),
    {
        let ghost sorted_so_far = r.deep_view();
        match reversed.pop() {
            Some(child) => {
                let ghost c = child.deep_view();
                proof {
                    assert(c == all[done]);
                    assert(all.take(done + 1).drop_last() =~= all.take(done));
                    assert(all.take(done + 1).last() == c);
                    by_name_is_in_order(all.take(done));
                }
                let at: usize = place_for(&r, &child);
                r.insert(at, child);
                proof {
                    assert(r.deep_view() =~= sorted_so_far.insert(at as int, c));
                    done = done + 1;
                }
            },
            None => {},
        }
    }
    assert(all.take(done) =~= all);
    r
}

/// A folder is walked in the order of the names in it.
pub proof fn by_name_is_in_order(s: Seq<ChildView>)
    ensures
        by_name(s).len() == s.len(),
        by_name(s).to_multiset() == s.to_multiset(),
        in_order(by_name(s)),
    decreases s.len(),
{
    broadcast use vstd::seq_lib::group_to_multiset_ensures;

    if s.len() > 0 {
        let earlier = by_name(s.drop_last());
        let x = s.last();
        by_name_is_in_order(s.drop_last());
        not_after_is_within(earlier, x);
        let at = not_after(earlier, x) as int;
        not_after_splits(earlier, x);
        let all = by_name(s);
        assert(s =~= s.drop_last().push(x));
        assert forall|i: int, j: int| 0 <= i < j < all.len() implies !named_before(
            #[trigger] all[j],
            #[trigger] all[i],
        ) by {
            if i == at {
                assert(all[j] == earlier[j - 1]);
                dictionary_is_strict(octets(x.raw));
                if named_before(earlier[j - 1], x) {
                    // x comes before the item it stands in front of, and so does
                    // nothing that follows it.
                    if j - 1 > at {
                        if named_before(earlier[j - 1], earlier[at]) {
                        } else {
                            dictionary_chains(
                                octets(earlier[j - 1].raw),
                                octets(x.raw),
                                octets(earlier[at].raw),
                            );
                        }
                    } else {
                        dictionary_chains(
                            octets(x.raw),
                            octets(earlier[at].raw),
                            octets(x.raw),
                        );
                    }
                }
            } else if j == at {
                assert(all[i] == earlier[i]);
            } else {
                let a = if i < at { i } else { i - 1 };
                let b = if j < at { j } else { j - 1 };
                assert(all[i] == earlier[a] && all[j] == earlier[b]);
            }
        }
        assert(all =~= earlier.insert(at, x));
        vstd::seq_lib::to_multiset_insert(earlier, at, x);
    }
}

proof fn not_after_splits(s: Seq<ChildView>, x: ChildView)
    ensures
        not_after(s, x) <= s.len(),
        forall|i: int| 0 <= i < not_after(s, x) ==> !named_before(x, #[trigger] s[i]),
        not_after(s, x) < s.len() ==> named_before(x, s[not_after(s, x) as int]),
    decreases s.len(),
{
    if s.len() > 0 && !named_before(x, s[0]) {
        not_after_splits(s.drop_first(), x);
        assert forall|i: int| 0 <= i < not_after(s, x) implies !named_before(
            x,
            #[trigger] s[i],
        ) by {
            if i > 0 {
                assert(s[i] == s.drop_first()[i - 1]);
            }
        }
    }
}

// --- the walk --------------------------------------------------------------------

/// Something that was copied, under its own name where it has one.
#[derive(Debug, PartialEq, Eq)]
pub struct Copied {
    pub name: Option<String>,
    pub place: usize,
}

#[verifier::ext_equal]
pub struct CopiedView {
    pub name: Option<Seq<char>>,
    pub place: usize,
}

impl DeepView for Copied {
    type V = CopiedView;

    open spec fn deep_view(&self) -> CopiedView {
        CopiedView { name: self.name.deep_view(), place: self.place }
    }
}

pub open spec fn waiting_for() -> spec_fn(CopiedView) -> WaitingView {
    |c: CopiedView|
        WaitingView {
            relative: match c.name {
                Some(name) => if name.len() == 0 {
                    None
                } else {
                    Some(name)
                },
                None => None,
            },
            place: c.place,
        }
}

/// Nothing has been looked at yet.
pub open spec fn begun(copied: Seq<CopiedView>) -> SurveyView {
    SurveyView {
        files: seq![],
        places: seq![],
        waiting: copied.map_values(waiting_for()).reverse(),
    }
}

pub open spec fn next_wanted(s: SurveyView) -> Wanted {
    if s.waiting.len() == 0 {
        Wanted::Nothing
    } else if s.waiting.last().relative is None {
        Wanted::Nameless(s.waiting.last().place)
    } else if s.files.len() >= MAX_ENTRIES {
        Wanted::TooMany
    } else {
        Wanted::Look(s.waiting.last().place)
    }
}

pub open spec fn beneath(relative: Seq<char>) -> spec_fn(ChildView) -> WaitingView {
    |c: ChildView| WaitingView { relative: Some(relative + "/"@ + c.name), place: c.place }
}

/// The manifest with one entry more.
pub open spec fn entered(s: SurveyView, relative: Seq<char>, bytes: u64, is_dir: bool) -> SurveyView {
    SurveyView {
        files: s.files.push(FileView { path: relative, bytes, is_dir }),
        places: s.places.push(s.waiting.last().place),
        waiting: s.waiting.drop_last(),
    }
}

/// What is known once the next place was looked at.
pub open spec fn looked(s: SurveyView, found: FoundView) -> SurveyView {
    let relative = s.waiting.last().relative->0;
    match found {
        FoundView::File { bytes } => entered(s, relative, bytes, false),
        FoundView::Folder { children } => {
            let after = entered(s, relative, 0, true);
            SurveyView {
                waiting: after.waiting + by_name(children).map_values(
                    beneath(relative),
                ).reverse(),
                ..after
            }
        },
        FoundView::Link => SurveyView { waiting: s.waiting.drop_last(), ..s },
        FoundView::Other => SurveyView { waiting: s.waiting.drop_last(), ..s },
    }
}

/// A manifest along with where its files actually are, kept by the machine
/// that offered them for as long as the offer stands.
#[derive(Debug, Clone, PartialEq, Eq)]
pub struct Offered {
    pub offer: FileOffer,
    /// One per entry, in the manifest's order. Folders have a place too, though
    /// nothing is ever read from them.
    pub places: Vec<usize>,
}

#[verifier::ext_equal]
pub struct OfferedView {
    pub offer: FileOfferView,
    pub places: Seq<usize>,
}

impl DeepView for Offered {
    type V = OfferedView;

    open spec fn deep_view(&self) -> OfferedView {
        OfferedView { offer: self.offer.deep_view(), places: self.places@ }
    }
}

fn add_beneath(waiting: &mut Vec<Waiting>, relative: &String, children: Vec<Child>)
    ensures
        final(waiting).deep_view() == old(waiting).deep_view() + children.deep_view().map_values(
            beneath(relative@),
        ).reverse(),
{
    let ghost all = children.deep_view();
    let ghost start = waiting.deep_view();
    let ghost lines = all.map_values(beneath(relative@)).reverse();
    let mut left: Vec<Child> = children;
    assert(start + lines.take(0) =~= start);
    while left.len() > 0
        invariant
            left@.len() <= all.len(),
            left.deep_view() == all.take(left@.len() as int),
            lines == all.map_values(beneath(relative@)).reverse(),
            waiting.deep_view() == start + lines.take(all.len() - left@.len()),
        decreases left@.len(),
    {
        let ghost before = left.deep_view();
        let ghost so_far = waiting.deep_view();
        match left.pop() {
            Some(child) => {
                let mut path: Vec<char> = chars_of(relative.as_str());
                add_text(&mut path, "/");
                add_text(&mut path, child.name.as_str());
                let next: Waiting = Waiting {
                    relative: Some(text_of(&path)),
                    place: child.place,
                };
                let ghost n = next.deep_view();
                proof {
                    assert(before.last() == child.deep_view());
                    assert(left.deep_view() =~= before.drop_last());
                    assert(left.deep_view() =~= all.take(left@.len() as int));
                    let done = all.len() - left@.len() - 1;
                    assert(lines[done] == beneath(relative@)(all[all.len() - 1 - done]));
                    assert(n == lines[done]);
                    assert(lines.take(done + 1) =~= lines.take(done).push(n));
                }
                waiting.push(next);
                assert(waiting.deep_view() =~= so_far.push(n));
            },
            None => {},
        }
    }
    assert(lines.take(all.len() as int) =~= lines);
}

impl Survey {
    /// Begin with what was copied.
    pub fn new(copied: Vec<Copied>) -> (r: Survey)
        ensures
            r@ == begun(copied.deep_view()),
    {
        let ghost all = copied.deep_view();
        let ghost lines = all.map_values(waiting_for()).reverse();
        let mut left: Vec<Copied> = copied;
        let mut waiting: Vec<Waiting> = Vec::new();
        assert(waiting.deep_view() =~= lines.take(0));
        while left.len() > 0
            invariant
                left@.len() <= all.len(),
                left.deep_view() == all.take(left@.len() as int),
                lines == all.map_values(waiting_for()).reverse(),
                waiting.deep_view() == lines.take(all.len() - left@.len()),
            decreases left@.len(),
        {
            let ghost before = left.deep_view();
            let ghost so_far = waiting.deep_view();
            match left.pop() {
                Some(one) => {
                    let ghost ov = one.deep_view();
                    proof {
                        assert(before.last() == ov);
                        assert(left.deep_view() =~= before.drop_last());
                        assert(left.deep_view() =~= all.take(left@.len() as int));
                    }
                    let relative: Option<String> = match one.name {
                        Some(name) => {
                            let chars: Vec<char> = chars_of(name.as_str());
                            if chars.len() == 0 {
                                None
                            } else {
                                Some(name)
                            }
                        },
                        None => None,
                    };
                    let next: Waiting = Waiting { relative, place: one.place };
                    let ghost n = next.deep_view();
                    proof {
                        let done = all.len() - left@.len() - 1;
                        assert(lines[done] == waiting_for()(all[all.len() - 1 - done]));
                        assert(n == lines[done]);
                        assert(lines.take(done + 1) =~= lines.take(done).push(n));
                    }
                    waiting.push(next);
                    assert(waiting.deep_view() =~= so_far.push(n));
                },
                None => {},
            }
        }
        let files: Vec<FileEntry> = Vec::new();
        let places: Vec<usize> = Vec::new();
        let r: Survey = Survey { files, places, waiting };
        proof {
            assert(lines.take(all.len() as int) =~= lines);
            assert(r@ =~= begun(all));
        }
        r
    }

    /// What the walk wants next.
    pub fn wanted(&self) -> (r: Wanted)
        ensures
            r == next_wanted(self@),
    {
        let n: usize = self.waiting.len();
        if n == 0 {
            return Wanted::Nothing;
        }
        let next: &Waiting = &self.waiting[n - 1];
        assert(self@.waiting.last() == next.deep_view());
        match &next.relative {
            None => Wanted::Nameless(next.place),
            Some(_) => if self.files.len() >= MAX_ENTRIES {
                Wanted::TooMany
            } else {
                Wanted::Look(next.place)
            },
        }
    }

    /// Take note of what was at the place that was wanted.
    pub fn found(&mut self, what: Found)
        requires
            next_wanted(old(self)@) is Look,
        ensures
            final(self)@ == looked(old(self)@, what.deep_view()),
    {
        let ghost was = self@;
        let next: Waiting = match self.waiting.pop() {
            Some(next) => next,
            None => {
                return ;
            },
        };
        let relative: String = match next.relative {
            Some(relative) => relative,
            None => {
                return ;
            },
        };
        proof {
            assert(self.waiting.deep_view() =~= was.waiting.drop_last());
            assert(was.waiting.last() == next.deep_view());
        }
        match what {
            Found::File { bytes } => {
                let entry: FileEntry = FileEntry { path: relative, bytes, is_dir: false };
                let ghost e = entry.deep_view();
                self.files.push(entry);
                self.places.push(next.place);
                proof {
                    assert(self.files.deep_view() =~= was.files.push(e));
                    assert(self@ =~= looked(was, FoundView::File { bytes }));
                }
            },
            Found::Folder { children } => {
                let ghost all = children.deep_view();
                let entry: FileEntry = FileEntry {
                    path: relative.clone(),
                    bytes: 0,
                    is_dir: true,
                };
                let ghost e = entry.deep_view();
                self.files.push(entry);
                self.places.push(next.place);
                add_beneath(&mut self.waiting, &relative, sorted(children));
                proof {
                    assert(self.files.deep_view() =~= was.files.push(e));
                    assert(self@ =~= looked(was, FoundView::Folder { children: all }));
                }
            },
            Found::Link => {
                assert(self@ =~= looked(was, FoundView::Link));
            },
            Found::Other => {
                assert(self@ =~= looked(was, FoundView::Other));
            },
        }
    }

    /// The manifest, once there is nothing left to look at.
    pub fn finish(self, id: TransferId) -> (r: Offered)
        requires
            next_wanted(self@) is Nothing,
        ensures
            r.deep_view() == (OfferedView {
                offer: FileOfferView {
                    id,
                    files: self@.files,
                    total_bytes: shown_total(total(self@.files)),
                },
                places: self@.places,
            }),
    {
        let sum: u128 = crate::landing::total_of(&self.files);
        let total_bytes: u64 = if sum > u64::MAX as u128 {
            u64::MAX
        } else {
            sum as u64
        };
        Offered { offer: FileOffer { id, files: self.files, total_bytes }, places: self.places }
    }
}

/// What a person is told of a copy with too much in it.
pub fn too_many_message() -> (r: String)
    ensures
        r@ == "more than "@ + decimal(MAX_ENTRIES as nat) + " files in one copy"@,
{
    let mut r: Vec<char> = chars_of("more than ");
    let mut number: Vec<char> = decimal_of(MAX_ENTRIES as u64);
    r.append(&mut number);
    add_text(&mut r, " files in one copy");
    text_of(&r)
}

/// What a person is told of something that has no name.
pub fn nameless_message(shown: &str) -> (r: String)
    ensures
        r@ == shown@ + " has no name to copy it under"@,
{
    let mut r: Vec<char> = chars_of(shown);
    add_text(&mut r, " has no name to copy it under");
    text_of(&r)
}

// --- laws --------------------------------------------------------------------------

/// Each entry of the manifest has a place, and there are never more than one
/// copy may carry.
pub open spec fn in_step(s: SurveyView) -> bool {
    s.places.len() == s.files.len() && s.files.len() <= MAX_ENTRIES
}

/// However the walk goes, the manifest stays in step with the places and
/// within its bounds.
pub proof fn a_walk_stays_in_step(s: SurveyView, copied: Seq<CopiedView>, found: FoundView)
    ensures
        in_step(begun(copied)),
        in_step(s) && next_wanted(s) is Look ==> in_step(looked(s, found)),
{
}

/// A link adds nothing to what is copied, and nothing to look at.
pub proof fn a_link_is_not_followed(s: SurveyView)
    requires
        next_wanted(s) is Look,
    ensures
        looked(s, FoundView::Link).files == s.files,
        looked(s, FoundView::Link).waiting == s.waiting.drop_last(),
{
}

/// What is found in a folder is entered beneath the folder.
pub proof fn a_folder_arrives_as_a_folder(s: SurveyView, children: Seq<ChildView>, i: int)
    requires
        next_wanted(s) is Look,
        0 <= i < children.len(),
    ensures
        ({
            let after = looked(s, FoundView::Folder { children });
            let folder = s.waiting.last().relative->0;
            let next = after.waiting[after.waiting.len() - 1 - i];
            &&& after.files.last() == (FileView { path: folder, bytes: 0, is_dir: true })
            &&& next.relative == Some(folder + "/"@ + by_name(children)[i].name)
            &&& next.place == by_name(children)[i].place
        }),
{
    by_name_is_in_order(children);
}

} // verus!
