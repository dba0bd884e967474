//! Asking an X11 application for what it has copied.
//!
//! X11 has no clipboard as such. It has selections, and the application that
//! last copied something keeps holding it, answering requests from whoever
//! wants to paste. Reading therefore means asking that application and waiting
//! for it to answer.
//!
//! Large contents arrive in pieces, through what the protocol calls INCR: the
//! owner replies with a size instead of the data, then sends it a property at
//! a time. Skipping that is why some tools cannot paste anything sizeable out
//! of a browser, since browsers use it readily.

use vstd::prelude::*;

use crate::bytes::{number32, read32};
use crate::clipboard::{Available, ClipboardError, ClipboardErrorView};
use crate::proto::{ClipFormat, FormatView};
use crate::table::{listed, reversed};
use crate::text::{chars_of, decimal, decimal_of, text_of};

verus! {

/// How long to wait for the application holding the selection to answer, in
/// milliseconds.
///
/// It is another program, and it may be busy or wedged. Waiting forever would
/// make one unresponsive application freeze the whole link.
pub const ANSWER_TIMEOUT: u64 = 5000;

/// The window or the property that stands for none.
pub const NONE: u32 = 0;

/// The atoms this needs, resolved once.
#[derive(Clone, Copy, Debug, PartialEq, Eq, Structural)]
pub struct Atoms {
    pub clipboard: u32,
    pub targets: u32,
    pub incr: u32,
    pub utf8_string: u32,
    pub text_plain_utf8: u32,
    pub text_html: u32,
    pub image_png: u32,
    pub uri_list: u32,
    /// Where replies to our own requests are placed.
    pub transfer: u32,
}

impl Atoms {
    /// The format that a target stands for.
    pub open spec fn stands_for(&self, target: u32) -> Option<FormatView> {
        if target == self.utf8_string || target == self.text_plain_utf8 {
            Some(FormatView::Text)
        } else if target == self.text_html {
            Some(FormatView::Html)
        } else if target == self.image_png {
            Some(FormatView::Png)
        } else if target == self.uri_list {
            Some(FormatView::Uris)
        } else {
            None
        }
    }

    /// The targets that stand for a format, the preferred one first.
    pub open spec fn preferred(&self, format: FormatView) -> Seq<u32> {
        match format {
            FormatView::Text => seq![self.utf8_string, self.text_plain_utf8],
            FormatView::Html => seq![self.text_html],
            FormatView::Png => seq![self.image_png],
            FormatView::Uris => seq![self.uri_list],
            FormatView::Other(_) => seq![],
        }
    }

    /// No name stands for two things.
    pub open spec fn distinct(&self) -> bool {
        &&& self.text_html != self.utf8_string && self.text_html != self.text_plain_utf8
        &&& self.image_png != self.utf8_string && self.image_png != self.text_plain_utf8
        &&& self.image_png != self.text_html
        &&& self.uri_list != self.utf8_string && self.uri_list != self.text_plain_utf8
        &&& self.uri_list != self.text_html && self.uri_list != self.image_png
        &&& self.targets != self.utf8_string && self.targets != self.text_plain_utf8
        &&& self.targets != self.text_html && self.targets != self.image_png
        &&& self.targets != self.uri_list
    }

    /// Which of our formats an X11 target stands for.
    pub fn format_of(&self, target: u32) -> (r: Option<ClipFormat>)
        ensures
            match r {
                Some(format) => self.stands_for(target) == Some(format.deep_view()),
                None => self.stands_for(target) is None,
            },
    {
        if target == self.utf8_string || target == self.text_plain_utf8 {
            Some(ClipFormat::Text)
        } else if target == self.text_html {
            Some(ClipFormat::Html)
        } else if target == self.image_png {
            Some(ClipFormat::Png)
        } else if target == self.uri_list {
            Some(ClipFormat::Uris)
        } else {
            None
        }
    }

    /// The targets to ask for, in order of preference.
    ///
    /// Text is offered as both names for it: applications disagree about which
    /// to advertise, and asking for only one loses to whichever disagrees.
    pub fn targets_for(&self, format: &ClipFormat) -> (r: Vec<u32>)
        ensures
            r@ == self.preferred(format.deep_view()),
    {
        let mut r: Vec<u32> = Vec::new();
        match format {
            ClipFormat::Text => {
                r.push(self.utf8_string);
                r.push(self.text_plain_utf8);
            },
            ClipFormat::Html => r.push(self.text_html),
            ClipFormat::Png => r.push(self.image_png),
            ClipFormat::Uris => r.push(self.uri_list),
            ClipFormat::Other(_) => {},
        }
        assert(r@ =~= self.preferred(format.deep_view()));
        r
    }
}

/// A target that is asked for a format stands for that format, and the request
/// for the list of targets stands for none.
pub proof fn asking_and_answering_agree(atoms: Atoms, format: FormatView, i: int)
    requires
        atoms.distinct(),
        0 <= i < atoms.preferred(format).len(),
    ensures
        atoms.stands_for(atoms.preferred(format)[i]) == Some(format),
        atoms.stands_for(atoms.targets) is None,
{
}

// --- what an owner says it has ----------------------------------------------

/// The number four bytes spell in the byte order of the machine.
pub open spec fn native32(s: Seq<u8>, at: int, big_endian: bool) -> u32 {
    if big_endian {
        (s[at + 3] + 256 * s[at + 2] + 65536 * s[at + 1] + 16777216 * s[at]) as u32
    } else {
        number32(s, at) as u32
    }
}

/// The atoms in a run of bytes, without the odd bytes at the end.
pub open spec fn atoms_in(s: Seq<u8>, big_endian: bool) -> Seq<u32> {
    Seq::new(s.len() / 4, |i: int| native32(s, 4 * i, big_endian))
}

/// The atoms in a list that an owner wrote.
pub fn read_atoms(s: &[u8], big_endian: bool) -> (r: Vec<u32>)
    ensures
        r@ == atoms_in(s@, big_endian),
{
    let mut r: Vec<u32> = Vec::new();
    let len: usize = s.len();
    let count: usize = len / 4;
    let mut i: usize = 0;
    while i < count
        invariant
            len == s@.len(),
            count == len / 4,
            i <= count,
            r@ =~= atoms_in(s@, big_endian).take(i as int),
        decreases count - i,
    {
        let at: usize = 4 * i;
        let atom: u32 = if big_endian {
            s[at + 3] as u32 + 256 * (s[at + 2] as u32) + 65536 * (s[at + 1] as u32) + 16777216 * (
            s[at] as u32)
        } else {
            read32(s, at)
        };
        r.push(atom);
        i += 1;
    }
    assert(atoms_in(s@, big_endian).take(i as int) =~= atoms_in(s@, big_endian));
    r
}

/// The formats that targets stand for, each where it first comes up.
pub open spec fn formats_among(atoms: Atoms, targets: Seq<u32>) -> Seq<FormatView>
    decreases targets.len(),
{
    if targets.len() == 0 {
        seq![]
    } else {
        let before = formats_among(atoms, targets.drop_last());
        match atoms.stands_for(targets.last()) {
            Some(format) => if before.contains(format) {
                before
            } else {
                before.push(format)
            },
            None => before,
        }
    }
}

impl Atoms {
    /// What the owner says it can provide, from its answer.
    ///
    /// Where there is none, nothing owns the clipboard or it will not say.
    pub fn available(&self, answer: Result<Vec<u8>, ClipboardError>, big_endian: bool) -> (r:
        Available)
        ensures
            match answer {
                Ok(bytes) => r.formats.deep_view() == formats_among(
                    *self,
                    atoms_in(bytes@, big_endian),
                ),
                Err(_) => r.formats.deep_view() == Seq::<FormatView>::empty(),
            },
    {
        let mut formats: Vec<ClipFormat> = Vec::new();
        assert(formats.deep_view() =~= Seq::<FormatView>::empty());
        let bytes: Vec<u8> = match answer {
            Ok(bytes) => bytes,
            Err(_) => {
                return Available { formats };
            },
        };
        let targets: Vec<u32> = read_atoms(bytes.as_slice(), big_endian);
        let mut i: usize = 0;
        assert(targets@.take(0) =~= seq![]);
        while i < targets.len()
            invariant
                i <= targets.len(),
                formats.deep_view() == formats_among(*self, targets@.take(i as int)),
            decreases targets.len() - i,
        {
            let ghost before = formats.deep_view();
            proof {
                assert(targets@.take(i + 1).drop_last() =~= targets@.take(i as int));
                assert(targets@.take(i + 1).last() == targets@[i as int]);
            }
            if let Some(format) = self.format_of(targets[i]) {
                if !listed(&formats, &format) {
                    let ghost fv = format.deep_view();
                    formats.push(format);
                    assert(formats.deep_view() =~= before.push(fv));
                }
            }
            i += 1;
        }
        assert(targets@.take(i as int) =~= targets@);
        Available { formats }
    }
}

/// What is available names each format once, and only what some target stands
/// for.
pub proof fn what_is_available_is_listed_once(atoms: Atoms, targets: Seq<u32>)
    ensures
        formats_among(atoms, targets).no_duplicates(),
        forall|format: FormatView| #[trigger]
            formats_among(atoms, targets).contains(format) <==> exists|i: int|
                0 <= i < targets.len() && atoms.stands_for(#[trigger] targets[i]) == Some(format),
    decreases targets.len(),
{
    let all = formats_among(atoms, targets);
    if targets.len() > 0 {
        let rest = targets.drop_last();
        let before = formats_among(atoms, rest);
        what_is_available_is_listed_once(atoms, rest);
        assert forall|format: FormatView| #[trigger] all.contains(format) <==> exists|i: int|
            0 <= i < targets.len() && atoms.stands_for(#[trigger] targets[i]) == Some(format) by {
            let n = targets.len() - 1;
            if all.contains(format) {
                if before.contains(format) {
                    let i = choose|i: int|
                        0 <= i < rest.len() && atoms.stands_for(#[trigger] rest[i]) == Some(format);
                    assert(targets[i] == rest[i]);
                } else {
                    let k = choose|k: int| 0 <= k < all.len() && all[k] == format;
                    if k < before.len() {
                        assert(before[k] == format);
                    }
                    assert(targets[n] == targets.last());
                }
            }
            if exists|i: int|
                0 <= i < targets.len() && atoms.stands_for(#[trigger] targets[i]) == Some(format) {
                let i = choose|i: int|
                    0 <= i < targets.len() && atoms.stands_for(#[trigger] targets[i]) == Some(
                        format,
                    );
                if i < n {
                    assert(rest[i] == targets[i]);
                    assert(before.contains(format));
                    let k = choose|k: int| 0 <= k < before.len() && before[k] == format;
                    assert(all[k] == format);
                } else if !before.contains(format) {
                    assert(all[before.len() as int] == format);
                }
            }
        }
    }
}

// --- events ---------------------------------------------------------------------

/// Somebody asking for the selection.
#[derive(Clone, Copy, Debug, PartialEq, Eq, Structural)]
pub struct Request {
    pub time: u32,
    pub requestor: u32,
    pub selection: u32,
    pub target: u32,
    /// Where to put the answer, or [`NONE`].
    pub property: u32,
}

/// What the display reports.
#[derive(Clone, Copy, Debug, PartialEq, Eq, Structural)]
pub enum Event {
    /// The clipboard changed hands.
    OwnerChanged { owner: u32 },
    /// Something wants the contents of a selection held here.
    Asked(Request),
    /// A selection held here was taken away.
    Cleared { time: u32 },
    /// The answer to a request made here; a property of [`NONE`] where the owner
    /// declined.
    Answered { requestor: u32, property: u32 },
    /// A property was given a value.
    Written { window: u32, property: u32, time: u32 },
    /// A property was deleted.
    Erased { window: u32, property: u32, time: u32 },
    Other,
}

/// An event that is being waited for.
#[derive(Clone, Copy, Debug, PartialEq, Eq, Structural)]
pub enum Wish {
    /// The owner's answer.
    Answer,
    /// The next piece of it.
    Piece,
    /// Anything at all about the property replies are placed in.
    Time,
}

/// Whether an event is the one being waited for.
pub open spec fn meets(window: u32, transfer: u32, wish: Wish, event: Event) -> bool {
    match wish {
        Wish::Answer => event matches Event::Answered { requestor, .. } && requestor == window,
        Wish::Piece => event matches Event::Written { window: w, property, .. } && w == window
            && property == transfer,
        Wish::Time => match event {
            Event::Written { window: w, property, .. } => w == window && property == transfer,
            Event::Erased { window: w, property, .. } => w == window && property == transfer,
            _ => false,
        },
    }
}

/// Whether an event that is not being waited for is kept for later.
///
/// A change of owner is news the watcher still has to hear, and a request or a
/// clearing is the owner's to deal with once it is done asking. Notices of
/// properties are the trail of our own asking and matter to nobody.
pub open spec fn is_kept(event: Event) -> bool {
    event is OwnerChanged || event is Asked || event is Cleared
}

/// Whether a change of owner is news: not when it is this program's own offer,
/// made through the window `ignored`.
pub open spec fn is_news(event: Event, ignored: Option<u32>) -> bool {
    event matches Event::OwnerChanged { owner } && ignored != Some(owner)
}

/// Whether the watcher reports a change.
///
/// An offer made on another machine's behalf is a change of owner like any
/// other, and reporting it would send that machine's clipboard straight back
/// to it.
pub fn changed_by_others(event: &Event, ignored: Option<u32>) -> (r: bool)
    ensures
        r == is_news(*event, ignored),
{
    match event {
        Event::OwnerChanged { owner } => match ignored {
            Some(window) => window != *owner,
            None => true,
        },
        _ => false,
    }
}

/// Where the first event that is waited for stands, or the length.
pub open spec fn met_at(window: u32, transfer: u32, wish: Wish, events: Seq<Event>) -> int
    decreases events.len(),
{
    if events.len() == 0 || meets(window, transfer, wish, events[0]) {
        0
    } else {
        1 + met_at(window, transfer, wish, events.drop_first())
    }
}

/// A window that selections are addressed to, and the events seen on it while
/// waiting for something else, kept so nothing is lost.
pub struct X11Clipboard {
    window: u32,
    atoms: Atoms,
    deferred: Vec<Event>,
}

#[verifier::ext_equal]
pub struct ClipboardView {
    pub window: u32,
    pub atoms: Atoms,
    /// The events kept for later.
    pub deferred: Seq<Event>,
}

impl View for X11Clipboard {
    type V = ClipboardView;

    closed spec fn view(&self) -> ClipboardView {
        ClipboardView { window: self.window, atoms: self.atoms, deferred: self.deferred@ }
    }
}

impl X11Clipboard {
    pub fn new(window: u32, atoms: Atoms) -> (r: X11Clipboard)
        ensures
            r@ == (ClipboardView { window, atoms, deferred: seq![] }),
    {
        let r: X11Clipboard = X11Clipboard { window, atoms, deferred: Vec::new() };
        assert(r@.deferred =~= seq![]);
        r
    }

    pub fn window(&self) -> (r: u32)
        ensures
            r == self@.window,
    {
        self.window
    }

    pub fn atoms(&self) -> (r: Atoms)
        ensures
            r == self@.atoms,
    {
        self.atoms
    }

    /// The event held back longest, if there is one.
    pub fn next_held(&mut self) -> (r: Option<Event>)
        ensures
            final(self)@.window == old(self)@.window,
            final(self)@.atoms == old(self)@.atoms,
            match r {
                Some(event) => old(self)@.deferred.len() > 0 && event == old(self)@.deferred[0]
                    && final(self)@.deferred == old(self)@.deferred.drop_first(),
                None => old(self)@.deferred.len() == 0 && final(self)@ == old(self)@,
            },
    {
        if self.deferred.len() == 0 {
            return None;
        }
        let event: Event = self.deferred.remove(0);
        assert(self@.deferred =~= old(self)@.deferred.drop_first());
        Some(event)
    }

    /// Whether this event is the one being waited for.
    pub fn is_wanted(&self, wish: Wish, event: &Event) -> (r: bool)
        ensures
            r == meets(self@.window, self@.atoms.transfer, wish, *event),
    {
        let transfer: u32 = self.atoms.transfer;
        match (wish, event) {
            (Wish::Answer, Event::Answered { requestor, .. }) => *requestor == self.window,
            (Wish::Piece, Event::Written { window, property, .. }) => *window == self.window
                && *property == transfer,
            (Wish::Time, Event::Written { window, property, .. }) => *window == self.window
                && *property == transfer,
            (Wish::Time, Event::Erased { window, property, .. }) => *window == self.window
                && *property == transfer,
            _ => false,
        }
    }

    /// The first event held back that is the one being waited for.
    pub fn take_wanted(&mut self, wish: Wish) -> (r: Option<Event>)
        ensures
            final(self)@.window == old(self)@.window,
            final(self)@.atoms == old(self)@.atoms,
            ({
                let held = old(self)@.deferred;
                let at = met_at(old(self)@.window, old(self)@.atoms.transfer, wish, held);
                match r {
                    Some(event) => 0 <= at < held.len() && event == held[at]
                        && final(self)@.deferred == held.remove(at),
                    None => at == held.len() && final(self)@ == old(self)@,
                }
            }),
    {
        let ghost held = self.deferred@;
        let ghost window = self.window;
        let ghost transfer = self.atoms.transfer;
        let mut i: usize = 0;
        assert(held.skip(0) =~= held);
        while i < self.deferred.len()
            invariant
                i <= held.len(),
                self.deferred@ == held,
                self@ == old(self)@,
                window == self.window,
                transfer == self.atoms.transfer,
                met_at(window, transfer, wish, held) == i + met_at(
                    window,
                    transfer,
                    wish,
                    held.skip(i as int),
                ),
            decreases self.deferred.len() - i,
        {
            proof {
                assert(held.skip(i as int)[0] == held[i as int]);
                assert(held.skip(i as int).drop_first() =~= held.skip(i + 1));
            }
            if self.is_wanted(wish, &self.deferred[i]) {
                let event: Event = self.deferred.remove(i);
                return Some(event);
            }
            i += 1;
        }
        assert(held.skip(i as int).len() == 0);
        None
    }

    /// Look at an event that has just arrived: it comes back where it is the
    /// one being waited for, and is kept where it is news for later.
    pub fn sort_out(&mut self, wish: Wish, event: Event) -> (r: Option<Event>)
        ensures
            final(self)@.window == old(self)@.window,
            final(self)@.atoms == old(self)@.atoms,
            if meets(old(self)@.window, old(self)@.atoms.transfer, wish, event) {
                r == Some(event) && final(self)@ == old(self)@
            } else {
                r is None && final(self)@.deferred == if is_kept(event) {
                    old(self)@.deferred.push(event)
                } else {
                    old(self)@.deferred
                }
            },
    {
        if self.is_wanted(wish, &event) {
            return Some(event);
        }
        match event {
            Event::OwnerChanged { .. } | Event::Asked(_) | Event::Cleared { .. } => {
                self.deferred.push(event);
                assert(self@.deferred =~= old(self)@.deferred.push(event));
            },
            _ => {},
        }
        None
    }
}

// --- asking for one target ----------------------------------------------------

#[derive(Clone, Copy, Debug, PartialEq, Eq, Structural)]
pub enum Stage {
    /// The owner has been asked and has not answered.
    Asked,
    /// It has answered, and what it wrote has not been read.
    Answered,
    /// It is sending pieces, and the next has not come.
    Waiting,
    /// A piece has come and has not been read.
    Arrived,
}

/// What to do next about a conversion.
#[derive(Debug)]
pub enum Next {
    /// Go on waiting.
    Wait,
    /// Read the property replies are placed in.
    Read,
    /// Delete it, which asks for the next piece, and wait for that.
    More,
    /// Delete it; these are the contents.
    Done(Vec<u8>),
    Failed(ClipboardError),
}

#[verifier::ext_equal]
pub enum NextView {
    Wait,
    Read,
    More,
    Done(Seq<u8>),
    Failed(ClipboardErrorView),
}

impl DeepView for Next {
    type V = NextView;

    open spec fn deep_view(&self) -> NextView {
        match self {
            Next::Wait => NextView::Wait,
            Next::Read => NextView::Read,
            Next::More => NextView::More,
            Next::Done(contents) => NextView::Done(contents@),
            Next::Failed(e) => NextView::Failed(e.deep_view()),
        }
    }
}

/// The selection's owner being asked to convert it to a target and hand it
/// over.
pub struct Conversion {
    target: u32,
    stage: Stage,
    collected: Vec<u8>,
}

#[verifier::ext_equal]
pub struct ConversionView {
    pub target: u32,
    pub stage: Stage,
    /// The pieces so far.
    pub collected: Seq<u8>,
}

impl View for Conversion {
    type V = ConversionView;

    closed spec fn view(&self) -> ConversionView {
        ConversionView { target: self.target, stage: self.stage, collected: self.collected@ }
    }
}

/// A conversion just asked for.
pub open spec fn asked(target: u32) -> ConversionView {
    ConversionView { target, stage: Stage::Asked, collected: seq![] }
}

pub open spec fn refusal(target: u32) -> ClipboardErrorView {
    ClipboardErrorView::Refused(FormatView::Other("target "@ + decimal(target as nat)))
}

/// After an event that was waited for.
pub open spec fn after_event(c: ConversionView, event: Event) -> (ConversionView, NextView) {
    match (c.stage, event) {
        (Stage::Asked, Event::Answered { property, .. }) => if property == NONE {
            (c, NextView::Failed(refusal(c.target)))
        } else {
            (ConversionView { stage: Stage::Answered, ..c }, NextView::Read)
        },
        (Stage::Waiting, Event::Written { .. }) => (
            ConversionView { stage: Stage::Arrived, ..c },
            NextView::Read,
        ),
        _ => (c, NextView::Wait),
    }
}

/// After the property was read. Its type tells an answer from the announcement
/// of one in pieces; an empty piece ends those.
pub open spec fn after_read(c: ConversionView, incr: u32, kind: u32, value: Seq<u8>) -> (
    ConversionView,
    NextView,
) {
    match c.stage {
        Stage::Answered => if kind != incr {
            (c, NextView::Done(value))
        } else {
            (ConversionView { stage: Stage::Waiting, ..c }, NextView::More)
        },
        Stage::Arrived => if value.len() == 0 {
            (c, NextView::Done(c.collected))
        } else {
            (
                ConversionView { stage: Stage::Waiting, collected: c.collected + value, ..c },
                NextView::More,
            )
        },
        _ => (c, NextView::Wait),
    }
}

impl Conversion {
    /// Ask for a target. The property replies are placed in is cleared first,
    /// so a stale value cannot be mistaken for an answer.
    pub fn ask(target: u32) -> (r: Conversion)
        ensures
            r@ == asked(target),
    {
        let r: Conversion = Conversion { target, stage: Stage::Asked, collected: Vec::new() };
        assert(r@.collected =~= seq![]);
        r
    }

    /// What to wait for.
    pub fn wish(&self) -> (r: Wish)
        ensures
            r == if self@.stage is Asked || self@.stage is Answered {
                Wish::Answer
            } else {
                Wish::Piece
            },
    {
        match self.stage {
            Stage::Asked | Stage::Answered => Wish::Answer,
            Stage::Waiting | Stage::Arrived => Wish::Piece,
        }
    }

    /// An event that was waited for has come.
    pub fn saw(&mut self, event: &Event) -> (next: Next)
        ensures
            (final(self)@, next.deep_view()) == after_event(old(self)@, *event),
    {
        match (self.stage, event) {
            (Stage::Asked, Event::Answered { property, .. }) => {
                if *property == NONE {
                    let mut text: Vec<char> = chars_of("target ");
                    let mut shown: Vec<char> = decimal_of(self.target as u64);
                    text.append(&mut shown);
                    let name: String = text_of(&text);
                    return Next::Failed(ClipboardError::Refused(ClipFormat::Other(name)));
                }
                self.stage = Stage::Answered;
                Next::Read
            },
            (Stage::Waiting, Event::Written { .. }) => {
                self.stage = Stage::Arrived;
                Next::Read
            },
            _ => Next::Wait,
        }
    }

    /// The property replies are placed in has been read: its type, and what it
    /// holds. `incr` is the type of an announcement.
    pub fn read(&mut self, incr: u32, kind: u32, value: Vec<u8>) -> (next: Next)
        ensures
            (final(self)@, next.deep_view()) == after_read(old(self)@, incr, kind, value@),
    {
        match self.stage {
            Stage::Answered => {
                if kind != incr {
                    return Next::Done(value);
                }
                self.stage = Stage::Waiting;
                Next::More
            },
            Stage::Arrived => {
                if value.len() == 0 {
                    return Next::Done(crate::proto::copy_of(&self.collected));
                }
                let mut value: Vec<u8> = value;
                self.collected.append(&mut value);
                self.stage = Stage::Waiting;
                Next::More
            },
            _ => Next::Wait,
        }
    }
}

/// The answer that did not come.
pub fn unanswered() -> (r: ClipboardError)
    ensures
        r.deep_view() == ClipboardErrorView::Display(
            "the application holding the clipboard did not answer"@,
        ),
{
    ClipboardError::Display("the application holding the clipboard did not answer".to_owned())
}

/// What the pieces of an answer make, one after the other.
pub open spec fn joined(pieces: Seq<Seq<u8>>) -> Seq<u8>
    decreases pieces.len(),
{
    if pieces.len() == 0 {
        seq![]
    } else {
        joined(pieces.drop_last()) + pieces.last()
    }
}

/// A conversion that has read these pieces, each after a notice of it.
pub open spec fn after_pieces(c: ConversionView, incr: u32, pieces: Seq<Seq<u8>>) -> (
    ConversionView,
    NextView,
)
    decreases pieces.len(),
{
    if pieces.len() == 0 {
        (c, NextView::More)
    } else {
        let before = after_pieces(c, incr, pieces.drop_last()).0;
        after_read(
            ConversionView { stage: Stage::Arrived, ..before },
            incr,
            incr,
            pieces.last(),
        )
    }
}

/// An answer in pieces is read whole: after any number of pieces with
/// something in them, the conversion asks for more, and the empty one that
/// follows ends it with what they make, in order.
pub proof fn an_answer_in_pieces_is_read_whole(target: u32, incr: u32, pieces: Seq<Seq<u8>>)
    requires
        forall|i: int| 0 <= i < pieces.len() ==> (#[trigger] pieces[i]).len() > 0,
    ensures
        ({
            let announced = ConversionView { stage: Stage::Waiting, ..asked(target) };
            let c = after_pieces(announced, incr, pieces).0;
            &&& c == (ConversionView {
                target,
                stage: Stage::Waiting,
                collected: joined(pieces),
            })
            &&& after_pieces(announced, incr, pieces).1 == NextView::More
            &&& after_pieces(announced, incr, pieces.push(seq![])).1 == NextView::Done(
                joined(pieces),
            )
        }),
    decreases pieces.len(),
{
    let announced = ConversionView { stage: Stage::Waiting, ..asked(target) };
    if pieces.len() > 0 {
        let rest = pieces.drop_last();
        assert forall|i: int| 0 <= i < rest.len() implies (#[trigger] rest[i]).len() > 0 by {
            assert(rest[i] == pieces[i]);
        }
        an_answer_in_pieces_is_read_whole(target, incr, rest);
        assert(pieces[pieces.len() - 1].len() > 0);
    }
    assert(pieces.push(seq![]).drop_last() =~= pieces);
}

// --- asking under every name ---------------------------------------------------

/// A format being read: under each name for it in turn, until one is answered.
pub struct Reading {
    format: ClipFormat,
    /// The names not yet tried, the next of them last.
    left: Vec<u32>,
    last: Option<ClipboardError>,
}

#[verifier::ext_equal]
pub struct ReadingView {
    pub format: FormatView,
    /// The names not yet tried, the next of them first.
    pub left: Seq<u32>,
    /// Why the last one tried failed.
    pub last: Option<ClipboardErrorView>,
}

impl View for Reading {
    type V = ReadingView;

    closed spec fn view(&self) -> ReadingView {
        ReadingView {
            format: self.format.deep_view(),
            left: self.left@.reverse(),
            last: self.last.deep_view(),
        }
    }
}

impl Reading {
    pub fn begin(atoms: &Atoms, format: &ClipFormat) -> (r: Reading)
        ensures
            r@ == (ReadingView {
                format: format.deep_view(),
                left: atoms.preferred(format.deep_view()),
                last: None,
            }),
    {
        let targets: Vec<u32> = atoms.targets_for(format);
        let r: Reading = Reading { format: format.clone(), left: reversed(targets), last: None };
        assert(r@.left =~= atoms.preferred(format.deep_view()));
        r
    }

    /// The next name to ask under.
    pub fn next(&mut self) -> (r: Option<u32>)
        ensures
            final(self)@.format == old(self)@.format,
            final(self)@.last == old(self)@.last,
            match r {
                Some(target) => old(self)@.left.len() > 0 && target == old(self)@.left[0]
                    && final(self)@.left == old(self)@.left.drop_first(),
                None => old(self)@.left.len() == 0 && final(self)@ == old(self)@,
            },
    {
        let r: Option<u32> = self.left.pop();
        assert(r is Some ==> self@.left =~= old(self)@.left.drop_first());
        r
    }

    /// The last one asked for was not to be had.
    pub fn failed(&mut self, why: ClipboardError)
        ensures
            final(self)@ == (ReadingView { last: Some(why.deep_view()), ..old(self)@ }),
    {
        self.last = Some(why);
    }

    /// Why the format was not to be had under any name.
    pub fn finish(self) -> (r: ClipboardError)
        ensures
            r.deep_view() == match self@.last {
                Some(why) => why,
                None => ClipboardErrorView::Refused(self@.format),
            },
    {
        match self.last {
            Some(why) => why,
            None => ClipboardError::Refused(self.format),
        }
    }
}

} // verus!
