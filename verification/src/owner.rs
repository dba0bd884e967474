//! Holding the X11 clipboard on another machine's behalf.
//!
//! Owning a selection in X11 means answering requests for it, for as long as
//! the offer stands. Contents are fetched only when something actually asks,
//! which is what lets an offer be made without knowing how large it is or
//! whether it will ever be wanted.

use vstd::prelude::*;

use crate::bytes::bytes_between;
use crate::clipboard::{ClipboardError, ClipboardErrorView};
use crate::proto::{copy_of, ClipFormat, FormatView};
use crate::selection::{
    after_pieces, an_answer_in_pieces_is_read_whole, asked, joined, Atoms, ConversionView, Event,
    NextView, Request, Stage, NONE,
};
use crate::table::{keyed, listed, stored, stored_reads_back, value_of, Table};

verus! {

/// The type of a list of atoms.
pub const ATOM: u32 = 4;

/// The type of plain text, under which pieces are sent.
pub const STRING: u32 = 31;

/// What an owner does on the display.
#[derive(Debug, PartialEq, Eq)]
pub enum Act {
    /// Write numbers of thirty-two bits to a property.
    Write32 { window: u32, property: u32, kind: u32, values: Vec<u32> },
    /// Write bytes to a property.
    Write8 { window: u32, property: u32, kind: u32, data: Vec<u8> },
    /// Ask to be told when a property of this window is deleted.
    Follow { window: u32 },
    /// Say that a request has been answered in this property, or declined where
    /// it is [`NONE`].
    Tell { request: Request, property: u32 },
}

#[verifier::ext_equal]
pub enum ActView {
    Write32 { window: u32, property: u32, kind: u32, values: Seq<u32> },
    Write8 { window: u32, property: u32, kind: u32, data: Seq<u8> },
    Follow { window: u32 },
    Tell { request: Request, property: u32 },
}

impl DeepView for Act {
    type V = ActView;

    open spec fn deep_view(&self) -> ActView {
        match self {
            Act::Write32 { window, property, kind, values } => ActView::Write32 {
                window: *window,
                property: *property,
                kind: *kind,
                values: values@,
            },
            Act::Write8 { window, property, kind, data } => ActView::Write8 {
                window: *window,
                property: *property,
                kind: *kind,
                data: data@,
            },
            Act::Follow { window } => ActView::Follow { window: *window },
            Act::Tell { request, property } => ActView::Tell {
                request: *request,
                property: *property,
            },
        }
    }
}

/// What comes of an event.
#[derive(Debug, PartialEq, Eq)]
pub enum Outcome {
    /// Do these things, in order.
    Do(Vec<Act>),
    /// Fetch this format, and hand what came to [`X11Owner::supplied`].
    Fetch(ClipFormat),
    /// Ask the display who owns the clipboard, and hand the answer to
    /// [`X11Owner::owner_is`].
    WhoOwns,
}

#[verifier::ext_equal]
pub enum OutcomeView {
    Do(Seq<ActView>),
    Fetch(FormatView),
    WhoOwns,
}

impl DeepView for Outcome {
    type V = OutcomeView;

    open spec fn deep_view(&self) -> OutcomeView {
        match self {
            Outcome::Do(acts) => OutcomeView::Do(acts.deep_view()),
            Outcome::Fetch(format) => OutcomeView::Fetch(format.deep_view()),
            Outcome::WhoOwns => OutcomeView::WhoOwns,
        }
    }
}

/// A transfer being sent a piece at a time.
pub struct Incremental {
    pub requestor: u32,
    pub property: u32,
    pub data: Vec<u8>,
    pub sent: usize,
}

#[verifier::ext_equal]
pub struct IncrementalView {
    pub requestor: u32,
    pub property: u32,
    pub data: Seq<u8>,
    pub sent: int,
}

impl DeepView for Incremental {
    type V = IncrementalView;

    open spec fn deep_view(&self) -> IncrementalView {
        IncrementalView {
            requestor: self.requestor,
            property: self.property,
            data: self.data@,
            sent: self.sent as int,
        }
    }
}

pub struct X11Owner {
    window: u32,
    atoms: Atoms,
    offered: Vec<ClipFormat>,
    /// Anything already fetched, so a second paste does not fetch again.
    cached: Table<ClipFormat, Vec<u8>>,
    in_flight: Vec<Incremental>,
    /// The largest property this display will accept in one go.
    chunk: usize,
    owns: bool,
    /// The display's time when the selection was taken. Giving a selection up
    /// sends its owner a notice -- including when the owner is this very window
    /// letting go before taking it again -- and one from before this moment is
    /// about an ownership that is already over.
    since: u32,
}

#[verifier::ext_equal]
pub struct OwnerView {
    pub window: u32,
    pub atoms: Atoms,
    pub offered: Seq<FormatView>,
    pub cached: Seq<(FormatView, Seq<u8>)>,
    pub in_flight: Seq<IncrementalView>,
    pub chunk: nat,
    pub owns: bool,
    pub since: u32,
}

impl View for X11Owner {
    type V = OwnerView;

    closed spec fn view(&self) -> OwnerView {
        OwnerView {
            window: self.window,
            atoms: self.atoms,
            offered: self.offered.deep_view(),
            cached: self.cached.entries(),
            in_flight: self.in_flight.deep_view(),
            chunk: self.chunk as nat,
            owns: self.owns,
            since: self.since,
        }
    }
}

/// No format is kept twice, and nothing has been sent that there is not.
pub open spec fn sound(o: OwnerView) -> bool {
    &&& keyed(o.cached)
    &&& o.chunk >= 1
    &&& forall|i: int|
        0 <= i < o.in_flight.len() ==> 0 <= (#[trigger] o.in_flight[i]).sent
            <= o.in_flight[i].data.len()
}

/// A request must fit in one of the display's messages, with room for its
/// header; going over is an error rather than a short read.
pub open spec fn piece_size(maximum_request: nat) -> nat {
    if maximum_request / 2 < 4096 {
        4096
    } else {
        maximum_request / 2
    }
}

/// Where the answer to a request goes. A requestor from an old protocol may
/// leave the property unset, in which case the convention is to use the target
/// as the property.
pub open spec fn reply_property(request: Request) -> u32 {
    if request.property == NONE {
        request.target
    } else {
        request.property
    }
}

/// The targets of some formats, in order.
pub open spec fn targets_of(atoms: Atoms, formats: Seq<FormatView>) -> Seq<u32>
    decreases formats.len(),
{
    if formats.len() == 0 {
        seq![]
    } else {
        targets_of(atoms, formats.drop_last()) + atoms.preferred(formats.last())
    }
}

pub open spec fn declined(request: Request) -> Seq<ActView> {
    seq![ActView::Tell { request, property: NONE }]
}

/// What comes of a request: the list of targets is written at once, contents
/// that are here are handed over, others are fetched, and what is not offered
/// is declined.
pub open spec fn answered(o: OwnerView, request: Request) -> (OwnerView, OutcomeView) {
    let property = reply_property(request);
    if request.target == o.atoms.targets {
        (
            o,
            OutcomeView::Do(
                seq![
                    ActView::Write32 {
                        window: request.requestor,
                        property,
                        kind: ATOM,
                        values: seq![o.atoms.targets] + targets_of(o.atoms, o.offered),
                    },
                    ActView::Tell { request, property },
                ],
            ),
        )
    } else {
        match o.atoms.stands_for(request.target) {
            Some(format) => if !o.offered.contains(format) {
                (o, OutcomeView::Do(declined(request)))
            } else {
                match value_of(o.cached, format) {
                    Some(data) => {
                        let (after, acts) = handed_over(o, request, data);
                        (after, OutcomeView::Do(acts))
                    },
                    None => (o, OutcomeView::Fetch(format)),
                }
            },
            None => (o, OutcomeView::Do(declined(request))),
        }
    }
}

/// Contents being handed over: whole where they fit in one property. Where
/// they do not, their size is announced, and they are fed a piece at a time as
/// the requestor consumes them.
pub open spec fn handed_over(o: OwnerView, request: Request, data: Seq<u8>) -> (
    OwnerView,
    Seq<ActView>,
) {
    let property = reply_property(request);
    if data.len() <= o.chunk {
        (
            o,
            seq![
                ActView::Write8 {
                    window: request.requestor,
                    property,
                    kind: request.target,
                    data,
                },
                ActView::Tell { request, property },
            ],
        )
    } else {
        (
            OwnerView {
                in_flight: o.in_flight.push(
                    IncrementalView { requestor: request.requestor, property, data, sent: 0 },
                ),
                ..o
            },
            seq![
                ActView::Write32 {
                    window: request.requestor,
                    property,
                    kind: o.atoms.incr,
                    values: seq![data.len() as u32],
                },
                ActView::Follow { window: request.requestor },
                ActView::Tell { request, property },
            ],
        )
    }
}

/// After a fetch: what came is kept and handed over, and where nothing came
/// the request is declined.
pub open spec fn fetched(
    o: OwnerView,
    request: Request,
    format: FormatView,
    data: Option<Seq<u8>>,
) -> (OwnerView, Seq<ActView>) {
    match data {
        Some(data) => handed_over(
            OwnerView { cached: stored(o.cached, format, data), ..o },
            request,
            data,
        ),
        None => (o, declined(request)),
    }
}

/// Where the transfer to this window and property stands, or the length.
pub open spec fn transfer_at(s: Seq<IncrementalView>, window: u32, property: u32) -> int
    decreases s.len(),
{
    if s.len() == 0 || (s[0].requestor == window && s[0].property == property) {
        0
    } else {
        1 + transfer_at(s.drop_first(), window, property)
    }
}

/// Where the next piece ends.
pub open spec fn piece_end(t: IncrementalView, chunk: nat) -> int {
    if t.data.len() - t.sent < chunk {
        t.data.len() as int
    } else {
        t.sent + chunk
    }
}

pub open spec fn next_piece(t: IncrementalView, chunk: nat) -> Seq<u8> {
    t.data.subrange(t.sent, piece_end(t, chunk))
}

/// After a piece was consumed: the next is written. An empty one is how the
/// end is signalled, so the last real piece is followed by one more round.
pub open spec fn continued(o: OwnerView, window: u32, property: u32) -> (OwnerView, Seq<ActView>) {
    let at = transfer_at(o.in_flight, window, property);
    if at >= o.in_flight.len() {
        (o, seq![])
    } else {
        let t = o.in_flight[at];
        let piece = next_piece(t, o.chunk);
        (
            OwnerView {
                in_flight: if piece.len() == 0 {
                    o.in_flight.remove(at)
                } else {
                    o.in_flight.update(at, IncrementalView { sent: piece_end(t, o.chunk), ..t })
                },
                ..o
            },
            seq![ActView::Write8 { window, property, kind: STRING, data: piece }],
        )
    }
}

/// What comes of an event. A notice that the selection was taken may be the
/// echo of this window's own earlier letting-go; one from before it was taken
/// is, and of another the display is asked, rather than guessing.
pub open spec fn dispatched(o: OwnerView, event: Event) -> (OwnerView, OutcomeView) {
    match event {
        Event::Asked(request) => answered(o, request),
        Event::Cleared { time } => if time < o.since {
            (o, OutcomeView::Do(seq![]))
        } else {
            (o, OutcomeView::WhoOwns)
        },
        Event::Erased { window, property, .. } => {
            let (after, acts) = continued(o, window, property);
            (after, OutcomeView::Do(acts))
        },
        _ => (o, OutcomeView::Do(seq![])),
    }
}

proof fn transfer_at_skips(s: Seq<IncrementalView>, window: u32, property: u32, i: int)
    requires
        0 <= i <= s.len(),
        forall|k: int|
            0 <= k < i ==> !((#[trigger] s[k]).requestor == window && s[k].property == property),
    ensures
        transfer_at(s, window, property) == i + transfer_at(s.skip(i), window, property),
    decreases i,
{
    if i == 0 {
        assert(s.skip(0) =~= s);
    } else {
        let rest = s.drop_first();
        assert(!(s[0].requestor == window && s[0].property == property));
        assert forall|k: int| 0 <= k < i - 1 implies !((#[trigger] rest[k]).requestor == window
            && rest[k].property == property) by {
            assert(rest[k] == s[k + 1]);
        }
        transfer_at_skips(rest, window, property, i - 1);
        assert(rest.skip(i - 1) =~= s.skip(i));
    }
}

impl X11Owner {
    pub open spec fn wf(&self) -> bool {
        sound(self@)
    }

    /// Take the clipboard, offering these formats, once the display has said
    /// who holds it.
    pub fn take(
        window: u32,
        atoms: Atoms,
        formats: Vec<ClipFormat>,
        maximum_request: usize,
        since: u32,
        held_by: u32,
    ) -> (r: Result<X11Owner, ClipboardError>)
        ensures
            match r {
                Ok(owner) => held_by == window && owner.wf() && owner@ == (OwnerView {
                    window,
                    atoms,
                    offered: formats.deep_view(),
                    cached: seq![],
                    in_flight: seq![],
                    chunk: piece_size(maximum_request as nat),
                    owns: true,
                    since,
                }),
                Err(e) => held_by != window && e.deep_view() == ClipboardErrorView::Busy,
            },
    {
        if held_by != window {
            return Err(ClipboardError::Busy);
        }
        let half: usize = maximum_request / 2;
        let chunk: usize = if half < 4096 {
            4096
        } else {
            half
        };
        let owner: X11Owner = X11Owner {
            window,
            atoms,
            offered: formats,
            cached: Table::new(),
            in_flight: Vec::new(),
            chunk,
            owns: true,
            since,
        };
        proof {
            assert(owner@.in_flight =~= seq![]);
            assert(owner@.cached =~= seq![]);
        }
        Ok(owner)
    }

    /// Offer something else through the selection this already holds.
    ///
    /// Letting go and taking again would work, but the letting go sends this
    /// window a notice that arrives after the taking, and looks exactly like
    /// somebody else copying. Ownership simply continues, and requests from
    /// here on are answered from the new source.
    pub fn reoffer(&mut self, formats: Vec<ClipFormat>)
        requires
            old(self).wf(),
        ensures
            final(self).wf(),
            final(self)@ == (OwnerView {
                offered: formats.deep_view(),
                cached: seq![],
                ..old(self)@
            }),
    {
        self.offered = formats;
        self.cached = Table::new();
        assert(self@.cached =~= seq![]);
    }

    pub fn owns_clipboard(&self) -> (r: bool)
        ensures
            r == self@.owns,
    {
        self.owns
    }

    /// The window the clipboard is held through.
    pub fn window(&self) -> (r: u32)
        ensures
            r == self@.window,
    {
        self.window
    }

    /// The targets of everything offered, after the one that asks for them.
    fn atoms_for_offer(&self) -> (r: Vec<u32>)
        ensures
            r@ == seq![self@.atoms.targets] + targets_of(self@.atoms, self@.offered),
    {
        let ghost every = self@.offered;
        let mut out: Vec<u32> = Vec::new();
        out.push(self.atoms.targets);
        let mut i: usize = 0;
        proof {
            assert(every.take(0) =~= seq![]);
            assert(out@ =~= seq![self.atoms.targets] + targets_of(self.atoms, every.take(0)));
        }
        while i < self.offered.len()
            invariant
                i <= self.offered.len(),
                every == self.offered.deep_view(),
                out@ == seq![self.atoms.targets] + targets_of(self.atoms, every.take(i as int)),
            decreases self.offered.len() - i,
        {
            proof {
                assert(every.take(i + 1).drop_last() =~= every.take(i as int));
                assert(every.take(i + 1).last() == every[i as int]);
            }
            let mut more: Vec<u32> = self.atoms.targets_for(&self.offered[i]);
            let ghost before = out@;
            let ghost added = more@;
            out.append(&mut more);
            proof {
                assert(before + added =~= seq![self.atoms.targets] + (targets_of(
                    self.atoms,
                    every.take(i as int),
                ) + added));
            }
            i += 1;
        }
        assert(every.take(i as int) =~= every);
        out
    }

    /// Hand contents over.
    fn hand_over(&mut self, request: Request, data: Vec<u8>) -> (acts: Vec<Act>)
        requires
            old(self).wf(),
        ensures
            final(self).wf(),
            (final(self)@, acts.deep_view()) == handed_over(old(self)@, request, data@),
    {
        let property: u32 = if request.property == NONE {
            request.target
        } else {
            request.property
        };
        let mut acts: Vec<Act> = Vec::new();
        let ghost o = self@;
        let ghost whole = data@;
        if data.len() <= self.chunk {
            acts.push(
                Act::Write8 { window: request.requestor, property, kind: request.target, data },
            );
            acts.push(Act::Tell { request, property });
            proof {
                assert(acts.deep_view() =~= handed_over(o, request, whole).1);
            }
            return acts;
        }
        let mut size: Vec<u32> = Vec::new();
        size.push(data.len() as u32);
        let ghost announced = size@;
        assert(announced =~= seq![whole.len() as u32]);
        acts.push(
            Act::Write32 { window: request.requestor, property, kind: self.atoms.incr, values: size },
        );
        acts.push(Act::Follow { window: request.requestor });
        acts.push(Act::Tell { request, property });
        self.in_flight.push(Incremental { requestor: request.requestor, property, data, sent: 0 });
        proof {
            let started = IncrementalView {
                requestor: request.requestor,
                property,
                data: whole,
                sent: 0,
            };
            assert(self@.in_flight =~= o.in_flight.push(started));
            assert(acts.deep_view() =~= handed_over(o, request, whole).1);
            assert forall|i: int| 0 <= i < self@.in_flight.len() implies 0 <= (
            #[trigger] self@.in_flight[i]).sent <= self@.in_flight[i].data.len() by {
                if i < o.in_flight.len() {
                    assert(self@.in_flight[i] == o.in_flight[i]);
                }
            }
        }
        acts
    }

    /// Decline a request.
    fn refuse(request: Request) -> (acts: Vec<Act>)
        ensures
            acts.deep_view() == declined(request),
    {
        let mut acts: Vec<Act> = Vec::new();
        acts.push(Act::Tell { request, property: NONE });
        assert(acts.deep_view() =~= declined(request));
        acts
    }

    /// Answer a request, or say what has to be fetched first.
    pub fn answer(&mut self, request: Request) -> (r: Outcome)
        requires
            old(self).wf(),
        ensures
            final(self).wf(),
            (final(self)@, r.deep_view()) == answered(old(self)@, request),
    {
        let property: u32 = if request.property == NONE {
            request.target
        } else {
            request.property
        };
        if request.target == self.atoms.targets {
            let mut acts: Vec<Act> = Vec::new();
            acts.push(
                Act::Write32 {
                    window: request.requestor,
                    property,
                    kind: ATOM,
                    values: self.atoms_for_offer(),
                },
            );
            acts.push(Act::Tell { request, property });
            proof {
                assert(OutcomeView::Do(acts.deep_view()) =~= answered(self@, request).1);
            }
            return Outcome::Do(acts);
        }
        let format: ClipFormat = match self.atoms.format_of(request.target) {
            Some(format) => format,
            None => {
                return Outcome::Do(Self::refuse(request));
            },
        };
        if !listed(&self.offered, &format) {
            return Outcome::Do(Self::refuse(request));
        }
        let held: Option<Vec<u8>> = match self.cached.get(&format) {
            Some(data) => {
                assert(data.deep_view() =~= data@);
                Some(copy_of(data))
            },
            None => None,
        };
        match held {
            Some(data) => Outcome::Do(self.hand_over(request, data)),
            None => Outcome::Fetch(format),
        }
    }

    /// What was fetched for a request has come, or has not.
    pub fn supplied(&mut self, request: Request, format: ClipFormat, data: Option<Vec<u8>>) -> (acts:
        Vec<Act>)
        requires
            old(self).wf(),
        ensures
            final(self).wf(),
            (final(self)@, acts.deep_view()) == fetched(
                old(self)@,
                request,
                format.deep_view(),
                match data {
                    Some(data) => Some(data@),
                    None => None,
                },
            ),
    {
        match data {
            Some(data) => {
                let kept: Vec<u8> = copy_of(&data);
                assert(kept.deep_view() =~= data@);
                let ghost o = self@;
                self.cached.insert(format, kept);
                assert(self@ =~= (OwnerView { cached: self.cached.entries(), ..o }));
                self.hand_over(request, data)
            },
            None => Self::refuse(request),
        }
    }

    /// A requestor has consumed what was in this property.
    pub fn continue_incremental(&mut self, window: u32, property: u32) -> (acts: Vec<Act>)
        requires
            old(self).wf(),
        ensures
            final(self).wf(),
            (final(self)@, acts.deep_view()) == continued(old(self)@, window, property),
    {
        let ghost o = self@;
        let ghost s = o.in_flight;
        let mut acts: Vec<Act> = Vec::new();
        let mut i: usize = 0;
        while i < self.in_flight.len() && !(self.in_flight[i].requestor == window
            && self.in_flight[i].property == property)
            invariant
                self@ == o,
                self.wf(),
                s == o.in_flight,
                i <= s.len(),
                s.len() == self.in_flight.len(),
                forall|k: int|
                    0 <= k < i ==> !((#[trigger] s[k]).requestor == window && s[k].property
                        == property),
            decreases self.in_flight.len() - i,
        {
            assert(s[i as int] == self.in_flight[i as int].deep_view());
            i += 1;
        }
        proof {
            transfer_at_skips(s, window, property, i as int);
        }
        if i >= self.in_flight.len() {
            assert(s.skip(i as int).len() == 0);
            assert(acts.deep_view() =~= seq![]);
            return acts;
        }
        let ghost t = s[i as int];
        proof {
            assert(s.skip(i as int)[0] == t);
            assert(t == self.in_flight[i as int].deep_view());
            assert(transfer_at(s, window, property) == i);
        }
        let sent: usize = self.in_flight[i].sent;
        let len: usize = self.in_flight[i].data.len();
        let end: usize = if len - sent < self.chunk {
            len
        } else {
            sent + self.chunk
        };
        let piece: Vec<u8> = bytes_between(self.in_flight[i].data.as_slice(), sent, end);
        let ghost pv = piece@;
        assert(pv == next_piece(t, o.chunk));
        if piece.len() == 0 {
            self.in_flight.remove(i);
            assert(self@.in_flight =~= s.remove(i as int));
        } else {
            let mut moved: Incremental = self.in_flight.remove(i);
            moved.sent = end;
            let ghost mv = moved.deep_view();
            self.in_flight.insert(i, moved);
            assert(self@.in_flight =~= s.update(i as int, mv));
        }
        acts.push(Act::Write8 { window, property, kind: STRING, data: piece });
        proof {
            assert(acts.deep_view() =~= seq![
                ActView::Write8 { window, property, kind: STRING, data: pv },
            ]);
            assert forall|k: int| 0 <= k < self@.in_flight.len() implies 0 <= (
            #[trigger] self@.in_flight[k]).sent <= self@.in_flight[k].data.len() by {
                if pv.len() == 0 {
                    if k < i {
                        assert(self@.in_flight[k] == s[k]);
                    } else {
                        assert(self@.in_flight[k] == s[k + 1]);
                    }
                } else if k != i {
                    assert(self@.in_flight[k] == s[k]);
                }
            }
        }
        acts
    }

    /// Deal with one event.
    pub fn dispatch(&mut self, event: &Event) -> (r: Outcome)
        requires
            old(self).wf(),
        ensures
            final(self).wf(),
            (final(self)@, r.deep_view()) == dispatched(old(self)@, *event),
    {
        match event {
            Event::Asked(request) => self.answer(*request),
            Event::Cleared { time } => {
                if *time < self.since {
                    let none: Vec<Act> = Vec::new();
                    assert(none.deep_view() =~= seq![]);
                    return Outcome::Do(none);
                }
                Outcome::WhoOwns
            },
            Event::Erased { window, property, .. } => {
                Outcome::Do(self.continue_incremental(*window, *property))
            },
            _ => {
                let none: Vec<Act> = Vec::new();
                assert(none.deep_view() =~= seq![]);
                Outcome::Do(none)
            },
        }
    }

    /// The display has said who owns the clipboard. Returns `false` once that
    /// is something else, at which point there is nothing left to answer.
    pub fn owner_is(&mut self, owner: u32) -> (r: bool)
        requires
            old(self).wf(),
        ensures
            final(self).wf(),
            r == (owner == old(self)@.window),
            final(self)@ == if owner == old(self)@.window {
                old(self)@
            } else {
                OwnerView { owns: false, ..old(self)@ }
            },
    {
        if owner == self.window {
            return true;
        }
        self.owns = false;
        false
    }

    /// Give the clipboard back. Returns whether the display has to be told: not
    /// where something else has taken it already.
    pub fn release(&mut self) -> (tell: bool)
        requires
            old(self).wf(),
        ensures
            final(self).wf(),
            tell == old(self)@.owns,
            final(self)@ == (OwnerView { owns: false, ..old(self)@ }),
    {
        let tell: bool = self.owns;
        self.owns = false;
        tell
    }
}

// --- what holds of an owner ------------------------------------------------------

/// The pieces that a transfer has left, each when its forerunner has been
/// consumed, without the empty one that ends it.
pub open spec fn pieces_left(t: IncrementalView, chunk: nat) -> Seq<Seq<u8>>
    decreases t.data.len() - t.sent,
{
    if t.sent >= t.data.len() || chunk == 0 {
        seq![]
    } else {
        seq![next_piece(t, chunk)] + pieces_left(
            IncrementalView { sent: piece_end(t, chunk), ..t },
            chunk,
        )
    }
}

proof fn joined_starts_with(first: Seq<u8>, rest: Seq<Seq<u8>>)
    ensures
        joined(seq![first] + rest) == first + joined(rest),
    decreases rest.len(),
{
    let all = seq![first] + rest;
    if rest.len() == 0 {
        reveal_with_fuel(joined, 2);
        assert(all.drop_last() =~= seq![]);
        assert(all.last() == first);
        assert(joined(all) =~= first + joined(rest));
    } else {
        joined_starts_with(first, rest.drop_last());
        assert(all.drop_last() =~= seq![first] + rest.drop_last());
        assert(joined(all) =~= first + joined(rest));
    }
}

/// A transfer in pieces sends everything, in order and once: each piece has
/// something in it and is no larger than the display accepts, and together
/// they are what had not been sent.
pub proof fn pieces_are_the_whole(t: IncrementalView, chunk: nat)
    requires
        chunk >= 1,
        0 <= t.sent <= t.data.len(),
    ensures
        joined(pieces_left(t, chunk)) == t.data.skip(t.sent),
        forall|i: int|
            0 <= i < pieces_left(t, chunk).len() ==> 0 < (#[trigger] pieces_left(t, chunk)[i]).len()
                <= chunk,
    decreases t.data.len() - t.sent,
{
    if t.sent < t.data.len() {
        let first = next_piece(t, chunk);
        let after = IncrementalView { sent: piece_end(t, chunk), ..t };
        pieces_are_the_whole(after, chunk);
        joined_starts_with(first, pieces_left(after, chunk));
        assert(first + t.data.skip(after.sent) =~= t.data.skip(t.sent));
        assert forall|i: int| 0 <= i < pieces_left(t, chunk).len() implies 0 < (
        #[trigger] pieces_left(t, chunk)[i]).len() <= chunk by {
            if i > 0 {
                assert(pieces_left(t, chunk)[i] == pieces_left(after, chunk)[i - 1]);
            }
        }
    } else {
        assert(t.data.skip(t.sent) =~= seq![]);
    }
}

/// Contents too large for one property arrive whole: whoever reads the pieces
/// of a transfer, and the empty one after them, has what was handed over.
pub proof fn large_contents_arrive_whole(
    o: OwnerView,
    request: Request,
    data: Seq<u8>,
    target: u32,
    incr: u32,
)
    requires
        sound(o),
        data.len() > o.chunk,
    ensures
        ({
            let after = handed_over(o, request, data).0;
            let t = after.in_flight.last();
            let announced = ConversionView { stage: Stage::Waiting, ..asked(target) };
            after_pieces(announced, incr, pieces_left(t, o.chunk).push(seq![])).1
                == NextView::Done(data)
        }),
{
    let t = handed_over(o, request, data).0.in_flight.last();
    pieces_are_the_whole(t, o.chunk);
    assert(data.skip(0) =~= data);
    an_answer_in_pieces_is_read_whole(target, incr, pieces_left(t, o.chunk));
}

/// Each time a requestor has consumed a piece of the only transfer to it, it is
/// sent the next; when all are gone it is sent an empty one, and the transfer
/// is over.
pub proof fn the_next_piece_follows(o: OwnerView, at: int)
    requires
        sound(o),
        0 <= at < o.in_flight.len(),
        transfer_at(o.in_flight, o.in_flight[at].requestor, o.in_flight[at].property) == at,
    ensures
        ({
            let t = o.in_flight[at];
            let (after, acts) = continued(o, t.requestor, t.property);
            let left = pieces_left(t, o.chunk);
            let piece = if left.len() > 0 {
                left[0]
            } else {
                seq![]
            };
            &&& acts == seq![
                ActView::Write8 {
                    window: t.requestor,
                    property: t.property,
                    kind: STRING,
                    data: piece,
                },
            ]
            &&& left.len() > 0 ==> after.in_flight.len() == o.in_flight.len() && pieces_left(
                after.in_flight[at],
                o.chunk,
            ) == left.drop_first()
            &&& left.len() == 0 ==> after.in_flight == o.in_flight.remove(at)
        }),
{
    let t = o.in_flight[at];
    let left = pieces_left(t, o.chunk);
    if t.sent < t.data.len() {
        let after = IncrementalView { sent: piece_end(t, o.chunk), ..t };
        assert(next_piece(t, o.chunk).len() > 0);
        assert(left.drop_first() =~= pieces_left(after, o.chunk));
    } else {
        assert(next_piece(t, o.chunk) =~= seq![]);
    }
}

/// Whatever is asked, an owner answers only with what it offers: a request for
/// anything else is declined, nothing is fetched for it, and the owner is
/// unchanged.
pub proof fn only_what_is_offered_is_handed_over(o: OwnerView, request: Request)
    requires
        request.target != o.atoms.targets,
        o.atoms.stands_for(request.target) is None || !o.offered.contains(
            o.atoms.stands_for(request.target)->0,
        ),
    ensures
        answered(o, request) == (o, OutcomeView::Do(declined(request))),
{
}

/// A second paste does not fetch again: what came once is handed over at the
/// next request for it, until something else is offered.
pub proof fn a_second_paste_fetches_nothing(
    o: OwnerView,
    request: Request,
    later: Request,
    format: FormatView,
    data: Seq<u8>,
)
    requires
        sound(o),
        o.offered.contains(format),
        later.target != o.atoms.targets,
        o.atoms.stands_for(later.target) == Some(format),
    ensures
        ({
            let after = fetched(o, request, format, Some(data)).0;
            answered(after, later).1 == OutcomeView::Do(handed_over(after, later, data).1)
        }),
{
    stored_reads_back(o.cached, format, data, format);
}

/// The echo of this window's own letting-go does not cost it the clipboard.
pub proof fn an_old_clearing_is_ignored(o: OwnerView, time: u32)
    requires
        time < o.since,
    ensures
        dispatched(o, Event::Cleared { time }) == (o, OutcomeView::Do(seq![])),
{
}

} // verus!
