//! Asking for what is on an X11 clipboard, and answering for it: what goes on
//! which property, and in which order.

use vstd::prelude::*;

use crate::clipboard::ClipboardErrorView;
use crate::keeper::{kept, Doing, Happened, KeeperView, Step};
use crate::owner::{
    answered, continued, dispatched, fetched, handed_over, piece_size, targets_of, transfer_at,
    ActView, IncrementalView, OutcomeView, OwnerView,
};
use crate::proto::FormatView;
use crate::selection::{
    after_event, after_read, asked, atoms_in, formats_among, is_kept, is_news, meets, met_at, Atoms,
    ConversionView, Event, NextView, Request, Stage, Wish,
};
use crate::table::value_of;
use crate::text::decimal;

verus! {

// --- names --------------------------------------------------------------------------

/// Text goes under both of its names, the plain one first; the other formats
/// have one name each, and a format of another kind has none.
pub proof fn the_names_of_the_formats(atoms: Atoms, other: Seq<char>)
    ensures
        atoms.preferred(FormatView::Text) == seq![atoms.utf8_string, atoms.text_plain_utf8],
        atoms.preferred(FormatView::Html) == seq![atoms.text_html],
        atoms.preferred(FormatView::Png) == seq![atoms.image_png],
        atoms.preferred(FormatView::Uris) == seq![atoms.uri_list],
        atoms.preferred(FormatView::Other(other)).len() == 0,
{
}

/// A list of atoms is read four bytes at a time, in the order of the machine.
pub proof fn atoms_are_read_four_bytes_at_a_time(s: Seq<u8>, i: int)
    requires
        0 <= i < s.len() / 4,
    ensures
        atoms_in(s, true).len() == s.len() / 4,
        atoms_in(s, false).len() == s.len() / 4,
        atoms_in(s, false)[i] == s[4 * i] + 0x100 * s[4 * i + 1] + 0x1_0000 * s[4 * i + 2]
            + 0x100_0000 * s[4 * i + 3],
        atoms_in(s, true)[i] == s[4 * i + 3] + 0x100 * s[4 * i + 2] + 0x1_0000 * s[4 * i + 1]
            + 0x100_0000 * s[4 * i],
{
}

/// The targets of an offer are the names of all its formats, one after the
/// other.
pub proof fn every_name_of_an_offer_is_a_target(atoms: Atoms, formats: Seq<FormatView>, format: FormatView)
    ensures
        targets_of(atoms, Seq::empty()).len() == 0,
        targets_of(atoms, formats.push(format)) == targets_of(atoms, formats) + atoms.preferred(
            format,
        ),
{
    assert(formats.push(format).drop_last() =~= formats);
}

// --- which events are whose -------------------------------------------------------------

/// An answer is an answer to this window, a piece is a writing of the property
/// it was asked to be written to, and only those; and what is meant for others
/// is kept for them.
pub proof fn which_event_is_waited_for(
    window: u32,
    transfer: u32,
    a: u32,
    b: u32,
    time: u32,
    request: Request,
    ignored: Option<u32>,
)
    ensures
        meets(window, transfer, Wish::Answer, Event::Answered { requestor: a, property: b }) == (a
            == window),
        meets(window, transfer, Wish::Piece, Event::Written { window: a, property: b, time }) == (a
            == window && b == transfer),
        meets(window, transfer, Wish::Time, Event::Written { window: a, property: b, time }) == (a
            == window && b == transfer),
        meets(window, transfer, Wish::Time, Event::Erased { window: a, property: b, time }) == (a
            == window && b == transfer),
        !meets(window, transfer, Wish::Piece, Event::Erased { window: a, property: b, time }),
        !meets(window, transfer, Wish::Answer, Event::Written { window: a, property: b, time }),
        !meets(window, transfer, Wish::Piece, Event::Answered { requestor: a, property: b }),
        is_kept(Event::OwnerChanged { owner: a }),
        is_kept(Event::Asked(request)),
        is_kept(Event::Cleared { time }),
        !is_kept(Event::Answered { requestor: a, property: b }),
        !is_kept(Event::Written { window: a, property: b, time }),
        !is_kept(Event::Erased { window: a, property: b, time }),
        !is_kept(Event::Other),
        is_news(Event::OwnerChanged { owner: a }, ignored) == (ignored != Some(a)),
        !is_news(Event::Cleared { time }, ignored),
        !is_news(Event::Asked(request), ignored),
{
}

/// Of the events held back, the earliest that is waited for is taken.
pub proof fn the_earliest_is_taken(window: u32, transfer: u32, wish: Wish, events: Seq<Event>)
    ensures
        ({
            let at = met_at(window, transfer, wish, events);
            &&& 0 <= at <= events.len()
            &&& at < events.len() ==> meets(window, transfer, wish, events[at])
            &&& forall|i: int| 0 <= i < at ==> !meets(window, transfer, wish, #[trigger] events[i])
        }),
    decreases events.len(),
{
    if events.len() > 0 && !meets(window, transfer, wish, events[0]) {
        let rest = events.drop_first();
        the_earliest_is_taken(window, transfer, wish, rest);
        let at = met_at(window, transfer, wish, events);
        assert forall|i: int| 0 <= i < at implies !meets(window, transfer, wish, #[trigger] events[i]) by {
            if i > 0 {
                assert(rest[i - 1] == events[i]);
            }
        }
    }
}

/// A conversion that is answered at once has what was written; one that the owner
/// declines is refused; and until then it waits.
pub proof fn an_answer_at_once(
    target: u32,
    incr: u32,
    kind: u32,
    requestor: u32,
    property: u32,
    value: Seq<u8>,
)
    ensures
        ({
            let c = asked(target);
            let (a, next) = after_event(c, Event::Answered { requestor, property });
            &&& c.target == target && c.stage is Asked && c.collected.len() == 0
            &&& property != 0 ==> next == NextView::Read
            &&& property != 0 && kind != incr ==> after_read(a, incr, kind, value).1
                == NextView::Done(value)
            &&& property != 0 && kind == incr ==> after_read(a, incr, kind, value).1
                == NextView::More && after_read(a, incr, kind, value).0 == (ConversionView {
                stage: Stage::Waiting,
                ..c
            })
            &&& property == 0 ==> next is Failed && next->Failed_0 is Refused
            &&& after_event(c, Event::Other) == (c, NextView::Wait)
        }),
{
}

// --- answering ------------------------------------------------------------------------

/// Where an answer goes: to the property that was asked for, or where none was,
/// to the one named like the target.
pub open spec fn place(request: Request) -> u32 {
    if request.property != 0 {
        request.property
    } else {
        request.target
    }
}

/// Contents that fit are written whole, under the target that was asked for, to
/// the window that asked, and it is told so.
pub proof fn small_contents_are_written_whole(o: OwnerView, request: Request, data: Seq<u8>)
    requires
        data.len() <= o.chunk,
    ensures
        handed_over(o, request, data) == (
            o,
            seq![
                ActView::Write8 {
                    window: request.requestor,
                    property: place(request),
                    kind: request.target,
                    data,
                },
                ActView::Tell { request, property: place(request) },
            ],
        ),
{
}

/// Contents that do not fit are announced with their size, the window that asked
/// is followed, and it is told; they are then sent from the beginning.
pub proof fn large_contents_are_announced(o: OwnerView, request: Request, data: Seq<u8>)
    requires
        o.chunk < data.len() <= u32::MAX,
    ensures
        ({
            let (after, acts) = handed_over(o, request, data);
            &&& acts.len() == 3
            &&& acts[0] is Write32
            &&& acts[0]->Write32_window == request.requestor
            &&& acts[0]->Write32_property == place(request)
            &&& acts[0]->Write32_kind == o.atoms.incr
            &&& acts[0]->values.len() == 1 && acts[0]->values[0] == data.len()
            &&& acts[1] == (ActView::Follow { window: request.requestor })
            &&& acts[2] == (ActView::Tell { request, property: place(request) })
            &&& after.in_flight == o.in_flight.push(
                IncrementalView {
                    requestor: request.requestor,
                    property: place(request),
                    data,
                    sent: 0,
                },
            )
            &&& after == (OwnerView { in_flight: after.in_flight, ..o })
        }),
{
}

/// A request for the list of targets is answered with the name for that list and
/// those of everything offered; one for contents that are here with them; one for
/// contents that are not, once they have been fetched; and what cannot be had is
/// declined.
pub proof fn a_request_is_answered(o: OwnerView, request: Request, format: FormatView, data: Seq<u8>)
    ensures
        ({
            let (after, outcome) = answered(o, request);
            &&& request.target == o.atoms.targets ==> after == o && outcome == OutcomeView::Do(
                seq![
                    ActView::Write32 {
                        window: request.requestor,
                        property: place(request),
                        kind: 4,
                        values: seq![o.atoms.targets] + targets_of(o.atoms, o.offered),
                    },
                    ActView::Tell { request, property: place(request) },
                ],
            )
            &&& request.target != o.atoms.targets && o.atoms.stands_for(request.target) == Some(
                format,
            ) && o.offered.contains(format) && value_of(o.cached, format) is None ==> after == o
                && outcome == OutcomeView::Fetch(format)
            &&& request.target != o.atoms.targets && o.atoms.stands_for(request.target) == Some(
                format,
            ) && o.offered.contains(format) && value_of(o.cached, format) == Some(data)
                ==> outcome == OutcomeView::Do(handed_over(o, request, data).1) && after
                == handed_over(o, request, data).0
        }),
        fetched(o, request, format, None) == (
            o,
            seq![ActView::Tell { request, property: 0 }],
        ),
        fetched(o, request, format, Some(data)).1 == handed_over(o, request, data).1,
{
}

/// What a target is a name for.
pub proof fn what_a_target_stands_for(atoms: Atoms, target: u32)
    requires
        atoms.distinct(),
    ensures
        atoms.stands_for(target) == Some(FormatView::Text) <==> target == atoms.utf8_string || target
            == atoms.text_plain_utf8,
        atoms.stands_for(target) == Some(FormatView::Html) <==> target == atoms.text_html,
        atoms.stands_for(target) == Some(FormatView::Png) <==> target == atoms.image_png,
        atoms.stands_for(target) == Some(FormatView::Uris) <==> target == atoms.uri_list,
        atoms.stands_for(target) is None <==> target != atoms.utf8_string && target
            != atoms.text_plain_utf8 && target != atoms.text_html && target != atoms.image_png
            && target != atoms.uri_list,
{
}

/// A property that is erased asks for the next piece; a clearing from after the
/// clipboard was taken is asked about, and one from before is nothing; nothing
/// else concerns an owner.
pub proof fn what_an_owner_does_about_events(
    o: OwnerView,
    request: Request,
    window: u32,
    property: u32,
    time: u32,
)
    ensures
        dispatched(o, Event::Asked(request)) == answered(o, request),
        time >= o.since ==> dispatched(o, Event::Cleared { time }) == (o, OutcomeView::WhoOwns),
        time < o.since ==> dispatched(o, Event::Cleared { time }) == (
            o,
            OutcomeView::Do(Seq::empty()),
        ),
        dispatched(o, Event::Erased { window, property, time }).0 == continued(
            o,
            window,
            property,
        ).0,
        dispatched(o, Event::Erased { window, property, time }).1 == OutcomeView::Do(
            continued(o, window, property).1,
        ),
        dispatched(o, Event::Written { window, property, time }) == (
            o,
            OutcomeView::Do(Seq::empty()),
        ),
        dispatched(o, Event::OwnerChanged { owner: window }) == (o, OutcomeView::Do(Seq::empty())),
{
}

/// A piece is at most half of what a request may be, and never less than four
/// kilobytes.
pub proof fn how_large_a_piece_is(maximum: nat)
    ensures
        maximum >= 8192 ==> piece_size(maximum) == maximum / 2,
        maximum < 8192 ==> piece_size(maximum) == 4096,
{
}

// --- keeping an offer up ----------------------------------------------------------------

/// An offer made while nothing is held is taken through the connection that is
/// there, and then served; it is served at every tick for as long as it is ours;
/// and giving it up lets go of it and rests.
pub proof fn an_offer_is_taken_and_served(k: KeeperView, owns: bool, window: u32)
    requires
        k.doing == Doing::Resting,
    ensures
        ({
            let (a, first) = kept(k, Happened::Offer { owns });
            &&& k.held is None && k.ready ==> {
                let (b, second) = kept(a, Happened::Took { window: Some(window) });
                let (c, third) = kept(b, Happened::Served { owns: true });
                let (d, fourth) = kept(c, Happened::Tick);
                let (e, fifth) = kept(c, Happened::Release);
                let (f, sixth) = kept(e, Happened::LetGo { ok: true });
                &&& first == Step::Take
                &&& second == Step::Serve && b.held == Some(window)
                &&& third == Step::Rest && c.held == Some(window)
                &&& fourth == Step::Serve && d.held == Some(window)
                &&& fifth == Step::LetGo && e.held is None
                &&& sixth == Step::Rest && f.ready && f.doing == Doing::Resting
            }
            &&& k.held is None && !k.ready ==> {
                let (b, second) = kept(a, Happened::Connected { ok: true });
                let (c, third) = kept(a, Happened::Connected { ok: false });
                &&& first == Step::Connect
                &&& second == Step::Take
                &&& third == Step::GiveUp && c.doing == Doing::Resting
            }
            &&& k.held is Some && !owns ==> {
                let (b, second) = kept(a, Happened::LetGo { ok: true });
                let (c, third) = kept(a, Happened::LetGo { ok: false });
                &&& first == Step::LetGo && a.held is None
                &&& second == Step::Take
                &&& third == Step::Connect
            }
        }),
        k.held is None ==> kept(k, Happened::Tick) == (k, Step::Rest),
{
}

/// What is no longer ours, or cannot be served, is let go of, and a connection is
/// got for the next offer.
pub proof fn what_is_lost_is_let_go(k: KeeperView, ok: bool)
    requires
        k.doing == Doing::Serving,
        k.held is Some,
    ensures
        kept(k, Happened::Served { owns: false }).1 == Step::LetGo,
        kept(k, Happened::Served { owns: false }).0.held is None,
        kept(k, Happened::ServingFailed).1 == Step::Connect,
        kept(k, Happened::ServingFailed).0.held is None,
        ({
            let after = kept(kept(k, Happened::ServingFailed).0, Happened::Connected { ok });
            after.1 == Step::Rest && after.0.ready == ok && after.0.doing == Doing::Resting
        }),
{
}

/// A clipboard that could not be taken is not held, and the thread rests once it
/// has a connection again.
pub proof fn what_could_not_be_taken_is_not_held(k: KeeperView, ok: bool)
    requires
        k.doing == Doing::Taking,
        k.held is None,
    ensures
        ({
            let (a, first) = kept(k, Happened::Took { window: None });
            let (b, second) = kept(a, Happened::Connected { ok });
            first == Step::Connect && a.held is None && second == Step::Rest && b.held is None
                && b.ready == ok
        }),
{
}

// --- transfers in pieces ----------------------------------------------------------------

/// A transfer is found by its window and its property, the earliest of those with
/// both.
pub proof fn which_transfer_goes_on(s: Seq<IncrementalView>, window: u32, property: u32)
    ensures
        ({
            let at = transfer_at(s, window, property);
            &&& 0 <= at <= s.len()
            &&& at < s.len() ==> s[at].requestor == window && s[at].property == property
            &&& forall|i: int|
                0 <= i < at ==> (#[trigger] s[i]).requestor != window || s[i].property != property
        }),
    decreases s.len(),
{
    if s.len() > 0 && !(s[0].requestor == window && s[0].property == property) {
        which_transfer_goes_on(s.drop_first(), window, property);
        let at = transfer_at(s.drop_first(), window, property);
        assert forall|i: int| 0 <= i < at + 1 implies (#[trigger] s[i]).requestor != window
            || s[i].property != property by {
            if i > 0 {
                assert(s.drop_first()[i - 1] == s[i]);
            }
        }
    }
}

/// The next piece of a transfer begins where the last one ended and is as large as
/// a piece may be, or all that is left; the other transfers stay as they are, and
/// one that is not going on brings nothing.
pub proof fn what_goes_out_next(o: OwnerView, window: u32, property: u32, i: int)
    requires
        crate::owner::sound(o),
    ensures
        ({
            let at = transfer_at(o.in_flight, window, property);
            let t = o.in_flight[at];
            let (after, acts) = continued(o, window, property);
            let end = if t.data.len() - t.sent < o.chunk {
                t.data.len() as int
            } else {
                t.sent + o.chunk
            };
            &&& at == o.in_flight.len() ==> after == o && acts.len() == 0
            &&& at < o.in_flight.len() ==> acts == seq![
                ActView::Write8 {
                    window,
                    property,
                    kind: 31,
                    data: t.data.subrange(t.sent, end),
                },
            ]
            &&& at < o.in_flight.len() && t.sent < t.data.len() ==> {
                &&& after.in_flight.len() == o.in_flight.len()
                &&& after.in_flight[at] == (IncrementalView { sent: end, ..t })
                &&& 0 <= i < o.in_flight.len() && i != at ==> after.in_flight[i] == o.in_flight[i]
            }
            &&& at < o.in_flight.len() && t.sent == t.data.len() ==> after.in_flight
                == o.in_flight.remove(at)
            &&& after == (OwnerView { in_flight: after.in_flight, ..o })
        }),
{
    which_transfer_goes_on(o.in_flight, window, property);
}

/// Pieces are waited for once they were announced, and read when they come; and
/// the target that was refused is named.
pub proof fn how_a_conversion_goes_on(
    c: ConversionView,
    requestor: u32,
    window: u32,
    property: u32,
    time: u32,
    incr: u32,
    kind: u32,
    value: Seq<u8>,
)
    ensures
        c.stage is Waiting ==> after_event(c, Event::Written { window, property, time }) == (
            ConversionView { stage: Stage::Arrived, ..c },
            NextView::Read,
        ),
        c.stage is Waiting ==> after_event(c, Event::Erased { window, property, time }) == (
            c,
            NextView::Wait,
        ),
        c.stage is Asked ==> after_event(c, Event::Written { window, property, time }) == (
            c,
            NextView::Wait,
        ),
        c.stage is Asked ==> after_event(c, Event::Answered { requestor, property: 0 }) == (
            c,
            NextView::Failed(
                ClipboardErrorView::Refused(
                    FormatView::Other("target "@ + decimal(c.target as nat)),
                ),
            ),
        ),
        c.stage is Arrived && value.len() == 0 ==> after_read(c, incr, kind, value).1
            == NextView::Done(c.collected),
        c.stage is Arrived && value.len() > 0 ==> after_read(c, incr, kind, value) == (
            ConversionView { stage: Stage::Waiting, collected: c.collected + value, ..c },
            NextView::More,
        ),
{
}

/// What is available is told in the order of the targets.
pub proof fn what_is_available_is_told_in_order(atoms: Atoms, targets: Seq<u32>, target: u32)
    ensures
        ({
            let before = formats_among(atoms, targets);
            let after = formats_among(atoms, targets.push(target));
            let format = atoms.stands_for(target);
            &&& format is None ==> after == before
            &&& format is Some && before.contains(format->0) ==> after == before
            &&& format is Some && !before.contains(format->0) ==> after == before.push(format->0)
        }),
{
    assert(targets.push(target).drop_last() =~= targets);
}

/// A request that is not met is answered with no property at all.
pub proof fn a_request_is_declined(o: OwnerView, request: Request)
    requires
        request.target != o.atoms.targets,
    ensures
        o.atoms.stands_for(request.target) is None || !o.offered.contains(
            o.atoms.stands_for(request.target)->0,
        ) ==> answered(o, request) == (
            o,
            OutcomeView::Do(seq![ActView::Tell { request, property: 0 }]),
        ),
{
}

/// An offer that comes while the clipboard cannot be let go of is made through a
/// new connection, and given up only if there is none. With nothing held there is
/// nothing to let go of.
pub proof fn an_offer_outlives_a_lost_connection(k: KeeperView, window: u32)
    requires
        k.doing == Doing::Resting,
    ensures
        ({
            let a = kept(k, Happened::Offer { owns: false }).0;
            let b = kept(a, Happened::LetGo { ok: false }).0;
            let (c, again) = kept(b, Happened::Connected { ok: true });
            let (d, never) = kept(b, Happened::Connected { ok: false });
            &&& k.held is Some ==> again == Step::Take && !c.ready
            &&& k.held is Some ==> never == Step::Connect && kept(
                d,
                Happened::Connected { ok: false },
            ).1 == Step::GiveUp
            &&& k.held is Some ==> kept(c, Happened::Took { window: Some(window) }).0.held == Some(
                window,
            )
        }),
        k.held is None ==> kept(k, Happened::Release) == (k, Step::Rest),
        ({
            let a = kept(k, Happened::Release).0;
            let b = kept(a, Happened::LetGo { ok: false });
            &&& k.held is Some ==> b.1 == Step::Connect && kept(
                b.0,
                Happened::Connected { ok: true },
            ).1 == Step::Rest && kept(b.0, Happened::Connected { ok: true }).0.ready
        }),
{
}

} // verus!
